//! Fixed-point arithmetic: weights and signals in millionths (`ONE`), prediction scores and
//! the recency decay in units of 10^-18 (`FINE_ONE`).
use vstd::prelude::*;

verus! {

/// 1.0 in millionths.
pub const ONE: u64 = 1_000_000;

/// ln 2 in millionths.
pub const LN2: u64 = 693_147;

/// 1.0 in units of 10^-18.
pub const FINE_ONE: u64 = 1_000_000_000_000_000_000;

/// Seconds per decay step: an eighth of the half-life of e^(-t / 30 days).
pub const DECAY_STEP: u64 = 224_580;

/// Decay steps after which the recency decay is taken as zero: 59 half-lives, about 1227
/// days, where e^(-t / 30 days) falls below two units of 10^-18.
pub const DECAY_STEPS: u64 = 472;

/// Decay steps over which the decay falls by at least 7 units of 10^-18 per second: 35
/// half-lives, about 728 days. Past them the unit of 10^-18 is too coarse for a recency
/// weight of 0.3 to tell apart two ages one second apart.
pub const DECAY_STRICT_STEPS: u64 = 280;

pub open spec fn pow2(k: nat) -> nat
    decreases k,
{
    if k == 0 {
        1
    } else {
        2 * pow2((k - 1) as nat)
    }
}

/// The largest `k` with `2^k <= n`.
pub open spec fn flog2(n: nat) -> nat
    decreases n,
{
    if n < 2 {
        0
    } else {
        1 + flog2(n / 2)
    }
}

/// ln(1 + i/8) in millionths, for i in 0..=8.
pub open spec fn ln_step(i: int) -> int {
    if i <= 0 {
        0
    } else if i == 1 {
        117_783
    } else if i == 2 {
        223_144
    } else if i == 3 {
        318_454
    } else if i == 4 {
        405_465
    } else if i == 5 {
        485_508
    } else if i == 6 {
        559_616
    } else if i == 7 {
        628_609
    } else {
        693_147
    }
}

/// Natural logarithm of `n` in millionths, 0 for `n <= 1`: whole octaves count ln 2 each,
/// and within an octave the value follows ln(1 + x) linearly between eighths.
pub open spec fn ln_fixed(n: nat) -> int {
    if n <= 1 {
        0
    } else {
        let k = flog2(n);
        let p = pow2(k);
        let f8 = (n - p) * 8;
        let i = f8 / p as int;
        let rem = f8 - i * p;
        k * LN2 + ln_step(i) + (ln_step(i + 1) - ln_step(i)) * rem / p as int
    }
}

proof fn lemma_pow2_pos(k: nat)
    ensures
        pow2(k) >= 1,
    decreases k,
{
    if k > 0 {
        lemma_pow2_pos((k - 1) as nat);
    }
}

proof fn lemma_flog2(n: nat, k: nat)
    requires
        pow2(k) <= n < 2 * pow2(k),
    ensures
        flog2(n) == k,
    decreases k,
{
    lemma_pow2_pos(k);
    if k > 0 {
        assert(pow2(k) == 2 * pow2((k - 1) as nat));
        lemma_flog2(n / 2, (k - 1) as nat);
    }
}

fn ln_step_exec(i: u64) -> (r: u64)
    requires
        i <= 8,
    ensures
        r == ln_step(i as int),
{
    if i == 0 {
        0
    } else if i == 1 {
        117_783
    } else if i == 2 {
        223_144
    } else if i == 3 {
        318_454
    } else if i == 4 {
        405_465
    } else if i == 5 {
        485_508
    } else if i == 6 {
        559_616
    } else if i == 7 {
        628_609
    } else {
        693_147
    }
}

/// Natural logarithm in millionths (see `ln_fixed`).
pub fn ln_micro(n: u64) -> (r: u64)
    ensures
        r == ln_fixed(n as nat),
{
    if n <= 1 {
        return 0;
    }
    let mut k: u64 = 0;
    let mut p: u64 = 1;
    while p <= n / 2
        invariant
            1 <= p <= n,
            p == pow2(k as nat),
            k <= 63,
        decreases n - p,
    {
        proof {
            if k == 63 {
                lemma_pow2_63();
            }
        }
        p = p * 2;
        k = k + 1;
    }
    proof {
        lemma_flog2(n as nat, k as nat);
    }
    let f8: u128 = ((n - p) as u128) * 8;
    let i: u128 = f8 / (p as u128);
    proof {
        assert(n - p < p);
        let (fi, pi, ii) = (f8 as int, p as int, i as int);
        assert(fi < 8 * pi);
        assert(ii < 8) by (nonlinear_arith)
            requires
                ii == fi / pi,
                fi < 8 * pi,
                pi >= 1,
        ;
        assert(ii * pi <= fi) by (nonlinear_arith)
            requires
                ii == fi / pi,
                pi >= 1,
                fi >= 0,
        ;
    }
    let rem: u128 = f8 - i * (p as u128);
    let lo = ln_step_exec(i as u64);
    let hi = ln_step_exec((i + 1) as u64);
    proof {
        let (fi, pi, ii, ri) = (f8 as int, p as int, i as int, rem as int);
        assert(ri < pi) by (nonlinear_arith)
            requires
                ii == fi / pi,
                ri == fi - ii * pi,
                pi >= 1,
                fi >= 0,
        ;
        lemma_ln_step_mono(i as int);
        let d = (hi - lo) as int;
        assert(d * ri <= 700_000 * pi) by (nonlinear_arith)
            requires
                d <= 700_000,
                d >= 0,
                ri < pi,
                ri >= 0,
        ;
    }
    let interp: u128 = ((hi - lo) as u128) * rem / (p as u128);
    proof {
        let (di, ri, pi) = ((hi - lo) as int, rem as int, p as int);
        assert((interp as int) <= 700_000) by (nonlinear_arith)
            requires
                interp as int == (di * ri) / pi,
                di * ri <= 700_000 * pi,
                pi >= 1,
        ;
    }
    k * LN2 + lo + interp as u64
}

proof fn lemma_pow2_63()
    ensures
        pow2(63) == 0x8000_0000_0000_0000,
{
    reveal_with_fuel(pow2, 64);
}

proof fn lemma_flog2_bounds(n: nat)
    requires
        n >= 1,
    ensures
        pow2(flog2(n)) <= n < 2 * pow2(flog2(n)),
    decreases n,
{
    if n >= 2 {
        lemma_flog2_bounds(n / 2);
        assert(pow2(flog2(n)) == 2 * pow2(flog2(n / 2)));
    }
}

proof fn lemma_ln_step_mono(i: int)
    requires
        0 <= i <= 7,
    ensures
        0 <= ln_step(i) <= ln_step(i + 1) <= LN2,
{
}

/// The fixed-point logarithm is never negative.
pub proof fn lemma_ln_fixed_nonneg(n: nat)
    ensures
        ln_fixed(n) >= 0,
{
    if n >= 2 {
        lemma_ln_fixed_positive(n);
    }
}

/// The fixed-point logarithm is at least ln 2 from n = 2 on.
pub proof fn lemma_ln_fixed_positive(n: nat)
    requires
        n >= 2,
    ensures
        ln_fixed(n) >= LN2,
{
    let k = flog2(n);
    let p = pow2(k);
    lemma_flog2_bounds(n);
    assert(k >= 1);
    let f8 = (n - p) * 8;
    let i = f8 / p as int;
    let rem = f8 - i * p;
    assert(0 <= i < 8 && 0 <= rem) by (nonlinear_arith)
        requires
            f8 == (n - p) * 8,
            i == f8 / (p as int),
            rem == f8 - i * p,
            p >= 1,
            p <= n < 2 * p,
    ;
    lemma_ln_step_mono(i);
    assert((ln_step(i + 1) - ln_step(i)) * rem / p as int >= 0) by (nonlinear_arith)
        requires
            ln_step(i + 1) - ln_step(i) >= 0,
            rem >= 0,
            p >= 1,
    ;
    assert(k * LN2 >= LN2) by (nonlinear_arith)
        requires
            k >= 1,
    ;
}

/// 2^-k in units of 10^-18, each halving rounded down.
pub open spec fn half_knot(k: nat) -> nat
    decreases k,
{
    if k == 0 {
        FINE_ONE as nat
    } else {
        half_knot((k - 1) as nat) / 2
    }
}

/// 2^(-i/8) in millionths, for i in 0..=8.
pub open spec fn eighth(i: int) -> int {
    if i <= 0 {
        1_000_000
    } else if i == 1 {
        917_004
    } else if i == 2 {
        840_896
    } else if i == 3 {
        771_105
    } else if i == 4 {
        707_107
    } else if i == 5 {
        648_420
    } else if i == 6 {
        594_604
    } else if i == 7 {
        545_254
    } else {
        500_000
    }
}

/// The decay at the start of step `seg`: 2^(-seg/8) in units of 10^-18.
pub open spec fn knot(seg: nat) -> int {
    half_knot(seg / 8) * eighth((seg % 8) as int) / ONE as int
}

/// The decay at the end of step `seg`.
pub open spec fn knot_end(seg: nat) -> int {
    half_knot(seg / 8) * eighth((seg % 8) as int + 1) / ONE as int
}

/// Recency weight of something used `age` seconds ago, in units of 10^-18:
/// e^(-age / 30 days), linear between knots an eighth of a half-life apart, 1 for ages up to
/// zero, at least 1 unit up to `DECAY_STEPS` steps and 0 from there on.
pub open spec fn decay_past(age: int) -> int {
    if age <= 0 {
        FINE_ONE as int
    } else {
        let seg = age / (DECAY_STEP as int);
        let r = age % (DECAY_STEP as int);
        if seg >= DECAY_STEPS {
            0
        } else {
            let a = knot(seg as nat);
            let b = knot_end(seg as nat);
            a - (a - b) * r / (DECAY_STEP as int)
        }
    }
}

proof fn lemma_half_knot_mono(j: nat, k: nat)
    requires
        j <= k,
    ensures
        half_knot(k) <= half_knot(j) <= FINE_ONE,
    decreases k,
{
    if k > j {
        lemma_half_knot_mono(j, (k - 1) as nat);
    } else if k > 0 {
        lemma_half_knot_mono((k - 1) as nat, (k - 1) as nat);
    }
}

proof fn lemma_half_knot_floor()
    ensures
        half_knot(34) >= 40_000_000,
        half_knot(58) >= 2,
{
    reveal_with_fuel(half_knot, 59);
}

proof fn lemma_eighth(i: int)
    requires
        0 <= i <= 7,
    ensures
        eighth(i + 1) + 45_000 <= eighth(i) <= 1_000_000,
        eighth(i + 1) >= 500_000,
{
}

/// Inside the decay horizon every step runs downward and stays at least one unit above 0.
proof fn lemma_step_order(seg: nat)
    requires
        seg < DECAY_STEPS,
    ensures
        1 <= knot_end(seg) <= knot(seg) <= FINE_ONE,
{
    let k = seg / 8;
    let i = (seg % 8) as int;
    lemma_half_knot_mono(k, 58);
    lemma_half_knot_mono(0, k);
    lemma_half_knot_floor();
    lemma_eighth(i);
    let p = half_knot(k) as int;
    let e0 = eighth(i);
    let e1 = eighth(i + 1);
    assert(1 <= p * e1 / 1_000_000 <= p * e0 / 1_000_000 <= p) by (nonlinear_arith)
        requires
            p >= 2,
            500_000 <= e1 <= e0 <= 1_000_000,
    ;
}

/// Inside the strict horizon each step loses at least eight units per second.
proof fn lemma_step_gap(seg: nat)
    requires
        seg < DECAY_STRICT_STEPS,
    ensures
        knot(seg) - knot_end(seg) >= 8 * DECAY_STEP,
        0 <= knot_end(seg),
        knot(seg) <= FINE_ONE,
{
    let k = seg / 8;
    let i = (seg % 8) as int;
    lemma_half_knot_mono(k, 34);
    lemma_half_knot_mono(0, k);
    lemma_half_knot_floor();
    lemma_eighth(i);
    let p = half_knot(k) as int;
    let e0 = eighth(i);
    let e1 = eighth(i + 1);
    assert(p * e0 / 1_000_000 - p * e1 / 1_000_000 >= 8 * DECAY_STEP) by (nonlinear_arith)
        requires
            p >= 40_000_000,
            e1 + 45_000 <= e0,
    ;
    assert(0 <= p * e1 / 1_000_000) by (nonlinear_arith)
        requires
            p >= 0,
            e1 >= 0,
    ;
    assert(p * e0 / 1_000_000 <= p) by (nonlinear_arith)
        requires
            p >= 0,
            0 <= e0 <= 1_000_000,
    ;
}

/// The end of one step is the start of the next.
proof fn lemma_knot_end(seg: nat)
    ensures
        knot_end(seg) == knot(seg + 1),
{
    let k = seg / 8;
    let p = half_knot(k) as int;
    if seg % 8 == 7 {
        assert((seg + 1) / 8 == k + 1);
        assert((seg + 1) % 8 == 0);
        assert(p * 500_000 / 1_000_000 == p / 2) by (nonlinear_arith)
            requires
                p >= 0,
        ;
        let q = half_knot(k + 1) as int;
        assert(q * 1_000_000 / 1_000_000 == q) by (nonlinear_arith);
    } else {
        assert((seg + 1) / 8 == k);
        assert((seg + 1) % 8 == seg % 8 + 1);
    }
}

proof fn lemma_knot_mono(s1: nat, s2: nat)
    requires
        s1 <= s2 <= DECAY_STEPS,
    ensures
        knot(s2) <= knot(s1),
    decreases s2 - s1,
{
    if s1 < s2 {
        lemma_knot_mono(s1, (s2 - 1) as nat);
        lemma_step_order((s2 - 1) as nat);
        lemma_knot_end((s2 - 1) as nat);
    }
}

/// Within step `seg`, the decay lies between the step's end and start.
proof fn lemma_within_step(age: int)
    requires
        age > 0,
        age / (DECAY_STEP as int) < DECAY_STEPS,
    ensures
        knot_end((age / DECAY_STEP as int) as nat) <= decay_past(age),
        decay_past(age) <= knot((age / DECAY_STEP as int) as nat),
{
    let seg = (age / DECAY_STEP as int) as nat;
    let r = age % (DECAY_STEP as int);
    lemma_step_order(seg);
    let a = knot(seg);
    let b = knot_end(seg);
    assert(0 <= (a - b) * r / (DECAY_STEP as int) <= a - b) by (nonlinear_arith)
        requires
            0 <= r < DECAY_STEP,
            a - b >= 0,
    ;
}

/// Within one step, the decay does not grow with age.
proof fn same_step_mono(a: int, b: int)
    requires
        0 < a <= b,
        a / (DECAY_STEP as int) == b / (DECAY_STEP as int),
        b / (DECAY_STEP as int) < DECAY_STEPS,
    ensures
        decay_past(b) <= decay_past(a),
{
    let seg = (a / DECAY_STEP as int) as nat;
    lemma_step_order(seg);
    let g = knot(seg) - knot_end(seg);
    let r1 = a % (DECAY_STEP as int);
    let r2 = b % (DECAY_STEP as int);
    assert(r2 - r1 == b - a);
    assert(g * r1 / (DECAY_STEP as int) <= g * r2 / (DECAY_STEP as int)) by (nonlinear_arith)
        requires
            0 <= r1 <= r2,
            g >= 0,
    ;
}

/// Recency never grows with age, and stays between 0 and 1.
proof fn lemma_past_mono(a: int, b: int)
    requires
        a <= b,
    ensures
        decay_past(b) <= decay_past(a),
        0 <= decay_past(b) <= FINE_ONE,
{
    let sb = b / (DECAY_STEP as int);
    if b > 0 && sb < DECAY_STEPS {
        lemma_within_step(b);
        lemma_knot_mono(0, sb as nat);
        lemma_step_order(sb as nat);
        if a > 0 {
            let sa = a / (DECAY_STEP as int);
            lemma_within_step(a);
            if sa == sb {
                same_step_mono(a, b);
            } else {
                lemma_knot_end(sa as nat);
                lemma_knot_mono((sa + 1) as nat, sb as nat);
            }
        } else {
            assert(knot(0) == FINE_ONE) by {
                assert(half_knot(0) * 1_000_000 / 1_000_000 == half_knot(0)) by (nonlinear_arith);
            }
        }
    } else if a > 0 && a / (DECAY_STEP as int) < DECAY_STEPS {
        lemma_within_step(a);
    }
}

proof fn strict_same_step(a: int, b: int)
    requires
        0 < a <= b,
        a / (DECAY_STEP as int) == b / (DECAY_STEP as int),
        b / (DECAY_STEP as int) < DECAY_STRICT_STEPS,
    ensures
        decay_past(b) + 7 * (b - a) <= decay_past(a),
{
    let seg = (a / DECAY_STEP as int) as nat;
    lemma_step_gap(seg);
    let g = knot(seg) - knot_end(seg);
    let r1 = a % (DECAY_STEP as int);
    let r2 = b % (DECAY_STEP as int);
    assert(r2 - r1 == b - a);
    assert(g * r1 / (DECAY_STEP as int) + 7 * (r2 - r1) <= g * r2 / DECAY_STEP as int) by (
    nonlinear_arith)
        requires
            0 <= r1 <= r2,
            g >= 8 * DECAY_STEP,
    ;
}

/// Recency falls strictly with age over the decay horizon: by at least 7 units of 10^-18
/// between any two distinct ages from 0 up to the horizon.
proof fn lemma_past_strict(a: int, b: int)
    requires
        0 <= a < b,
        b < DECAY_STEP * DECAY_STRICT_STEPS,
    ensures
        decay_past(b) + 7 <= decay_past(a),
{
    let sb = b / (DECAY_STEP as int);
    lemma_within_step(b);
    if a == 0 {
        lemma_knot_mono(0, sb as nat);
        assert(knot(0) == FINE_ONE) by {
            assert(half_knot(0) * 1_000_000 / 1_000_000 == half_knot(0)) by (nonlinear_arith);
        }
        if sb == 0 {
            strict_zero(b);
        } else {
            lemma_within_step(b);
            lemma_step_gap(0);
            lemma_knot_end(0);
            lemma_knot_mono(1, sb as nat);
        }
    } else {
        let sa = a / (DECAY_STEP as int);
        lemma_within_step(a);
        if sa == sb {
            strict_same_step(a, b);
        } else {
            lemma_step_gap(sb as nat);
            lemma_step_gap(sa as nat);
            lemma_knot_end(sa as nat);
            lemma_knot_mono((sa + 1) as nat, sb as nat);
            strict_step_end(a);
        }
    }
}

/// Inside step 0, a positive age is at least 7 units below 1.
proof fn strict_zero(b: int)
    requires
        0 < b < DECAY_STEP,
    ensures
        decay_past(b) + 7 <= FINE_ONE,
{
    lemma_step_gap(0);
    assert(knot(0) == FINE_ONE) by {
        assert(half_knot(0) * 1_000_000 / 1_000_000 == half_knot(0)) by (nonlinear_arith);
    }
    let g = knot(0) - knot_end(0);
    assert(g * b / (DECAY_STEP as int) >= 7) by (nonlinear_arith)
        requires
            b >= 1,
            g >= 8 * DECAY_STEP,
    ;
}

/// Inside a step, the decay stays at least 7 units above the step's end.
proof fn strict_step_end(a: int)
    requires
        a > 0,
        a / (DECAY_STEP as int) < DECAY_STRICT_STEPS,
    ensures
        knot_end((a / DECAY_STEP as int) as nat) + 7 <= decay_past(a),
{
    let seg = (a / DECAY_STEP as int) as nat;
    lemma_step_gap(seg);
    let g = knot(seg) - knot_end(seg);
    let r = a % (DECAY_STEP as int);
    assert(g * r / (DECAY_STEP as int) + 7 <= g) by (nonlinear_arith)
        requires
            0 <= r < DECAY_STEP,
            g >= 8 * DECAY_STEP,
    ;
}

fn eighth_exec(i: u64) -> (r: u64)
    requires
        i <= 8,
    ensures
        r == eighth(i as int),
{
    if i == 0 {
        1_000_000
    } else if i == 1 {
        917_004
    } else if i == 2 {
        840_896
    } else if i == 3 {
        771_105
    } else if i == 4 {
        707_107
    } else if i == 5 {
        648_420
    } else if i == 6 {
        594_604
    } else if i == 7 {
        545_254
    } else {
        500_000
    }
}

fn decay_past_exec(age: i128) -> (r: u64)
    ensures
        r == decay_past(age as int),
{
    if age <= 0 {
        return FINE_ONE;
    }
    let seg = age / (DECAY_STEP as i128);
    let rem = age % (DECAY_STEP as i128);
    if seg >= DECAY_STEPS as i128 {
        return 0;
    }
    let seg = seg as u64;
    let k = seg / 8;
    let i = seg % 8;
    let mut p: u64 = FINE_ONE;
    let mut j: u64 = 0;
    while j < k
        invariant
            j <= k,
            k < 59,
            p == half_knot(j as nat),
        decreases k - j,
    {
        p = p / 2;
        j = j + 1;
    }
    proof {
        lemma_step_order(seg as nat);
        lemma_half_knot_mono(0, k as nat);
    }
    let a: u128 = (p as u128) * (eighth_exec(i) as u128) / 1_000_000;
    let b: u128 = (p as u128) * (eighth_exec(i + 1) as u128) / 1_000_000;
    let g = a - b;
    proof {
        assert(g * (rem as int) / (DECAY_STEP as int) <= g) by (nonlinear_arith)
            requires
                0 <= rem < DECAY_STEP,
                g >= 0,
        ;
        assert(g * (rem as int) <= (FINE_ONE as int) * (DECAY_STEP as int)) by (nonlinear_arith)
            requires
                0 <= rem < DECAY_STEP,
                0 <= g <= FINE_ONE,
        ;
    }
    let v = a - g * (rem as u128) / (DECAY_STEP as u128);
    v as u64
}

/// Largest recency weight, reached for uses far in the future: 10^6 in units of 10^-18.
pub const DECAY_CAP: u128 = 1_000_000_000_000_000_000_000_000;

/// Recency weight of something `age` seconds old, in units of 10^-18: `decay_past` for ages
/// from zero on; for a use in the future its reciprocal, e^(|age| / 30 days), at most
/// `DECAY_CAP`.
pub open spec fn decay_fixed(age: int) -> int {
    if age >= 0 {
        decay_past(age)
    } else {
        let d = decay_past(-age);
        if d <= 0 {
            DECAY_CAP as int
        } else {
            let g = FINE_ONE as int * FINE_ONE as int / d;
            if g < DECAY_CAP {
                g
            } else {
                DECAY_CAP as int
            }
        }
    }
}

/// Recency never grows with age; it is never negative, at most 1 from age zero on and at
/// least 1 before.
pub proof fn lemma_decay_mono(a: int, b: int)
    requires
        a <= b,
    ensures
        decay_fixed(b) <= decay_fixed(a),
        0 <= decay_fixed(b) <= DECAY_CAP,
        b >= 0 ==> decay_fixed(b) <= FINE_ONE,
        a < 0 ==> decay_fixed(a) >= FINE_ONE,
{
    lemma_past_mono(b, b);
    lemma_past_mono(a, a);
    if a >= 0 {
        lemma_past_mono(a, b);
    } else {
        lemma_past_mono(-a, -a);
        let da = decay_past(-a);
        let f2 = FINE_ONE as int * FINE_ONE as int;
        if da > 0 {
            assert(f2 / da >= FINE_ONE) by (nonlinear_arith)
                requires
                    0 < da <= FINE_ONE,
                    f2 == FINE_ONE as int * FINE_ONE as int,
            ;
        }
        if b < 0 {
            lemma_past_mono(-b, -a);
            lemma_past_mono(0, -b);
            let db = decay_past(-b);
            if da > 0 {
                assert(f2 / db <= f2 / da) by (nonlinear_arith)
                    requires
                        0 < da <= db,
                        f2 >= 0,
                ;
            }
            if db > 0 {
                assert(f2 / db >= FINE_ONE) by (nonlinear_arith)
                    requires
                        0 < db <= FINE_ONE,
                        f2 == FINE_ONE as int * FINE_ONE as int,
                ;
            }
        }
    }
}

/// Recency stays positive for as long as the unit of 10^-18 can hold it: at least 1 unit for
/// every age below `DECAY_STEPS` steps, about 1227 days.
pub proof fn lemma_decay_positive(age: int)
    requires
        age < DECAY_STEP * DECAY_STEPS,
    ensures
        decay_fixed(age) >= 1,
{
    if age > 0 {
        lemma_within_step(age);
        lemma_step_order((age / DECAY_STEP as int) as nat);
    } else {
        lemma_decay_mono(age, 0);
    }
}

/// Recency falls strictly with age: by at least 7 units of 10^-18 between any two distinct
/// ages from 0 up to `DECAY_STRICT_STEPS` steps, about 728 days.
pub proof fn lemma_decay_strict(a: int, b: int)
    requires
        0 <= a < b,
        b < DECAY_STEP * DECAY_STRICT_STEPS,
    ensures
        decay_fixed(b) + 7 <= decay_fixed(a),
{
    lemma_past_strict(a, b);
}

/// Recency weight in units of 10^-18 (see `decay_fixed`).
pub fn decay_fine(age: i128) -> (r: u128)
    requires
        -0x8000_0000_0000_0000_0000 < age,
    ensures
        r == decay_fixed(age as int),
{
    if age >= 0 {
        return decay_past_exec(age) as u128;
    }
    let d = decay_past_exec(-age);
    proof {
        lemma_past_mono(0, -age as int);
    }
    if d == 0 {
        return DECAY_CAP;
    }
    let g = (FINE_ONE as u128) * (FINE_ONE as u128) / (d as u128);
    if g < DECAY_CAP {
        g
    } else {
        DECAY_CAP
    }
}

} // verus!
