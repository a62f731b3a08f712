//! The prediction ranker: n-gram bonuses, the composite score and the final ordering.
use crate::fixed::{decay_fine, decay_fixed, ln_fixed, ln_micro, DECAY_STEP, DECAY_STRICT_STEPS, FINE_ONE, ONE};
use crate::ingest::{ancestors, get_directory_hierarchy};
use crate::order::{order_by_keys, order_by_keys_desc, order_by_score, order_by_score_desc};
use crate::parser::{ends_in_space, parse_command, program_of, views};
use crate::protocol::PredictParams;
use crate::text::same_text;
use vstd::prelude::*;

verus! {

/// Weights of the ranking signals, in millionths.
#[derive(Debug, Clone, Copy, PartialEq, Eq)]
pub struct RankingWeights {
    /// Weight of the log-scaled use count.
    pub frequency: u64,
    /// Weight of the recency decay.
    pub recency: u64,
    /// Score added when the command ran in the current directory.
    pub dir_exact: u64,
    /// Weight of the ancestor-directory affinity.
    pub dir_hierarchy: u64,
    /// How much of the score a command that always fails loses.
    pub failure_penalty: u64,
    /// Cap on the boost from a frecent current directory.
    pub frecent_boost_max: u64,
    /// Weight of the bigram / trigram bonus.
    pub ngram: u64,
}

pub open spec fn default_weights() -> RankingWeights {
    RankingWeights {
        frequency: 350_000,
        recency: 300_000,
        dir_exact: 350_000,
        dir_hierarchy: 150_000,
        failure_penalty: 500_000,
        frecent_boost_max: 100_000,
        ngram: 400_000,
    }
}

impl Default for RankingWeights {
    fn default() -> (r: Self)
        ensures
            r == default_weights(),
    {
        RankingWeights {
            frequency: 350_000,
            recency: 300_000,
            dir_exact: 350_000,
            dir_hierarchy: 150_000,
            failure_penalty: 500_000,
            frecent_boost_max: 100_000,
            ngram: 400_000,
        }
    }
}

/// A command that follows the previous one(s), with how often it did.
#[derive(Debug, Clone)]
pub struct NgramStats {
    pub command: String,
    pub frequency: i64,
    pub last_used: i64,
}

/// A stored command that matches the prefix, with its history aggregated.
#[derive(Debug, Clone)]
pub struct Candidate {
    pub cmd: String,
    /// Number of executions.
    pub freq: u64,
    /// Latest start time.
    pub last_used: i64,
    /// Executions in the current directory.
    pub exact_dir_freq: u64,
    /// Ancestor-directory affinity, in millionths.
    pub hierarchy: u64,
    /// Executions with a non-zero exit status.
    pub failures: u64,
}

/// A suggested command with its score in units of 10^-18.
#[derive(Debug, Clone)]
pub struct Suggestion {
    pub cmd: String,
    pub score: u64,
}

pub open spec fn min(a: int, b: int) -> int {
    if a < b {
        a
    } else {
        b
    }
}

pub open spec fn freq_nat(f: i64) -> nat {
    if f < 0 {
        0
    } else {
        f as nat
    }
}

/// Bonus of a trigram successor: ln(freq)/10 raised by half, capped at 1.
pub open spec fn trigram_bonus(f: i64) -> int {
    min(ln_fixed(freq_nat(f)) * 3 / 20, (ONE as int))
}

/// Bonus of a bigram successor: ln(freq)/10, capped at 1.
pub open spec fn bigram_bonus(f: i64) -> int {
    min(ln_fixed(freq_nat(f)) / 10, (ONE as int))
}

/// The frequency of the last hit naming `cmd` among the first `n`.
pub open spec fn last_hit(hits: Seq<NgramStats>, cmd: Seq<char>, n: nat) -> Option<i64>
    decreases n,
{
    if n == 0 {
        None
    } else if hits[n - 1].command@ == cmd {
        Some(hits[n - 1].frequency)
    } else {
        last_hit(hits, cmd, (n - 1) as nat)
    }
}

/// The frequency of the first hit naming `cmd` from position `i` on.
pub open spec fn first_hit(hits: Seq<NgramStats>, cmd: Seq<char>, i: int) -> Option<i64>
    decreases hits.len() - i,
{
    if i < 0 || i >= hits.len() {
        None
    } else if hits[i].command@ == cmd {
        Some(hits[i].frequency)
    } else {
        first_hit(hits, cmd, i + 1)
    }
}

/// The bonus a hit gives, 0 without a hit.
pub open spec fn hit_bonus(h: Option<i64>, tri: bool) -> int {
    match h {
        Some(f) => if tri {
            trigram_bonus(f)
        } else {
            bigram_bonus(f)
        },
        None => 0,
    }
}

/// The sequence bonus of `cmd`: the higher of its trigram and bigram bonuses.
pub open spec fn ngram_bonus_of(
    cmd: Seq<char>,
    trigrams: Seq<NgramStats>,
    bigrams: Seq<NgramStats>,
) -> int {
    let t = hit_bonus(last_hit(trigrams, cmd, trigrams.len()), true);
    let b = hit_bonus(first_hit(bigrams, cmd, 0), false);
    if t >= b {
        t
    } else {
        b
    }
}

fn bonus_from_freq(f: i64, tri: bool) -> (r: u64)
    ensures
        r == (if tri {
            trigram_bonus(f)
        } else {
            bigram_bonus(f)
        }),
{
    let n: u64 = if f < 0 {
        0
    } else {
        f as u64
    };
    let l = ln_micro(n) as u128;
    let b: u128 = if tri {
        l * 3 / 20
    } else {
        l / 10
    };
    if b < ONE as u128 {
        b as u64
    } else {
        ONE
    }
}

/// The n-gram bonus of `cmd`, in millionths.
pub fn ngram_bonus(cmd: &str, trigrams: &Vec<NgramStats>, bigrams: &Vec<NgramStats>) -> (r: u64)
    ensures
        r == ngram_bonus_of(cmd@, trigrams@, bigrams@),
{
    let mut t: u64 = 0;
    let mut i = trigrams.len();
    let mut found = false;
    while i > 0 && !found
        invariant
            i <= trigrams@.len(),
            found ==> t == hit_bonus(last_hit(trigrams@, cmd@, trigrams@.len()), true),
            !found ==> t == 0 && last_hit(trigrams@, cmd@, trigrams@.len()) == last_hit(
                trigrams@,
                cmd@,
                i as nat,
            ),
        decreases i + (if found {
            0int
        } else {
            1int
        }),
    {
        if same_text(trigrams[i - 1].command.as_str(), cmd) {
            t = bonus_from_freq(trigrams[i - 1].frequency, true);
            found = true;
        } else {
            i = i - 1;
        }
    }
    assert(t == hit_bonus(last_hit(trigrams@, cmd@, trigrams@.len()), true));
    let mut b: u64 = 0;
    let mut j: usize = 0;
    let mut hit = false;
    while j < bigrams.len() && !hit
        invariant
            j <= bigrams@.len(),
            hit ==> b == hit_bonus(first_hit(bigrams@, cmd@, 0), false),
            !hit ==> b == 0 && first_hit(bigrams@, cmd@, 0) == first_hit(bigrams@, cmd@, j as int),
        decreases bigrams@.len() - j + (if hit {
            0int
        } else {
            1int
        }),
    {
        if same_text(bigrams[j].command.as_str(), cmd) {
            b = bonus_from_freq(bigrams[j].frequency, false);
            hit = true;
        } else {
            j = j + 1;
        }
    }
    assert(b == hit_bonus(first_hit(bigrams@, cmd@, 0), false));
    if t >= b {
        t
    } else {
        b
    }
}

/// Directory signal, in units of 10^-18: the full exact-match score, else the hierarchy
/// weight scaled by the ancestor affinity (at most 1), else nothing.
pub open spec fn dir_score(c: Candidate, w: RankingWeights) -> int {
    if c.exact_dir_freq > 0 {
        w.dir_exact * 1_000_000_000_000
    } else if c.hierarchy > 0 {
        w.dir_hierarchy * min(c.hierarchy as int, ONE as int) * 1_000_000
    } else {
        0
    }
}

/// Share of failed executions, in millionths.
pub open spec fn failure_rate(c: Candidate) -> int {
    if c.freq == 0 {
        0
    } else {
        min(c.failures as int, c.freq as int) * ONE as int / c.freq as int
    }
}

/// What is left of a score after the failure penalty, in millionths.
pub open spec fn failure_factor(c: Candidate, w: RankingWeights) -> int {
    ONE - min(ONE as int, failure_rate(c) * w.failure_penalty / ONE as int)
}

/// The sum of the signals before capping, in units of 10^-18; `boost` and `bonus` are in
/// millionths.
pub open spec fn signal_sum(c: Candidate, w: RankingWeights, now: i64, boost: u64, bonus: u64) -> int {
    ln_fixed(c.freq as nat) / 10 * w.frequency * 1_000_000 + decay_fixed(now - c.last_used)
        * w.recency / ONE as int + dir_score(c, w) + boost * 1_000_000_000_000 + bonus * w.ngram
        * 1_000_000
}

/// The composite score, in units of 10^-18: the signal sum capped at 1, times the failure
/// factor.
pub open spec fn composite_score(
    c: Candidate,
    w: RankingWeights,
    now: i64,
    boost: u64,
    bonus: u64,
) -> int {
    min(signal_sum(c, w, now, boost, bonus), FINE_ONE as int) * failure_factor(c, w) / ONE as int
}

/// A term capped at 1 (in units of 10^-18).
fn cap_term(x: u128) -> (r: u128)
    ensures
        r == min(x as int, FINE_ONE as int),
{
    if x < FINE_ONE as u128 {
        x
    } else {
        FINE_ONE as u128
    }
}

/// `x * w * 10^6`, capped at 1 (in units of 10^-18).
fn scaled_product(x: u64, w: u64) -> (r: u128)
    ensures
        r == min(x * w * 1_000_000, FINE_ONE as int),
{
    proof {
        assert((x as int) * (w as int) <= (u64::MAX as int) * (u64::MAX as int)) by (nonlinear_arith)
            requires
                x <= u64::MAX,
                w <= u64::MAX,
        ;
    }
    let p: u128 = (x as u128) * (w as u128);
    if p >= FINE_ONE as u128 {
        proof {
            assert((p as int) * 1_000_000 >= FINE_ONE as int) by (nonlinear_arith)
                requires
                    p >= FINE_ONE,
            ;
        }
        FINE_ONE as u128
    } else {
        cap_term(p * 1_000_000)
    }
}

proof fn lemma_capped_sum(t: Seq<int>)
    requires
        t.len() == 5,
        forall|i: int| 0 <= i < 5 ==> #[trigger] t[i] >= 0,
    ensures
        min(t[0] + t[1] + t[2] + t[3] + t[4], FINE_ONE as int) == min(
            min(t[0], FINE_ONE as int) + min(t[1], FINE_ONE as int) + min(t[2], FINE_ONE as int)
                + min(t[3], FINE_ONE as int) + min(t[4], FINE_ONE as int),
            FINE_ONE as int,
        ),
{
    assert(t[0] >= 0 && t[1] >= 0 && t[2] >= 0 && t[3] >= 0 && t[4] >= 0);
}

/// Scores one candidate, in units of 10^-18.
pub fn score_candidate(c: &Candidate, w: &RankingWeights, now: i64, boost: u64, bonus: u64) -> (r:
    u64)
    ensures
        r == composite_score(*c, *w, now, boost, bonus),
{
    let l = ln_micro(c.freq);
    proof {
        crate::fixed::lemma_ln_fixed_nonneg(c.freq as nat);
    }
    let t1 = scaled_product(l / 10, w.frequency);
    let age: i128 = (now as i128) - (c.last_used as i128);
    let rec = decay_fine(age);
    proof {
        crate::fixed::lemma_decay_mono(age as int, age as int);
    }
    let t2: u128 = if w.recency == 0 {
        0
    } else if rec > (FINE_ONE as u128) * (ONE as u128) / (w.recency as u128) {
        proof {
            let (x, wr) = (rec as int, w.recency as int);
            let lim = (FINE_ONE as int) * (ONE as int);
            assert(x * wr / (ONE as int) >= FINE_ONE as int) by (nonlinear_arith)
                requires
                    x > lim / wr,
                    wr > 0,
                    lim == (FINE_ONE as int) * (ONE as int),
            ;
        }
        FINE_ONE as u128
    } else {
        proof {
            let (x, wr) = (rec as int, w.recency as int);
            let lim = (FINE_ONE as int) * (ONE as int);
            assert(x * wr <= lim) by (nonlinear_arith)
                requires
                    x <= lim / wr,
                    wr > 0,
            ;
        }
        cap_term(rec * (w.recency as u128) / (ONE as u128))
    };
    let t3: u128 = if c.exact_dir_freq > 0 {
        cap_term((w.dir_exact as u128) * 1_000_000_000_000)
    } else if c.hierarchy > 0 {
        let h: u64 = if c.hierarchy < ONE {
            c.hierarchy
        } else {
            ONE
        };
        proof {
            assert((w.dir_hierarchy as int) * (h as int) <= (u64::MAX as int) * (ONE as int)) by (
            nonlinear_arith)
                requires
                    h <= ONE,
                    w.dir_hierarchy <= u64::MAX,
            ;
        }
        cap_term((w.dir_hierarchy as u128) * (h as u128) * 1_000_000)
    } else {
        0
    };
    let t4 = cap_term((boost as u128) * 1_000_000_000_000);
    let t5 = scaled_product(bonus, w.ngram);
    proof {
        lemma_sum_parts(*c, *w, now, boost, bonus);
        let ts = seq![
            ln_fixed(c.freq as nat) / 10 * w.frequency * 1_000_000,
            decay_fixed(now - c.last_used) * w.recency / ONE as int,
            dir_score(*c, *w),
            boost * 1_000_000_000_000,
            bonus * w.ngram * 1_000_000,
        ];
        lemma_capped_sum(ts);
    }
    let capped = cap_term(t1 + t2 + t3 + t4 + t5);
    let rate: u128 = if c.freq == 0 {
        0
    } else {
        let failed: u128 = if c.failures < c.freq {
            c.failures as u128
        } else {
            c.freq as u128
        };
        proof {
            assert(failed * (ONE as int) / (c.freq as int) <= ONE as int) by (nonlinear_arith)
                requires
                    failed <= c.freq,
                    c.freq > 0,
            ;
        }
        failed * (ONE as u128) / (c.freq as u128)
    };
    proof {
        assert((rate as int) * (w.failure_penalty as int) <= 0x10_0000 * 0x1_0000_0000_0000_0000)
            by (nonlinear_arith)
            requires
                rate <= ONE,
                w.failure_penalty <= u64::MAX,
        ;
    }
    let pen: u128 = rate * (w.failure_penalty as u128) / (ONE as u128);
    let factor: u128 = if pen < ONE as u128 {
        (ONE as u128) - pen
    } else {
        0
    };
    proof {
        assert(capped * factor <= (FINE_ONE as int) * (ONE as int)) by (nonlinear_arith)
            requires
                capped <= FINE_ONE,
                factor <= ONE,
        ;
        assert(capped * factor / (ONE as int) <= FINE_ONE as int) by (nonlinear_arith)
            requires
                capped * factor <= (FINE_ONE as int) * (ONE as int),
        ;
    }
    (capped * factor / (ONE as u128)) as u64
}

/// The score of every candidate, with its n-gram bonus.
pub open spec fn candidate_scores(
    cands: Seq<Candidate>,
    trigrams: Seq<NgramStats>,
    bigrams: Seq<NgramStats>,
    boost: u64,
    w: RankingWeights,
    now: i64,
) -> Seq<u64> {
    Seq::new(
        cands.len(),
        |i: int|
            composite_score(
                cands[i],
                w,
                now,
                boost,
                ngram_bonus_of(cands[i].cmd@, trigrams, bigrams) as u64,
            ) as u64,
    )
}

proof fn lemma_bonus_bound(cmd: Seq<char>, trigrams: Seq<NgramStats>, bigrams: Seq<NgramStats>)
    ensures
        0 <= ngram_bonus_of(cmd, trigrams, bigrams) <= ONE,
{
    match last_hit(trigrams, cmd, trigrams.len()) {
        Some(f) => {
            crate::fixed::lemma_ln_fixed_nonneg(freq_nat(f));
        },
        None => {},
    }
    match first_hit(bigrams, cmd, 0) {
        Some(f) => {
            crate::fixed::lemma_ln_fixed_nonneg(freq_nat(f));
        },
        None => {},
    }
}

/// Scores the candidates, orders them by score (ties keep their order) and keeps the
/// first `limit`.
pub fn rank_candidates(
    cands: &Vec<Candidate>,
    trigrams: &Vec<NgramStats>,
    bigrams: &Vec<NgramStats>,
    boost: u64,
    w: &RankingWeights,
    now: i64,
    limit: usize,
) -> (r: Vec<Suggestion>)
    ensures
        r@.len() == min(limit as int, cands@.len() as int),
        forall|k: int|
            #![trigger r@[k]]
            0 <= k < r@.len() ==> {
                let scores = candidate_scores(cands@, trigrams@, bigrams@, boost, *w, now);
                let i = order_by_score(scores)[k] as int;
                &&& r@[k].cmd@ == cands@[i].cmd@
                &&& r@[k].score == scores[i]
            },
{
    let ghost spec_scores = candidate_scores(cands@, trigrams@, bigrams@, boost, *w, now);
    let mut scores: Vec<u64> = Vec::new();
    let mut i: usize = 0;
    while i < cands.len()
        invariant
            i <= cands@.len(),
            spec_scores == candidate_scores(cands@, trigrams@, bigrams@, boost, *w, now),
            scores@ == spec_scores.subrange(0, i as int),
        decreases cands@.len() - i,
    {
        let bonus = ngram_bonus(cands[i].cmd.as_str(), trigrams, bigrams);
        proof {
            lemma_bonus_bound(cands@[i as int].cmd@, trigrams@, bigrams@);
        }
        let sc = score_candidate(&cands[i], w, now, boost, bonus);
        scores.push(sc);
        assert(scores@ =~= spec_scores.subrange(0, i + 1));
        i = i + 1;
    }
    assert(scores@ =~= spec_scores);
    let order = order_by_score_desc(&scores);
    let n = if limit < cands.len() {
        limit
    } else {
        cands.len()
    };
    let mut out: Vec<Suggestion> = Vec::new();
    let mut k: usize = 0;
    while k < n
        invariant
            k <= n,
            n == min(limit as int, cands@.len() as int),
            scores@ == spec_scores,
            spec_scores == candidate_scores(cands@, trigrams@, bigrams@, boost, *w, now),
            order@ == order_by_score(scores@),
            order@.len() == cands@.len(),
            forall|j: int| 0 <= j < order@.len() ==> #[trigger] order@[j] < cands@.len(),
            out@.len() == k,
            forall|j: int|
                #![trigger out@[j]]
                0 <= j < k ==> {
                    let i = order@[j] as int;
                    &&& out@[j].cmd@ == cands@[i].cmd@
                    &&& out@[j].score == spec_scores[i]
                },
        decreases n - k,
    {
        let idx = order[k];
        out.push(Suggestion { cmd: cands[idx].cmd.clone(), score: scores[idx] });
        k = k + 1;
    }
    assert forall|j: int| #![trigger out@[j]] 0 <= j < out@.len() implies {
        let sc = candidate_scores(cands@, trigrams@, bigrams@, boost, *w, now);
        let i = order_by_score(sc)[j] as int;
        &&& out@[j].cmd@ == cands@[i].cmd@
        &&& out@[j].score == sc[i]
    } by {
        let i = order@[j] as int;
        assert(out@[j].cmd@ == cands@[i].cmd@);
    }
    out
}

proof fn lemma_floor_mono(a: int, b: int, w: int, d: int)
    requires
        0 <= b <= a,
        w >= 0,
        d > 0,
    ensures
        0 <= b * w / d <= a * w / d,
{
    assert(0 <= b * w <= a * w) by (nonlinear_arith)
        requires
            0 <= b <= a,
            w >= 0,
    ;
    assert(0 <= b * w / d <= a * w / d) by (nonlinear_arith)
        requires
            0 <= b * w <= a * w,
            d > 0,
    ;
}

proof fn lemma_factor_range(c: Candidate, w: RankingWeights)
    ensures
        0 <= failure_factor(c, w) <= ONE,
        w == default_weights() ==> failure_factor(c, w) >= 500_000,
{
    if c.freq > 0 {
        let f = min(c.failures as int, c.freq as int);
        assert(0 <= f * (ONE as int) / c.freq as int <= ONE) by (nonlinear_arith)
            requires
                0 <= f <= c.freq,
                c.freq > 0,
        ;
    }
    let rate = failure_rate(c);
    assert(rate * w.failure_penalty / (ONE as int) >= 0) by (nonlinear_arith)
        requires
            rate >= 0,
            w.failure_penalty >= 0,
    ;
    if w == default_weights() {
        assert(rate * 500_000 / (ONE as int) <= 500_000) by (nonlinear_arith)
            requires
                0 <= rate <= ONE,
        ;
    }
}

proof fn lemma_sum_parts(c: Candidate, w: RankingWeights, now: i64, boost: u64, bonus: u64)
    ensures
        ln_fixed(c.freq as nat) / 10 * w.frequency * 1_000_000 >= 0,
        decay_fixed(now - c.last_used) * w.recency / (ONE as int) >= 0,
        dir_score(c, w) >= 0,
        bonus * w.ngram * 1_000_000 >= 0,
        signal_sum(c, w, now, boost, bonus) >= 0,
{
    crate::fixed::lemma_ln_fixed_nonneg(c.freq as nat);
    crate::fixed::lemma_decay_mono(now - c.last_used, now - c.last_used);
    let l = ln_fixed(c.freq as nat) / 10;
    assert(l * w.frequency * 1_000_000 >= 0) by (nonlinear_arith)
        requires
            l >= 0,
    ;
    lemma_floor_mono(decay_fixed(now - c.last_used), 0, w.recency as int, (ONE as int));
    assert(bonus * w.ngram * 1_000_000 >= 0) by (nonlinear_arith);
    let h = min(c.hierarchy as int, ONE as int);
    assert(w.dir_hierarchy * h * 1_000_000 >= 0) by (nonlinear_arith)
        requires
            h >= 0,
    ;
}

/// A larger signal sum never gives a lower composite score.
proof fn lemma_composite_mono(
    c1: Candidate,
    c2: Candidate,
    w: RankingWeights,
    now: i64,
    boost: u64,
    b1: u64,
    b2: u64,
)
    requires
        signal_sum(c1, w, now, boost, b1) >= signal_sum(c2, w, now, boost, b2),
        failure_factor(c1, w) == failure_factor(c2, w),
    ensures
        composite_score(c1, w, now, boost, b1) >= composite_score(c2, w, now, boost, b2),
{
    lemma_sum_parts(c2, w, now, boost, b2);
    lemma_factor_range(c1, w);
    let m1 = min(signal_sum(c1, w, now, boost, b1), FINE_ONE as int);
    let m2 = min(signal_sum(c2, w, now, boost, b2), FINE_ONE as int);
    lemma_floor_mono(m1, m2, failure_factor(c1, w), ONE as int);
}

/// Under the default weights, a composite score gains when the signal sum, still under the
/// cap, grows by at least 2 units of 10^-18.
proof fn lemma_composite_strict(
    c1: Candidate,
    c2: Candidate,
    w: RankingWeights,
    now: i64,
    boost: u64,
    b1: u64,
    b2: u64,
)
    requires
        w == default_weights(),
        signal_sum(c2, w, now, boost, b2) + 2 <= signal_sum(c1, w, now, boost, b1),
        signal_sum(c1, w, now, boost, b1) < FINE_ONE,
        failure_factor(c1, w) == failure_factor(c2, w),
    ensures
        composite_score(c1, w, now, boost, b1) > composite_score(c2, w, now, boost, b2),
{
    lemma_sum_parts(c2, w, now, boost, b2);
    lemma_factor_range(c1, w);
    let s1 = signal_sum(c1, w, now, boost, b1);
    let s2 = signal_sum(c2, w, now, boost, b2);
    let f = failure_factor(c1, w);
    assert(s2 * f / (ONE as int) < s1 * f / (ONE as int)) by (nonlinear_arith)
        requires
            0 <= s2,
            s2 + 2 <= s1,
            f >= 500_000,
    ;
}

/// Two candidates that differ only in when they last ran: the more recent one scores at
/// least as high.
pub proof fn lemma_recency_law(c1: Candidate, c2: Candidate, w: RankingWeights, now: i64, boost: u64, bonus: u64)
    requires
        c2 == (Candidate { last_used: c2.last_used, ..c1 }),
        c1.last_used >= c2.last_used,
    ensures
        composite_score(c1, w, now, boost, bonus) >= composite_score(c2, w, now, boost, bonus),
{
    crate::fixed::lemma_decay_mono(now - c1.last_used, now - c2.last_used);
    crate::fixed::lemma_decay_mono(now - c2.last_used, now - c2.last_used);
    lemma_floor_mono(
        decay_fixed(now - c1.last_used),
        decay_fixed(now - c2.last_used),
        w.recency as int,
        ONE as int,
    );
    lemma_composite_mono(c1, c2, w, now, boost, bonus, bonus);
}

/// Under the default weights, of two candidates that differ only in when they last ran,
/// both less than `DECAY_STRICT_STEPS` decay steps (about 728 days) ago and not in the future, the more recent one scores
/// strictly higher while its signal sum is under the cap.
pub proof fn lemma_recency_law_strict(
    c1: Candidate,
    c2: Candidate,
    w: RankingWeights,
    now: i64,
    boost: u64,
    bonus: u64,
)
    requires
        w == default_weights(),
        c2 == (Candidate { last_used: c2.last_used, ..c1 }),
        c2.last_used < c1.last_used <= now,
        now - c2.last_used < DECAY_STEP * DECAY_STRICT_STEPS,
        signal_sum(c1, w, now, boost, bonus) < FINE_ONE,
    ensures
        composite_score(c1, w, now, boost, bonus) > composite_score(c2, w, now, boost, bonus),
{
    crate::fixed::lemma_decay_strict(now - c1.last_used, now - c2.last_used);
    crate::fixed::lemma_decay_mono(now - c2.last_used, now - c2.last_used);
    let a = decay_fixed(now - c1.last_used);
    let b = decay_fixed(now - c2.last_used);
    assert(b * 300_000 / 1_000_000 + 2 <= a * 300_000 / 1_000_000) by (nonlinear_arith)
        requires
            a >= b + 7,
            b >= 0,
    ;
    lemma_composite_strict(c1, c2, w, now, boost, bonus, bonus);
}

/// Under the default weights, three candidates that differ only in directory match, with
/// signal sums under the cap: one run in the current directory outranks one run only in an
/// ancestor, which outranks one with no directory match.
pub proof fn lemma_directory_law(
    exact: Candidate,
    ancestor: Candidate,
    none: Candidate,
    w: RankingWeights,
    now: i64,
    boost: u64,
    bonus: u64,
)
    requires
        w == default_weights(),
        exact.exact_dir_freq > 0,
        ancestor == (Candidate { exact_dir_freq: 0, hierarchy: ancestor.hierarchy, ..exact }),
        ancestor.hierarchy > 0,
        none == (Candidate { exact_dir_freq: 0, hierarchy: 0, ..exact }),
        signal_sum(exact, w, now, boost, bonus) < FINE_ONE,
    ensures
        composite_score(exact, w, now, boost, bonus) > composite_score(
            ancestor,
            w,
            now,
            boost,
            bonus,
        ),
        composite_score(ancestor, w, now, boost, bonus) > composite_score(
            none,
            w,
            now,
            boost,
            bonus,
        ),
{
    let h = min(ancestor.hierarchy as int, ONE as int);
    assert(150_000_000_000 <= 150_000 * h * 1_000_000 <= 150_000_000_000_000_000) by (
    nonlinear_arith)
        requires
            1 <= h <= ONE,
    ;
    lemma_composite_strict(exact, ancestor, w, now, boost, bonus, bonus);
    lemma_composite_strict(ancestor, none, w, now, boost, bonus, bonus);
}

/// Under the default weights, a successor backed by a trigram of frequency `f` (at least 2)
/// outranks one backed only by a bigram of the same frequency, while that bigram bonus is
/// under its cap and the first successor's signal sum is under the cap.
pub proof fn lemma_trigram_law(
    c1: Candidate,
    c2: Candidate,
    w: RankingWeights,
    now: i64,
    boost: u64,
    f: i64,
    b1: u64,
)
    requires
        w == default_weights(),
        c2 == (Candidate { cmd: c2.cmd, ..c1 }),
        f >= 2,
        bigram_bonus(f) < ONE,
        b1 >= trigram_bonus(f),
        signal_sum(c1, w, now, boost, b1) < FINE_ONE,
    ensures
        composite_score(c1, w, now, boost, b1) > composite_score(
            c2,
            w,
            now,
            boost,
            bigram_bonus(f) as u64,
        ),
{
    crate::fixed::lemma_ln_fixed_positive(f as nat);
    let l = ln_fixed(f as nat);
    let t = trigram_bonus(f);
    let b = bigram_bonus(f);
    assert(b == l / 10);
    assert(t >= b + 1) by (nonlinear_arith)
        requires
            l >= 693_147,
            t == min(l * 3 / 20, ONE as int),
            b == l / 10,
            b < ONE,
    ;
    assert((b1 as int) * 400_000 * 1_000_000 >= (b + 1) * 400_000 * 1_000_000) by (nonlinear_arith)
        requires
            b1 >= b + 1,
    ;
    lemma_composite_strict(c1, c2, w, now, boost, b1, b as u64);
}

/// The prefix asks for an argument: it ends in white space after a program.
pub open spec fn wants_argument(prefix: Seq<char>) -> bool {
    ends_in_space(prefix) && program_of(prefix).len() > 0
}

/// Whether a prediction for `prefix` first tries argument suggestions.
pub fn expects_argument(prefix: &str) -> (r: bool)
    ensures
        r == wants_argument(prefix@),
{
    let parsed = parse_command(prefix);
    parsed.is_partial() && parsed.program.as_str().unicode_len() > 0
}

/// An argument value seen after a program and subcommand, with its use counts.
#[derive(Debug, Clone)]
pub struct ArgCount {
    pub arg_value: String,
    /// Uses in all places.
    pub total_freq: i64,
    /// Uses in the current place.
    pub dir_freq: i64,
}

/// Score of an argument suggestion, in units of 10^-18: ln(total)/10, plus 0.3 when it was
/// used here, capped at 1.
pub open spec fn arg_score(a: ArgCount) -> int {
    min(ln_fixed(freq_nat(a.total_freq)) / 10 + (if a.dir_freq > 0 {
        300_000int
    } else {
        0
    }), ONE as int) * 1_000_000_000_000
}

/// Suggests `prefix` followed by each argument value, in the given order.
pub fn arg_suggestions(prefix: &str, rows: &Vec<ArgCount>) -> (r: Vec<Suggestion>)
    ensures
        r@.len() == rows@.len(),
        forall|k: int|
            #![trigger r@[k]]
            0 <= k < r@.len() ==> r@[k].cmd@ == prefix@ + rows@[k].arg_value@ && r@[k].score
                == arg_score(rows@[k]),
{
    let mut out: Vec<Suggestion> = Vec::new();
    let mut i: usize = 0;
    while i < rows.len()
        invariant
            i <= rows@.len(),
            out@.len() == i,
            forall|k: int|
                #![trigger out@[k]]
                0 <= k < i ==> out@[k].cmd@ == prefix@ + rows@[k].arg_value@ && out@[k].score
                    == arg_score(rows@[k]),
        decreases rows@.len() - i,
    {
        let row = &rows[i];
        let n: u64 = if row.total_freq < 0 {
            0
        } else {
            row.total_freq as u64
        };
        let base = ln_micro(n) / 10;
        let bonus: u64 = if row.dir_freq > 0 {
            300_000
        } else {
            0
        };
        let sum = base as u128 + bonus as u128;
        let capped: u64 = if sum < ONE as u128 {
            sum as u64
        } else {
            ONE
        };
        let score = capped * 1_000_000_000_000;
        let cmd = crate::text::to_owned_string(prefix).concat(row.arg_value.as_str());
        out.push(Suggestion { cmd, score });
        i = i + 1;
    }
    out
}

/// Boost for predicting in a frecent directory, in millionths: ln(rank + 1)/100, at most the
/// cap; nothing when the boost is off or the directory is not frecent. `cwd_rank` is in
/// millionths, so ln(rank + 1) is ln(cwd_rank + ONE) - ln(ONE), taken as 0 if negative.
pub open spec fn boost_of(enabled: bool, cwd_rank: Option<u64>, w: RankingWeights) -> int {
    if !enabled {
        0
    } else {
        let r = match cwd_rank {
            Some(x) => min(x + ONE, u64::MAX as int),
            None => ONE as int,
        };
        let l = ln_fixed(r as nat) - ln_fixed(ONE as nat);
        min((if l > 0 {
            l
        } else {
            0
        }) / 100, w.frecent_boost_max as int)
    }
}

pub fn frecent_boost(enabled: bool, cwd_rank: Option<u64>, w: &RankingWeights) -> (r: u64)
    ensures
        r == boost_of(enabled, cwd_rank, *w),
{
    if !enabled {
        return 0;
    }
    let r: u64 = match cwd_rank {
        Some(x) => if x > u64::MAX - ONE {
            u64::MAX
        } else {
            x + ONE
        },
        None => ONE,
    };
    let hi = ln_micro(r);
    let lo = ln_micro(ONE);
    let l = if hi > lo {
        hi - lo
    } else {
        0
    };
    let b = l / 100;
    if b < w.frecent_boost_max {
        b
    } else {
        w.frecent_boost_max
    }
}

/// Weights of the search score: log-count 0.35, recency 0.30, failure penalty 0.5.
pub open spec fn search_weights() -> RankingWeights {
    RankingWeights {
        frequency: 350_000,
        recency: 300_000,
        dir_exact: 0,
        dir_hierarchy: 0,
        failure_penalty: 500_000,
        frecent_boost_max: 0,
        ngram: 0,
    }
}

/// A command found by a search, with the history of its latest execution.
#[derive(Debug, Clone)]
pub struct SearchRow {
    pub cmd: String,
    pub cwd: String,
    pub timestamp: i64,
    pub exit_status: Option<i32>,
    pub duration_ms: Option<i64>,
    pub freq: u64,
    pub failures: u64,
}

/// A search result; `score` is in units of 10^-18.
#[derive(Debug, Clone)]
pub struct SearchResult {
    pub cmd: String,
    pub cwd: String,
    pub timestamp: i64,
    pub exit_status: Option<i32>,
    pub duration_ms: Option<i64>,
    pub score: Option<u64>,
}

/// The candidate a search row is scored as: no directory signals.
pub open spec fn search_candidate(row: SearchRow) -> Candidate {
    Candidate {
        cmd: row.cmd,
        freq: row.freq,
        last_used: row.timestamp,
        exact_dir_freq: 0,
        hierarchy: 0,
        failures: row.failures,
    }
}

pub open spec fn search_scores(rows: Seq<SearchRow>, now: i64) -> Seq<u64> {
    Seq::new(
        rows.len(),
        |i: int| composite_score(search_candidate(rows[i]), search_weights(), now, 0, 0) as u64,
    )
}

/// Scores search rows (log-count and recency, less failures) and orders them by score;
/// ties keep their order.
pub fn rank_search(rows: &Vec<SearchRow>, now: i64) -> (r: Vec<SearchResult>)
    ensures
        r@.len() == rows@.len(),
        forall|k: int|
            #![trigger r@[k]]
            0 <= k < r@.len() ==> {
                let sc = search_scores(rows@, now);
                let i = order_by_score(sc)[k] as int;
                &&& r@[k].cmd@ == rows@[i].cmd@
                &&& r@[k].cwd@ == rows@[i].cwd@
                &&& r@[k].timestamp == rows@[i].timestamp
                &&& r@[k].exit_status == rows@[i].exit_status
                &&& r@[k].duration_ms == rows@[i].duration_ms
                &&& r@[k].score == Some(sc[i])
            },
{
    let ghost spec_scores = search_scores(rows@, now);
    let w = RankingWeights {
        frequency: 350_000,
        recency: 300_000,
        dir_exact: 0,
        dir_hierarchy: 0,
        failure_penalty: 500_000,
        frecent_boost_max: 0,
        ngram: 0,
    };
    let mut scores: Vec<u64> = Vec::new();
    let mut i: usize = 0;
    while i < rows.len()
        invariant
            i <= rows@.len(),
            w == search_weights(),
            spec_scores == search_scores(rows@, now),
            scores@ == spec_scores.subrange(0, i as int),
        decreases rows@.len() - i,
    {
        let row = &rows[i];
        let c = Candidate {
            cmd: row.cmd.clone(),
            freq: row.freq,
            last_used: row.timestamp,
            exact_dir_freq: 0,
            hierarchy: 0,
            failures: row.failures,
        };
        assert(c == search_candidate(rows@[i as int]));
        scores.push(score_candidate(&c, &w, now, 0, 0));
        assert(scores@ =~= spec_scores.subrange(0, i + 1));
        i = i + 1;
    }
    assert(scores@ =~= spec_scores);
    let order = order_by_score_desc(&scores);
    let mut out: Vec<SearchResult> = Vec::new();
    let mut k: usize = 0;
    while k < rows.len()
        invariant
            k <= rows@.len(),
            scores@ == spec_scores,
            spec_scores == search_scores(rows@, now),
            order@ == order_by_score(scores@),
            order@.len() == rows@.len(),
            forall|j: int| 0 <= j < order@.len() ==> #[trigger] order@[j] < rows@.len(),
            out@.len() == k,
            forall|j: int|
                #![trigger out@[j]]
                0 <= j < k ==> {
                    let i = order@[j] as int;
                    &&& out@[j].cmd@ == rows@[i].cmd@
                    &&& out@[j].cwd@ == rows@[i].cwd@
                    &&& out@[j].timestamp == rows@[i].timestamp
                    &&& out@[j].exit_status == rows@[i].exit_status
                    &&& out@[j].duration_ms == rows@[i].duration_ms
                    &&& out@[j].score == Some(spec_scores[i])
                },
        decreases rows@.len() - k,
    {
        let row = &rows[order[k]];
        out.push(
            SearchResult {
                cmd: row.cmd.clone(),
                cwd: row.cwd.clone(),
                timestamp: row.timestamp,
                exit_status: row.exit_status,
                duration_ms: row.duration_ms,
                score: Some(scores[order[k]]),
            },
        );
        k = k + 1;
    }
    out
}

/// A stored command that matches the prefix, as the store aggregates its history.
#[derive(Debug, Clone)]
pub struct CandidateRow {
    pub cmd: String,
    /// Number of executions.
    pub freq: u64,
    /// Latest start time.
    pub last_used: i64,
    /// Executions in the current directory.
    pub exact_dir_freq: u64,
    /// Executions in each directory of the hierarchy: the current one, then its ancestors.
    pub level_counts: Vec<u64>,
    /// Executions with a non-zero exit status.
    pub failures: u64,
}

/// Weight of one execution in `dir`, in millionths: 1 / (1 + (len(cwd) - len(dir)) / 10),
/// which favours closer ancestors.
pub open spec fn level_weight(cwd_len: int, dir_len: int) -> int {
    let d = if cwd_len > dir_len {
        cwd_len - dir_len
    } else {
        0
    };
    10 * ONE as int / (10 + d)
}

/// Weighted executions over the first `n` levels, saturating at the largest `u64`.
pub open spec fn hierarchy_sum(counts: Seq<u64>, cwd_len: int, dirs: Seq<Seq<char>>, n: nat) -> int
    decreases n,
{
    if n == 0 {
        0
    } else {
        min(
            hierarchy_sum(counts, cwd_len, dirs, (n - 1) as nat) + counts[n - 1] * level_weight(
                cwd_len,
                dirs[n - 1].len() as int,
            ),
            u64::MAX as int,
        )
    }
}

/// Ancestor-directory affinity of a row, in millionths.
pub open spec fn hierarchy_of(row: CandidateRow, cwd: Seq<char>, dirs: Seq<Seq<char>>) -> int {
    let n = min(row.level_counts@.len() as int, dirs.len() as int);
    hierarchy_sum(row.level_counts@, cwd.len() as int, dirs, n as nat)
}

/// A time as an unsigned key with the same order.
pub open spec fn time_key(t: i64) -> u64 {
    (t as int + 0x8000_0000_0000_0000) as u64
}

/// The selection keys of the rows: exact-directory count, then affinity, then recency.
pub open spec fn row_keys(rows: Seq<CandidateRow>, cwd: Seq<char>, dirs: Seq<Seq<char>>) -> Seq<
    (u64, u64, u64),
> {
    Seq::new(
        rows.len(),
        |i: int|
            (rows[i].exact_dir_freq, hierarchy_of(rows[i], cwd, dirs) as u64, time_key(rows[i].last_used)),
    )
}

pub open spec fn candidate_of(row: CandidateRow, cwd: Seq<char>, dirs: Seq<Seq<char>>) -> Candidate {
    Candidate {
        cmd: row.cmd,
        freq: row.freq,
        last_used: row.last_used,
        exact_dir_freq: row.exact_dir_freq,
        hierarchy: hierarchy_of(row, cwd, dirs) as u64,
        failures: row.failures,
    }
}

/// How many candidates are scored: twice the limit, so that scoring can reorder.
pub open spec fn over_fetch(limit: usize) -> int {
    min(2 * limit, usize::MAX as int)
}

/// The candidates that get scored: the rows ordered by their keys (ties keep their order),
/// the first `over_fetch(limit)` of them.
pub open spec fn selected(rows: Seq<CandidateRow>, cwd: Seq<char>, dirs: Seq<Seq<char>>, limit: usize) -> Seq<
    Candidate,
> {
    let o = order_by_keys(row_keys(rows, cwd, dirs));
    Seq::new(
        min(over_fetch(limit), rows.len() as int) as nat,
        |k: int| candidate_of(rows[o[k] as int], cwd, dirs),
    )
}

fn hierarchy_exec(row: &CandidateRow, cwd_len: usize, dirs: &Vec<String>, cwd: Ghost<Seq<char>>) -> (r: u64)
    requires
        cwd_len == cwd@.len(),
    ensures
        r == hierarchy_of(*row, cwd@, views(dirs@)),
{
    let counts = &row.level_counts;
    let n = if counts.len() < dirs.len() {
        counts.len()
    } else {
        dirs.len()
    };
    let mut sum: u64 = 0;
    let mut k: usize = 0;
    while k < n
        invariant
            k <= n,
            n == min(counts@.len() as int, dirs@.len() as int),
            cwd_len == cwd@.len(),
            sum == hierarchy_sum(counts@, cwd@.len() as int, views(dirs@), k as nat),
        decreases n - k,
    {
        let dl = dirs[k].as_str().unicode_len();
        assert(views(dirs@)[k as int] == dirs@[k as int]@);
        let d: u64 = if cwd_len > dl {
            (cwd_len - dl) as u64
        } else {
            0
        };
        let weight: u64 = if d > u64::MAX - 10 {
            0
        } else {
            10 * ONE / (10 + d)
        };
        proof {
            if d > u64::MAX - 10 {
                assert(10 * ONE as int / (10 + d as int) == 0) by (nonlinear_arith)
                    requires
                        d > u64::MAX - 10,
                ;
            }
            assert(weight <= 10 * ONE);
            assert((counts@[k as int] as int) * (weight as int) <= (u64::MAX as int) * (10 * ONE as int))
                by (nonlinear_arith)
                requires
                    counts@[k as int] <= u64::MAX,
                    weight <= 10 * ONE,
            ;
        }
        let total: u128 = sum as u128 + (counts[k] as u128) * (weight as u128);
        sum = if total > u64::MAX as u128 {
            u64::MAX
        } else {
            total as u64
        };
        k = k + 1;
    }
    sum
}

/// Orders the rows by exact-directory count, then ancestor affinity, then recency (ties
/// keep their order) and keeps twice `limit` of them, as candidates with their affinity.
pub fn select_candidates(rows: &Vec<CandidateRow>, cwd: &str, dirs: &Vec<String>, limit: usize) -> (r:
    Vec<Candidate>)
    ensures
        r@ == selected(rows@, cwd@, views(dirs@), limit),
{
    let cwd_len = cwd.unicode_len();
    let ghost dv = views(dirs@);
    let mut keys: Vec<(u64, u64, u64)> = Vec::new();
    let mut hier: Vec<u64> = Vec::new();
    let mut i: usize = 0;
    while i < rows.len()
        invariant
            i <= rows@.len(),
            cwd_len == cwd@.len(),
            dv == views(dirs@),
            keys@ == row_keys(rows@, cwd@, dv).subrange(0, i as int),
            hier@.len() == i,
            forall|j: int| 0 <= j < i ==> #[trigger] hier@[j] == hierarchy_of(rows@[j], cwd@, dv),
        decreases rows@.len() - i,
    {
        let row = &rows[i];
        let h = hierarchy_exec(row, cwd_len, dirs, Ghost(cwd@));
        let t = (row.last_used as i128 + 0x8000_0000_0000_0000) as u64;
        keys.push((row.exact_dir_freq, h, t));
        hier.push(h);
        assert(keys@ =~= row_keys(rows@, cwd@, dv).subrange(0, i + 1));
        i = i + 1;
    }
    assert(keys@ =~= row_keys(rows@, cwd@, dv));
    let order = order_by_keys_desc(&keys);
    let want = if limit <= usize::MAX / 2 {
        2 * limit
    } else {
        usize::MAX
    };
    let n = if want < rows.len() {
        want
    } else {
        rows.len()
    };
    let mut out: Vec<Candidate> = Vec::new();
    let mut k: usize = 0;
    while k < n
        invariant
            k <= n,
            n == min(over_fetch(limit), rows@.len() as int),
            dv == views(dirs@),
            order@ == order_by_keys(row_keys(rows@, cwd@, dv)),
            order@.len() == rows@.len(),
            forall|j: int| 0 <= j < order@.len() ==> #[trigger] order@[j] < rows@.len(),
            hier@.len() == rows@.len(),
            forall|j: int| 0 <= j < rows@.len() ==> #[trigger] hier@[j] == hierarchy_of(rows@[j], cwd@, dv),
            out@ == selected(rows@, cwd@, dv, limit).subrange(0, k as int),
        decreases n - k,
    {
        let idx = order[k];
        let row = &rows[idx];
        let c = Candidate {
            cmd: row.cmd.clone(),
            freq: row.freq,
            last_used: row.last_used,
            exact_dir_freq: row.exact_dir_freq,
            hierarchy: hier[idx],
            failures: row.failures,
        };
        out.push(c);
        assert(out@ =~= selected(rows@, cwd@, dv, limit).subrange(0, k + 1));
        k = k + 1;
    }
    assert(out@ =~= selected(rows@, cwd@, dv, limit));
    out
}

/// What the store returned for one prediction.
#[derive(Debug, Clone)]
pub struct PredictInputs {
    /// Argument values seen after the prefix's program and subcommand, best first.
    pub arg_rows: Vec<ArgCount>,
    /// Successors of the two previous commands.
    pub trigrams: Vec<NgramStats>,
    /// Successors of the previous command.
    pub bigrams: Vec<NgramStats>,
    /// Stored commands that start with the prefix, with counts per directory level of
    /// `get_directory_hierarchy(cwd, 3)`.
    pub candidates: Vec<CandidateRow>,
    /// Rank of the current directory among frecent directories, in millionths.
    pub cwd_rank: Option<u64>,
}

/// The weights a request uses: its own, else the defaults.
pub open spec fn weights_of(p: PredictParams) -> RankingWeights {
    match p.weights {
        Some(w) => w,
        None => default_weights(),
    }
}

/// The prediction answers with argument suggestions.
pub open spec fn answers_with_arguments(p: PredictParams, inp: PredictInputs) -> bool {
    wants_argument(p.prefix@) && inp.arg_rows@.len() > 0
}

/// Predicts completions of `params.prefix`. When the prefix asks for an argument and some
/// argument values are known, they are the answer (at most `limit`); otherwise the
/// candidates are ranked.
pub fn predict_from(params: &PredictParams, inputs: &PredictInputs, now: i64) -> (r: Vec<Suggestion>)
    ensures
        answers_with_arguments(*params, *inputs) ==> {
            &&& r@.len() == min(params.limit as int, inputs.arg_rows@.len() as int)
            &&& forall|k: int|
                #![trigger r@[k]]
                0 <= k < r@.len() ==> r@[k].cmd@ == params.prefix@ + inputs.arg_rows@[k].arg_value@
                    && r@[k].score == arg_score(inputs.arg_rows@[k])
        },
        !answers_with_arguments(*params, *inputs) ==> {
            let w = weights_of(*params);
            let boost = boost_of(params.frecent_boost, inputs.cwd_rank, w) as u64;
            let dirs = seq![params.cwd@] + ancestors(params.cwd@, 3);
            let cands = selected(inputs.candidates@, params.cwd@, dirs, params.limit);
            let scores = candidate_scores(cands, inputs.trigrams@, inputs.bigrams@, boost, w, now);
            &&& r@.len() == min(params.limit as int, cands.len() as int)
            &&& forall|k: int|
                #![trigger r@[k]]
                0 <= k < r@.len() ==> {
                    let i = order_by_score(scores)[k] as int;
                    &&& r@[k].cmd@ == cands[i].cmd@
                    &&& r@[k].score == scores[i]
                }
        },
{
    if expects_argument(params.prefix.as_str()) && inputs.arg_rows.len() > 0 {
        let mut all = arg_suggestions(params.prefix.as_str(), &inputs.arg_rows);
        all.truncate(params.limit);
        return all;
    }
    let w = match params.weights {
        Some(w) => w,
        None => RankingWeights::default(),
    };
    let boost = frecent_boost(params.frecent_boost, inputs.cwd_rank, &w);
    let dirs = get_directory_hierarchy(params.cwd.as_str(), 3);
    let cands = select_candidates(&inputs.candidates, params.cwd.as_str(), &dirs, params.limit);
    rank_candidates(&cands, &inputs.trigrams, &inputs.bigrams, boost, &w, now, params.limit)
}

/// The argument patterns that go with a deleted command: those of its program and
/// subcommand, when it has both.
pub open spec fn patterns_to_drop(cmd: Seq<char>) -> Option<(Seq<char>, Seq<char>)> {
    match crate::parser::subcommand_of(cmd) {
        Some(sub) => if program_of(cmd).len() > 0 {
            Some((program_of(cmd), sub))
        } else {
            None
        },
        None => None,
    }
}

pub fn arg_patterns_of_deleted(cmd: &str) -> (r: Option<(String, String)>)
    ensures
        match r {
            Some(x) => patterns_to_drop(cmd@) == Some((x.0@, x.1@)),
            None => patterns_to_drop(cmd@).is_none(),
        },
{
    let parsed = parse_command(cmd);
    if parsed.program.as_str().unicode_len() == 0 {
        return None;
    }
    match parsed.subcommand {
        Some(sub) => Some((parsed.program, sub)),
        None => None,
    }
}

} // verus!
