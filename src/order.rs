//! Stable ordering of result lists by descending score.
use vstd::prelude::*;

verus! {

/// Where `x` goes in `order`: before the first entry whose score is lower than its own.
pub open spec fn ins_pos(order: Seq<usize>, s: Seq<u64>, x: usize) -> nat
    decreases order.len(),
{
    if order.len() == 0 {
        0
    } else if s[order[0] as int] < s[x as int] {
        0
    } else {
        1 + ins_pos(order.subrange(1, order.len() as int), s, x)
    }
}

/// The first `n` positions of `s`, ordered by descending score; equal scores keep their order.
pub open spec fn order_prefix(s: Seq<u64>, n: nat) -> Seq<usize>
    decreases n,
{
    if n == 0 {
        Seq::empty()
    } else {
        let o = order_prefix(s, (n - 1) as nat);
        o.insert(ins_pos(o, s, (n - 1) as usize) as int, (n - 1) as usize)
    }
}

/// All positions of `s`, highest score first, ties in the order given.
pub open spec fn order_by_score(s: Seq<u64>) -> Seq<usize> {
    order_prefix(s, s.len())
}

proof fn lemma_ins_pos_bound(order: Seq<usize>, s: Seq<u64>, x: usize)
    ensures
        ins_pos(order, s, x) <= order.len(),
    decreases order.len(),
{
    if order.len() > 0 {
        lemma_ins_pos_bound(order.subrange(1, order.len() as int), s, x);
    }
}

proof fn lemma_order_prefix_range(s: Seq<u64>, n: nat)
    requires
        n <= usize::MAX,
    ensures
        order_prefix(s, n).len() == n,
        forall|k: int| 0 <= k < n ==> #[trigger] order_prefix(s, n)[k] < n,
    decreases n,
{
    if n > 0 {
        let o = order_prefix(s, (n - 1) as nat);
        lemma_order_prefix_range(s, (n - 1) as nat);
        lemma_ins_pos_bound(o, s, (n - 1) as usize);
        let p = ins_pos(o, s, (n - 1) as usize) as int;
        assert forall|k: int| 0 <= k < n implies #[trigger] order_prefix(s, n)[k] < n by {
            if k < p {
                assert(order_prefix(s, n)[k] == o[k]);
            } else if k > p {
                assert(order_prefix(s, n)[k] == o[k - 1]);
            }
        }
    }
}

proof fn lemma_ins_pos_props(order: Seq<usize>, s: Seq<u64>, x: usize)
    ensures
        forall|k: int| 0 <= k < ins_pos(order, s, x) ==> !(s[#[trigger] order[k] as int] < s[x as int]),
        ins_pos(order, s, x) < order.len() ==> s[order[ins_pos(order, s, x) as int] as int] < s[x as int],
    decreases order.len(),
{
    if order.len() > 0 && !(s[order[0] as int] < s[x as int]) {
        let rest = order.subrange(1, order.len() as int);
        lemma_ins_pos_props(rest, s, x);
        lemma_ins_pos_bound(rest, s, x);
        assert forall|k: int| 0 <= k < ins_pos(order, s, x) implies !(s[#[trigger] order[k] as int]
            < s[x as int]) by {
            if k > 0 {
                assert(order[k] == rest[k - 1]);
            }
        }
        if ins_pos(order, s, x) < order.len() {
            assert(order[ins_pos(order, s, x) as int] == rest[ins_pos(rest, s, x) as int]);
        }
    }
}

/// The first `n` positions, ordered by score: every position below `n` exactly once, scores
/// never rising along the order.
proof fn lemma_order_prefix_sorted(s: Seq<u64>, n: nat)
    requires
        n <= s.len(),
        n <= usize::MAX,
    ensures
        order_prefix(s, n).len() == n,
        forall|k: int| 0 <= k < n ==> #[trigger] order_prefix(s, n)[k] < n,
        forall|k: int, l: int|
            0 <= k < l < n ==> order_prefix(s, n)[k] != order_prefix(s, n)[l],
        forall|k: int, l: int|
            0 <= k < l < n ==> s[order_prefix(s, n)[k] as int] >= s[order_prefix(s, n)[l] as int],
    decreases n,
{
    lemma_order_prefix_range(s, n);
    if n > 0 {
        let o = order_prefix(s, (n - 1) as nat);
        let x = (n - 1) as usize;
        lemma_order_prefix_sorted(s, (n - 1) as nat);
        lemma_ins_pos_bound(o, s, x);
        lemma_ins_pos_props(o, s, x);
        let p = ins_pos(o, s, x) as int;
        let q = order_prefix(s, n);
        assert(q == o.insert(p, x));
        assert forall|k: int, l: int| 0 <= k < l < n implies q[k] != q[l] && s[q[k] as int] >= s[
            q[l] as int] by {
            if l < p {
                assert(q[k] == o[k] && q[l] == o[l]);
            } else if l == p {
                assert(q[k] == o[k] && q[l] == x);
            } else if k < p {
                assert(q[k] == o[k] && q[l] == o[l - 1]);
            } else if k == p {
                assert(q[k] == x && q[l] == o[l - 1]);
                if p < o.len() {
                    assert(s[o[p] as int] < s[x as int]);
                    if l - 1 > p {
                        assert(s[o[p] as int] >= s[o[l - 1] as int]);
                    }
                }
            } else {
                assert(q[k] == o[k - 1] && q[l] == o[l - 1]);
            }
        }
    }
}

/// Position `j` occurs in `o`.
pub open spec fn has_pos(o: Seq<usize>, j: int) -> bool {
    exists|k: int| 0 <= k < o.len() && #[trigger] o[k] == j
}

/// Every position below `n` occurs in the order of the first `n`.
proof fn lemma_order_prefix_covers(s: Seq<u64>, n: nat)
    requires
        n <= usize::MAX,
    ensures
        forall|j: int| 0 <= j < n ==> #[trigger] has_pos(order_prefix(s, n), j),
    decreases n,
{
    lemma_order_prefix_range(s, n);
    if n > 0 {
        let o = order_prefix(s, (n - 1) as nat);
        let x = (n - 1) as usize;
        lemma_order_prefix_covers(s, (n - 1) as nat);
        lemma_order_prefix_range(s, (n - 1) as nat);
        lemma_ins_pos_bound(o, s, x);
        let p = ins_pos(o, s, x) as int;
        let q = order_prefix(s, n);
        assert(q == o.insert(p, x));
        assert forall|j: int| 0 <= j < n implies #[trigger] has_pos(q, j) by {
            if j == n - 1 {
                assert(q[p] == x);
            } else {
                assert(has_pos(o, j));
                let k0 = choose|k: int| 0 <= k < o.len() && #[trigger] o[k] == j;
                if k0 < p {
                    assert(q[k0] == o[k0]);
                } else {
                    assert(q[k0 + 1] == o[k0]);
                }
            }
        }
    }
}

/// `order_by_score(s)` is a permutation of the positions of `s` with scores in
/// non-increasing order.
pub proof fn lemma_order_by_score_sorted(s: Seq<u64>)
    requires
        s.len() <= usize::MAX,
    ensures
        order_by_score(s).len() == s.len(),
        forall|k: int| 0 <= k < s.len() ==> #[trigger] order_by_score(s)[k] < s.len(),
        forall|k: int, l: int|
            0 <= k < l < s.len() ==> order_by_score(s)[k] != order_by_score(s)[l],
        forall|k: int, l: int|
            0 <= k < l < s.len() ==> s[order_by_score(s)[k] as int] >= s[order_by_score(s)[l] as int],
        forall|j: int| 0 <= j < s.len() ==> #[trigger] has_pos(order_by_score(s), j),
{
    lemma_order_prefix_sorted(s, s.len());
    lemma_order_prefix_covers(s, s.len());
}

/// The positions of `scores`, highest score first; equal scores keep their order.
pub fn order_by_score_desc(scores: &Vec<u64>) -> (r: Vec<usize>)
    ensures
        r@ == order_by_score(scores@),
        r@.len() == scores@.len(),
        forall|k: int| 0 <= k < r@.len() ==> #[trigger] r@[k] < scores@.len(),
{
    let n = scores.len();
    let mut order: Vec<usize> = Vec::new();
    let mut i: usize = 0;
    while i < n
        invariant
            i <= n,
            n == scores@.len(),
            order@ == order_prefix(scores@, i as nat),
        decreases n - i,
    {
        proof {
            lemma_order_prefix_range(scores@, i as nat);
        }
        let mut k: usize = 0;
        assert(order@.subrange(0, order@.len() as int) =~= order@);
        while k < order.len() && scores[order[k]] >= scores[i]
            invariant
                i < n,
                n == scores@.len(),
                order@ == order_prefix(scores@, i as nat),
                order@.len() == i,
                forall|j: int| 0 <= j < i ==> #[trigger] order@[j] < i,
                k <= order@.len(),
                ins_pos(order@, scores@, i) == k + ins_pos(
                    order@.subrange(k as int, order@.len() as int),
                    scores@,
                    i,
                ),
            decreases order@.len() - k,
        {
            proof {
                let rest = order@.subrange(k as int, order@.len() as int);
                assert(rest.subrange(1, rest.len() as int) =~= order@.subrange(
                    k + 1,
                    order@.len() as int,
                ));
            }
            k = k + 1;
        }
        proof {
            let rest = order@.subrange(k as int, order@.len() as int);
            if k < order@.len() {
                assert(rest[0] == order@[k as int]);
            } else {
                assert(rest.len() == 0);
            }
        }
        order.insert(k, i);
        i = i + 1;
    }
    proof {
        lemma_order_prefix_range(scores@, n as nat);
    }
    order
}

/// Three keys compared in turn: `a` comes before `b` when its first differing key is lower.
pub open spec fn keys_lt(a: (u64, u64, u64), b: (u64, u64, u64)) -> bool {
    a.0 < b.0 || (a.0 == b.0 && (a.1 < b.1 || (a.1 == b.1 && a.2 < b.2)))
}

/// Where `x` goes in `order`: before the first entry whose keys are lower than its own.
pub open spec fn ins_pos_keys(order: Seq<usize>, s: Seq<(u64, u64, u64)>, x: usize) -> nat
    decreases order.len(),
{
    if order.len() == 0 {
        0
    } else if keys_lt(s[order[0] as int], s[x as int]) {
        0
    } else {
        1 + ins_pos_keys(order.subrange(1, order.len() as int), s, x)
    }
}

/// The first `n` positions of `s`, highest keys first; equal keys keep their order.
pub open spec fn order_prefix_keys(s: Seq<(u64, u64, u64)>, n: nat) -> Seq<usize>
    decreases n,
{
    if n == 0 {
        Seq::empty()
    } else {
        let o = order_prefix_keys(s, (n - 1) as nat);
        o.insert(ins_pos_keys(o, s, (n - 1) as usize) as int, (n - 1) as usize)
    }
}

/// All positions of `s`, highest keys first, ties in the order given.
pub open spec fn order_by_keys(s: Seq<(u64, u64, u64)>) -> Seq<usize> {
    order_prefix_keys(s, s.len())
}

proof fn lemma_ins_pos_keys_bound(order: Seq<usize>, s: Seq<(u64, u64, u64)>, x: usize)
    ensures
        ins_pos_keys(order, s, x) <= order.len(),
    decreases order.len(),
{
    if order.len() > 0 {
        lemma_ins_pos_keys_bound(order.subrange(1, order.len() as int), s, x);
    }
}

proof fn lemma_order_prefix_keys_range(s: Seq<(u64, u64, u64)>, n: nat)
    requires
        n <= usize::MAX,
    ensures
        order_prefix_keys(s, n).len() == n,
        forall|k: int| 0 <= k < n ==> #[trigger] order_prefix_keys(s, n)[k] < n,
    decreases n,
{
    if n > 0 {
        let o = order_prefix_keys(s, (n - 1) as nat);
        lemma_order_prefix_keys_range(s, (n - 1) as nat);
        lemma_ins_pos_keys_bound(o, s, (n - 1) as usize);
        let p = ins_pos_keys(o, s, (n - 1) as usize) as int;
        assert forall|k: int| 0 <= k < n implies #[trigger] order_prefix_keys(s, n)[k] < n by {
            if k < p {
                assert(order_prefix_keys(s, n)[k] == o[k]);
            } else if k > p {
                assert(order_prefix_keys(s, n)[k] == o[k - 1]);
            }
        }
    }
}

fn keys_lt_exec(a: (u64, u64, u64), b: (u64, u64, u64)) -> (r: bool)
    ensures
        r == keys_lt(a, b),
{
    a.0 < b.0 || (a.0 == b.0 && (a.1 < b.1 || (a.1 == b.1 && a.2 < b.2)))
}

/// The positions of `keys`, highest keys first; equal keys keep their order.
pub fn order_by_keys_desc(keys: &Vec<(u64, u64, u64)>) -> (r: Vec<usize>)
    ensures
        r@ == order_by_keys(keys@),
        r@.len() == keys@.len(),
        forall|k: int| 0 <= k < r@.len() ==> #[trigger] r@[k] < keys@.len(),
{
    let n = keys.len();
    let mut order: Vec<usize> = Vec::new();
    let mut i: usize = 0;
    while i < n
        invariant
            i <= n,
            n == keys@.len(),
            order@ == order_prefix_keys(keys@, i as nat),
        decreases n - i,
    {
        proof {
            lemma_order_prefix_keys_range(keys@, i as nat);
        }
        let mut k: usize = 0;
        assert(order@.subrange(0, order@.len() as int) =~= order@);
        while k < order.len() && !keys_lt_exec(keys[order[k]], keys[i])
            invariant
                i < n,
                n == keys@.len(),
                order@ == order_prefix_keys(keys@, i as nat),
                order@.len() == i,
                forall|j: int| 0 <= j < i ==> #[trigger] order@[j] < i,
                k <= order@.len(),
                ins_pos_keys(order@, keys@, i) == k + ins_pos_keys(
                    order@.subrange(k as int, order@.len() as int),
                    keys@,
                    i,
                ),
            decreases order@.len() - k,
        {
            proof {
                let rest = order@.subrange(k as int, order@.len() as int);
                assert(rest.subrange(1, rest.len() as int) =~= order@.subrange(
                    k + 1,
                    order@.len() as int,
                ));
            }
            k = k + 1;
        }
        proof {
            let rest = order@.subrange(k as int, order@.len() as int);
            if k < order@.len() {
                assert(rest[0] == order@[k as int]);
            } else {
                assert(rest.len() == 0);
            }
        }
        order.insert(k, i);
        i = i + 1;
    }
    proof {
        lemma_order_prefix_keys_range(keys@, n as nat);
    }
    order
}

} // verus!
