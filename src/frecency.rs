//! The frecency engine: rank updates, aging and the tiered path query.
use crate::fixed::ONE;
use crate::matcher::{fuzzy_match, matches_fuzzy, matches_ordered_substring, ordered_match};
use crate::order::{has_pos, lemma_order_by_score_sorted, order_by_score, order_by_score_desc};
use crate::ranking::min;
use vstd::prelude::*;

verus! {

/// Total rank of one path type above which all ranks of that type age.
pub const AGING_THRESHOLD: u64 = 2_000_000_000;

/// Smallest rank the bump divides by: 0.01.
pub const MIN_DIVISOR: u64 = 10_000;

/// A stored frecent path; `rank` is in millionths.
#[derive(Debug, Clone)]
pub struct FrecentRow {
    pub path: String,
    pub path_type: String,
    pub rank: u64,
    pub last_access: i64,
}

/// A frecent path as a query returns it; `score` and `rank` are in millionths.
#[derive(Debug, Clone)]
pub struct FrecencyResult {
    pub path: String,
    pub path_type: String,
    pub score: u64,
    pub rank: Option<u64>,
    pub last_access: Option<i64>,
}

/// Multiplier for how recently a path was used: 6 within the hour, 4 within the day,
/// 2 within the week, 1 after that.
pub open spec fn recency_weight(last_access: i64, now: i64) -> int {
    let age = now - last_access;
    if age < 3600 {
        6
    } else if age < 86400 {
        4
    } else if age < 604800 {
        2
    } else {
        1
    }
}

/// Rank times the recency weight, saturating at the largest `u64`.
pub open spec fn frecency_of(rank: u64, last_access: i64, now: i64) -> int {
    min(rank * recency_weight(last_access, now), u64::MAX as int)
}

/// The frecency score of a path.
pub fn frecency_score(rank: u64, last_access: i64, now: i64) -> (r: u64)
    ensures
        r == frecency_of(rank, last_access, now),
{
    let age: i128 = (now as i128) - (last_access as i128);
    let w: u64 = if age < 3600 {
        6
    } else if age < 86400 {
        4
    } else if age < 604800 {
        2
    } else {
        1
    };
    assert((rank as int) * (w as int) <= (u64::MAX as int) * 6) by (nonlinear_arith)
        requires
            1 <= w <= 6,
            rank <= u64::MAX,
    ;
    let prod: u128 = (rank as u128) * (w as u128);
    if prod > u64::MAX as u128 {
        u64::MAX
    } else {
        prod as u64
    }
}

/// A stored path's rank, last access and access count.
pub type FrecentState = (u64, i64, u64);

/// The row after one access at time `ts`. With a given rank (an import) the larger rank and
/// the later access are kept; otherwise the rank grows by 1/rank (dividing by at least 0.01)
/// and the access time becomes `ts`. A new path starts at the given rank, or at 1.
pub open spec fn after_access(existing: Option<FrecentState>, rank: Option<u64>, ts: i64) -> (
    int,
    i64,
    int,
) {
    match existing {
        None => match rank {
            Some(r) => (r as int, ts, 1),
            None => (ONE as int, ts, 1),
        },
        Some(old) => {
            let count = min(old.2 + 1, u64::MAX as int);
            match rank {
                Some(r) => (
                    if old.0 >= r {
                        old.0 as int
                    } else {
                        r as int
                    },
                    if old.1 >= ts {
                        old.1
                    } else {
                        ts
                    },
                    count,
                ),
                None => {
                    let div = if old.0 >= MIN_DIVISOR {
                        old.0 as int
                    } else {
                        MIN_DIVISOR as int
                    };
                    (min(old.0 + (ONE * ONE) as int / div, u64::MAX as int), ts, count)
                },
            }
        },
    }
}

/// The stored values of a path after it is accessed (see `after_access`).
pub fn record_access(existing: Option<FrecentState>, rank: Option<u64>, ts: i64) -> (r:
    FrecentState)
    ensures
        (r.0 as int, r.1, r.2 as int) == after_access(existing, rank, ts),
{
    match existing {
        None => match rank {
            Some(x) => (x, ts, 1),
            None => (ONE, ts, 1),
        },
        Some(old) => {
            let count = old.2.saturating_add(1);
            match rank {
                Some(x) => (
                    if old.0 >= x {
                        old.0
                    } else {
                        x
                    },
                    if old.1 >= ts {
                        old.1
                    } else {
                        ts
                    },
                    count,
                ),
                None => {
                    let div = if old.0 >= MIN_DIVISOR {
                        old.0
                    } else {
                        MIN_DIVISOR
                    };
                    (old.0.saturating_add(1_000_000_000_000 / div), ts, count)
                },
            }
        },
    }
}

/// Sum of the first `n` ranks.
pub open spec fn rank_sum(s: Seq<u64>) -> int
    decreases s.len(),
{
    if s.len() == 0 {
        0
    } else {
        rank_sum(s.drop_last()) + s.last()
    }
}

/// A rank after one round of aging: nine tenths of it.
pub open spec fn aged(r: u64) -> u64 {
    (r as int * 9 / 10) as u64
}

/// What aging makes of one rank: its aged value, or nothing when that falls below 1.
pub open spec fn aging_outcome(r: u64) -> Option<u64> {
    if aged(r) >= ONE {
        Some(aged(r))
    } else {
        None
    }
}

/// The aged ranks that a round of aging keeps (the `Some` outcomes), in order.
pub open spec fn survivors(s: Seq<u64>) -> Seq<u64>
    decreases s.len(),
{
    if s.len() == 0 {
        Seq::empty()
    } else {
        match aging_outcome(s.last()) {
            Some(a) => survivors(s.drop_last()).push(a),
            None => survivors(s.drop_last()),
        }
    }
}

/// Aging of the ranks of one path type. Nothing happens while their total is at most
/// `AGING_THRESHOLD`; above it every rank keeps nine tenths, and those that fall below 1
/// are pruned (`None`).
pub fn age_ranks(ranks: &Vec<u64>) -> (r: Option<Vec<Option<u64>>>)
    ensures
        r.is_none() <==> rank_sum(ranks@) <= AGING_THRESHOLD,
        match r {
            Some(v) => v@.len() == ranks@.len() && forall|i: int|
                0 <= i < ranks@.len() ==> #[trigger] v@[i] == aging_outcome(ranks@[i]),
            None => true,
        },
{
    let mut total: u128 = 0;
    let mut i: usize = 0;
    while i < ranks.len()
        invariant
            i <= ranks@.len(),
            total == rank_sum(ranks@.subrange(0, i as int)),
            total <= i * 0x1_0000_0000_0000_0000,
        decreases ranks@.len() - i,
    {
        assert(ranks@.subrange(0, i + 1).drop_last() =~= ranks@.subrange(0, i as int));
        total = total + ranks[i] as u128;
        i = i + 1;
    }
    assert(ranks@.subrange(0, ranks@.len() as int) =~= ranks@);
    if total <= AGING_THRESHOLD as u128 {
        return None;
    }
    let mut out: Vec<Option<u64>> = Vec::new();
    let mut j: usize = 0;
    while j < ranks.len()
        invariant
            j <= ranks@.len(),
            out@.len() == j,
            forall|k: int| 0 <= k < j ==> #[trigger] out@[k] == aging_outcome(ranks@[k]),
        decreases ranks@.len() - j,
    {
        let a = ranks[j] / 10 * 9 + ranks[j] % 10 * 9 / 10;
        assert(a == aged(ranks@[j as int])) by (nonlinear_arith)
            requires
                a == ranks@[j as int] / 10 * 9 + ranks@[j as int] % 10 * 9 / 10,
        ;
        if a >= ONE {
            out.push(Some(a));
        } else {
            out.push(None);
        }
        j = j + 1;
    }
    Some(out)
}

proof fn lemma_survivors(s: Seq<u64>)
    ensures
        forall|k: int| 0 <= k < survivors(s).len() ==> #[trigger] survivors(s)[k] >= ONE,
        rank_sum(survivors(s)) * 10 <= rank_sum(s) * 9,
    decreases s.len(),
{
    if s.len() > 0 {
        lemma_survivors(s.drop_last());
        let x = s.last();
        assert((aged(x) as int) * 10 <= (x as int) * 9);
        if aged(x) >= ONE {
            let p = survivors(s.drop_last());
            assert(survivors(s).drop_last() == p);
        }
    }
}

/// Right after a round of aging, no surviving path has a rank below 1, and the total rank
/// of the survivors is at most nine tenths of the total before.
pub proof fn lemma_aging_law(ranks: Seq<u64>)
    ensures
        forall|k: int| 0 <= k < survivors(ranks).len() ==> #[trigger] survivors(ranks)[k] >= ONE,
        rank_sum(survivors(ranks)) * 10 <= rank_sum(ranks) * 9,
{
    lemma_survivors(ranks);
}

/// Exporting a row in raw mode and importing the exported rank and time into a store
/// without that path restores both; importing them over the unchanged row changes neither.
pub proof fn lemma_raw_round_trip(row: FrecentRow, now: i64, res: FrecencyResult, count: u64)
    requires
        reported(row, now, true, res),
    ensures
        after_access(None, res.rank, res.last_access.unwrap()) == (
            row.rank as int,
            row.last_access,
            1int,
        ),
        after_access(Some((row.rank, row.last_access, count)), res.rank, res.last_access.unwrap()).0
            == row.rank,
        after_access(Some((row.rank, row.last_access, count)), res.rank, res.last_access.unwrap()).1
            == row.last_access,
{
}

/// The path matches `terms` at matcher tier `tier`: 1 ordered substrings, 2 the same
/// ignoring case, 3 fuzzy.
pub open spec fn tier_hit(path: Seq<char>, terms: Seq<String>, tier: int) -> bool {
    if tier == 1 {
        ordered_match(path, terms, false)
    } else if tier == 2 {
        ordered_match(path, terms, true)
    } else {
        fuzzy_match(path, terms)
    }
}

/// Positions among the first `n` rows whose path matches at `tier`.
pub open spec fn tier_hits(rows: Seq<FrecentRow>, terms: Seq<String>, tier: int, n: nat) -> Seq<
    usize,
>
    decreases n,
{
    if n == 0 {
        Seq::empty()
    } else if tier_hit(rows[n - 1].path@, terms, tier) {
        tier_hits(rows, terms, tier, (n - 1) as nat).push((n - 1) as usize)
    } else {
        tier_hits(rows, terms, tier, (n - 1) as nat)
    }
}

pub open spec fn hits(rows: Seq<FrecentRow>, terms: Seq<String>, tier: int) -> Seq<usize> {
    tier_hits(rows, terms, tier, rows.len())
}

/// The rows a query keeps: all of them without terms, else those of the first tier with
/// at least one hit.
pub open spec fn chosen(rows: Seq<FrecentRow>, terms: Seq<String>) -> Seq<usize> {
    if terms.len() == 0 {
        Seq::new(rows.len(), |i: int| i as usize)
    } else if hits(rows, terms, 1).len() > 0 {
        hits(rows, terms, 1)
    } else if hits(rows, terms, 2).len() > 0 {
        hits(rows, terms, 2)
    } else {
        hits(rows, terms, 3)
    }
}

proof fn lemma_tier_hits(rows: Seq<FrecentRow>, terms: Seq<String>, tier: int, n: nat)
    requires
        n <= rows.len() <= usize::MAX,
    ensures
        forall|k: int|
            0 <= k < tier_hits(rows, terms, tier, n).len() ==> {
                let i = #[trigger] tier_hits(rows, terms, tier, n)[k] as int;
                0 <= i < n && tier_hit(rows[i].path@, terms, tier)
            },
    decreases n,
{
    if n > 0 {
        let prev = tier_hits(rows, terms, tier, (n - 1) as nat);
        lemma_tier_hits(rows, terms, tier, (n - 1) as nat);
        assert forall|k: int| 0 <= k < tier_hits(rows, terms, tier, n).len() implies {
            let i = #[trigger] tier_hits(rows, terms, tier, n)[k] as int;
            0 <= i < n && tier_hit(rows[i].path@, terms, tier)
        } by {
            if k < prev.len() {
                assert(tier_hits(rows, terms, tier, n)[k] == prev[k]);
            } else {
                assert(tier_hits(rows, terms, tier, n)[k] == (n - 1) as usize);
            }
        }
    }
}

/// When the case-sensitive tier finds anything, the query keeps only its hits: the
/// case-insensitive and fuzzy tiers contribute nothing.
pub proof fn lemma_tier_precedence(rows: Seq<FrecentRow>, terms: Seq<String>)
    requires
        rows.len() <= usize::MAX,
        terms.len() > 0,
        hits(rows, terms, 1).len() > 0,
    ensures
        chosen(rows, terms) == hits(rows, terms, 1),
        forall|k: int|
            0 <= k < chosen(rows, terms).len() ==> tier_hit(
                rows[#[trigger] chosen(rows, terms)[k] as int].path@,
                terms,
                1,
            ),
{
    lemma_tier_hits(rows, terms, 1, rows.len());
}

fn tier_hit_exec(path: &str, terms: &Vec<String>, tier: u8) -> (r: bool)
    ensures
        r == tier_hit(path@, terms@, tier as int),
{
    if tier == 1 {
        matches_ordered_substring(path, terms.as_slice(), false)
    } else if tier == 2 {
        matches_ordered_substring(path, terms.as_slice(), true)
    } else {
        matches_fuzzy(path, terms.as_slice())
    }
}

fn collect_hits(rows: &Vec<FrecentRow>, terms: &Vec<String>, tier: u8) -> (r: Vec<usize>)
    ensures
        r@ == hits(rows@, terms@, tier as int),
{
    let mut out: Vec<usize> = Vec::new();
    let mut i: usize = 0;
    while i < rows.len()
        invariant
            i <= rows@.len(),
            out@ == tier_hits(rows@, terms@, tier as int, i as nat),
        decreases rows@.len() - i,
    {
        if tier_hit_exec(rows[i].path.as_str(), terms, tier) {
            out.push(i);
        }
        i = i + 1;
    }
    out
}

/// A row as the query reports it; `raw` adds the rank and the last access.
pub open spec fn reported(row: FrecentRow, now: i64, raw: bool, res: FrecencyResult) -> bool {
    &&& res.path@ == row.path@
    &&& res.path_type@ == row.path_type@
    &&& res.score == frecency_of(row.rank, row.last_access, now)
    &&& res.rank == (if raw {
        Some(row.rank)
    } else {
        None
    })
    &&& res.last_access == (if raw {
        Some(row.last_access)
    } else {
        None
    })
}

/// The frecency of each chosen row.
pub open spec fn chosen_scores(rows: Seq<FrecentRow>, picked: Seq<usize>, now: i64) -> Seq<u64> {
    Seq::new(
        picked.len(),
        |k: int| frecency_of(rows[picked[k] as int].rank, rows[picked[k] as int].last_access, now) as u64,
    )
}

/// Answers a frecency query over candidate rows: keeps the rows that `chosen` selects,
/// orders them by frecency (ties keep their order) and returns the first `limit`.
pub fn select_frecent(
    rows: &Vec<FrecentRow>,
    terms: &Vec<String>,
    now: i64,
    limit: usize,
    raw: bool,
) -> (r: Vec<FrecencyResult>)
    ensures
        r@.len() == min(limit as int, chosen(rows@, terms@).len() as int),
        forall|k: int|
            #![trigger r@[k]]
            0 <= k < r@.len() ==> {
                let picked = chosen(rows@, terms@);
                let o = order_by_score(chosen_scores(rows@, picked, now));
                reported(rows@[picked[o[k] as int] as int], now, raw, r@[k])
            },
{
    let picked: Vec<usize> = if terms.len() == 0 {
        let mut all: Vec<usize> = Vec::new();
        let mut i: usize = 0;
        while i < rows.len()
            invariant
                i <= rows@.len(),
                all@ == Seq::new(i as nat, |j: int| j as usize),
            decreases rows@.len() - i,
        {
            all.push(i);
            assert(all@ =~= Seq::new((i + 1) as nat, |j: int| j as usize));
            i = i + 1;
        }
        all
    } else {
        let t1 = collect_hits(rows, terms, 1);
        if t1.len() > 0 {
            t1
        } else {
            let t2 = collect_hits(rows, terms, 2);
            if t2.len() > 0 {
                t2
            } else {
                collect_hits(rows, terms, 3)
            }
        }
    };
    assert(picked@ == chosen(rows@, terms@));
    let nrows = rows.len();
    proof {
        if terms@.len() > 0 {
            lemma_tier_hits(rows@, terms@, 1, rows@.len());
            lemma_tier_hits(rows@, terms@, 2, rows@.len());
            lemma_tier_hits(rows@, terms@, 3, rows@.len());
        }
    }
    assert(forall|k: int| 0 <= k < picked@.len() ==> #[trigger] picked@[k] < rows@.len());
    let ghost spec_scores = chosen_scores(rows@, picked@, now);
    let mut scores: Vec<u64> = Vec::new();
    let mut k: usize = 0;
    while k < picked.len()
        invariant
            k <= picked@.len(),
            forall|j: int| 0 <= j < picked@.len() ==> #[trigger] picked@[j] < rows@.len(),
            spec_scores == chosen_scores(rows@, picked@, now),
            scores@ == spec_scores.subrange(0, k as int),
        decreases picked@.len() - k,
    {
        let row = &rows[picked[k]];
        scores.push(frecency_score(row.rank, row.last_access, now));
        assert(scores@ =~= spec_scores.subrange(0, k + 1));
        k = k + 1;
    }
    assert(scores@ =~= spec_scores);
    let order = order_by_score_desc(&scores);
    let n = if limit < picked.len() {
        limit
    } else {
        picked.len()
    };
    let mut out: Vec<FrecencyResult> = Vec::new();
    let mut m: usize = 0;
    while m < n
        invariant
            m <= n,
            n == min(limit as int, picked@.len() as int),
            picked@ == chosen(rows@, terms@),
            forall|j: int| 0 <= j < picked@.len() ==> #[trigger] picked@[j] < rows@.len(),
            scores@ == spec_scores,
            spec_scores == chosen_scores(rows@, picked@, now),
            order@ == order_by_score(scores@),
            order@.len() == picked@.len(),
            forall|j: int| 0 <= j < order@.len() ==> #[trigger] order@[j] < picked@.len(),
            out@.len() == m,
            forall|j: int|
                #![trigger out@[j]]
                0 <= j < m ==> reported(rows@[picked@[order@[j] as int] as int], now, raw, out@[j]),
        decreases n - m,
    {
        let row = &rows[picked[order[m]]];
        let res = FrecencyResult {
            path: row.path.clone(),
            path_type: row.path_type.clone(),
            score: scores[order[m]],
            rank: if raw {
                Some(row.rank)
            } else {
                None
            },
            last_access: if raw {
                Some(row.last_access)
            } else {
                None
            },
        };
        out.push(res);
        m = m + 1;
    }
    out
}

/// Importing an exported result (its rank and last access, into a store without its path)
/// gives back `row`.
pub open spec fn imports_as(res: FrecencyResult, row: FrecentRow) -> bool {
    &&& res.path@ == row.path@
    &&& res.path_type@ == row.path_type@
    &&& res.rank.is_some()
    &&& res.last_access.is_some()
    &&& after_access(None, res.rank, res.last_access.unwrap()) == (
        row.rank as int,
        row.last_access,
        1int,
    )
}

/// Some exported result imports as `row`.
pub open spec fn restores(r: Seq<FrecencyResult>, row: FrecentRow) -> bool {
    exists|k: int| 0 <= k < r.len() && imports_as(#[trigger] r[k], row)
}

/// Exporting every row in raw mode (no terms, a limit of at least the row count) and
/// importing each result into a fresh store gives back exactly the rows: every row is
/// restored by some result, and every result restores some row.
pub proof fn lemma_export_import_round_trip(
    rows: Seq<FrecentRow>,
    terms: Seq<String>,
    now: i64,
    limit: usize,
    r: Seq<FrecencyResult>,
)
    requires
        rows.len() <= usize::MAX,
        terms.len() == 0,
        limit >= rows.len(),
        r.len() == min(limit as int, chosen(rows, terms).len() as int),
        forall|k: int|
            #![trigger r[k]]
            0 <= k < r.len() ==> {
                let picked = chosen(rows, terms);
                let o = order_by_score(chosen_scores(rows, picked, now));
                reported(rows[picked[o[k] as int] as int], now, true, r[k])
            },
    ensures
        r.len() == rows.len(),
        forall|i: int| 0 <= i < rows.len() ==> #[trigger] restores(r, rows[i]),
        forall|k: int|
            0 <= k < r.len() ==> exists|i: int| 0 <= i < rows.len() && imports_as(#[trigger] r[k], rows[i]),
{
    let picked = chosen(rows, terms);
    let sc = chosen_scores(rows, picked, now);
    let o = order_by_score(sc);
    assert(picked.len() == rows.len());
    lemma_order_by_score_sorted(sc);
    assert forall|i: int| 0 <= i < rows.len() implies #[trigger] restores(r, rows[i]) by {
        assert(has_pos(o, i));
        let k = choose|k: int| 0 <= k < o.len() && #[trigger] o[k] == i;
        assert(picked[i] == i as usize);
        assert(reported(rows[picked[o[k] as int] as int], now, true, r[k]));
        assert(imports_as(r[k], rows[i]));
    }
    assert forall|k: int| 0 <= k < r.len() implies exists|i: int|
        0 <= i < rows.len() && imports_as(#[trigger] r[k], rows[i]) by {
        let i = o[k] as int;
        assert(picked[i] == i as usize);
        assert(reported(rows[picked[o[k] as int] as int], now, true, r[k]));
        assert(imports_as(r[k], rows[i]));
    }
}

} // verus!
