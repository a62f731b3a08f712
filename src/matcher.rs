//! Matching of query terms against paths: ordered substrings and fuzzy subsequences.
use crate::parser::views;
use vstd::prelude::*;

verus! {

/// What `str::to_lowercase` makes of a string.
pub uninterp spec fn lower_of(s: Seq<char>) -> Seq<char>;

/// Relies on `str::to_lowercase`: full Unicode lower-casing, whose result depends on the
/// characters alone.
#[verifier::external_body]
pub(crate) fn lowercase(s: &str) -> (r: String)
    ensures
        r@ == lower_of(s@),
{
    s.to_lowercase()
}

/// `n` occurs in `h` at position `p`.
pub open spec fn occurs_at(h: Seq<char>, n: Seq<char>, p: int) -> bool {
    0 <= p && p + n.len() <= h.len() && h.subrange(p, p + n.len()) == n
}

/// The first position at or after `from` where `n` occurs in `h`.
pub open spec fn first_at(h: Seq<char>, n: Seq<char>, from: int) -> Option<int>
    decreases h.len() + 1 - from,
{
    if from < 0 || from + n.len() > h.len() {
        None
    } else if occurs_at(h, n, from) {
        Some(from)
    } else {
        first_at(h, n, from + 1)
    }
}

/// The terms occur in `h` one after another, each at or after the end of the one before,
/// starting from position `from`.
pub open spec fn ordered_from(h: Seq<char>, ts: Seq<Seq<char>>, from: int) -> bool
    decreases ts.len(),
{
    if ts.len() == 0 {
        true
    } else {
        match first_at(h, ts[0], from) {
            Some(p) => ordered_from(h, ts.subrange(1, ts.len() as int), p + ts[0].len()),
            None => false,
        }
    }
}

/// The terms as they are compared: lower-cased when the match ignores case.
pub open spec fn needles(terms: Seq<String>, fold: bool) -> Seq<Seq<char>> {
    if fold {
        terms.map_values(|t: String| lower_of(t@))
    } else {
        views(terms)
    }
}

/// Every term occurs in `path`, in order and without overlap.
pub open spec fn ordered_match(path: Seq<char>, terms: Seq<String>, fold: bool) -> bool {
    let h = if fold {
        lower_of(path)
    } else {
        path
    };
    ordered_from(h, needles(terms, fold), 0)
}

fn occurs_at_exec(h: &str, n: &str, p: usize) -> (r: bool)
    requires
        p + n@.len() <= h@.len(),
    ensures
        r == occurs_at(h@, n@, p as int),
{
    let m = n.unicode_len();
    let hl = h.unicode_len();
    let mut j: usize = 0;
    while j < m
        invariant
            j <= m,
            m == n@.len(),
            hl == h@.len(),
            p + m <= hl,
            forall|k: int| 0 <= k < j ==> h@[p + k] == n@[k],
        decreases m - j,
    {
        if h.get_char(p + j) != n.get_char(j) {
            proof {
                assert(h@.subrange(p as int, p + m)[j as int] != n@[j as int]);
            }
            return false;
        }
        j = j + 1;
    }
    assert(h@.subrange(p as int, p + m) =~= n@);
    true
}

/// The first position at or after `from` where `n` occurs in `h`.
fn find_from(h: &str, n: &str, from: usize) -> (r: Option<usize>)
    ensures
        match r {
            Some(p) => first_at(h@, n@, from as int) == Some(p as int),
            None => first_at(h@, n@, from as int).is_none(),
        },
{
    let hl = h.unicode_len();
    let m = n.unicode_len();
    let mut p = from;
    if from > hl {
        return None;
    }
    while m <= hl - p
        invariant
            from <= p <= hl,
            hl == h@.len(),
            m == n@.len(),
            first_at(h@, n@, from as int) == first_at(h@, n@, p as int),
        decreases hl + 1 - p,
    {
        if occurs_at_exec(h, n, p) {
            return Some(p);
        }
        if p == hl {
            assert(first_at(h@, n@, p + 1).is_none());
            return None;
        }
        p = p + 1;
    }
    None
}

proof fn lemma_first_at_occurs(h: Seq<char>, n: Seq<char>, from: int)
    ensures
        match first_at(h, n, from) {
            Some(p) => occurs_at(h, n, p) && from <= p,
            None => true,
        },
    decreases h.len() + 1 - from,
{
    if !(from < 0 || from + n.len() > h.len()) && !occurs_at(h, n, from) {
        lemma_first_at_occurs(h, n, from + 1);
    }
}

/// `n` occurs somewhere in `h`.
pub open spec fn has_text(h: Seq<char>, n: Seq<char>) -> bool {
    first_at(h, n, 0).is_some()
}

pub fn contains_text(h: &str, n: &str) -> (r: bool)
    ensures
        r == has_text(h@, n@),
{
    find_from(h, n, 0).is_some()
}

/// Every term occurs in `path` in order, each match starting at or after the end of the
/// previous one; with `case_insensitive` both sides are lower-cased first.
pub fn matches_ordered_substring(path: &str, terms: &[String], case_insensitive: bool) -> (r:
    bool)
    ensures
        r == ordered_match(path@, terms@, case_insensitive),
{
    let hay = if case_insensitive {
        lowercase(path)
    } else {
        crate::text::to_owned_string(path)
    };
    let ghost ts = needles(terms@, case_insensitive);
    let hl = hay.as_str().unicode_len();
    let mut from: usize = 0;
    let mut i: usize = 0;
    assert(ts.subrange(0, ts.len() as int) =~= ts);
    while i < terms.len()
        invariant
            i <= terms@.len(),
            ts == needles(terms@, case_insensitive),
            ts.len() == terms@.len(),
            from <= hay@.len(),
            hl == hay@.len(),
            ordered_match(path@, terms@, case_insensitive) == ordered_from(
                hay@,
                ts.subrange(i as int, ts.len() as int),
                from as int,
            ),
        decreases terms@.len() - i,
    {
        let needle = if case_insensitive {
            lowercase(terms[i].as_str())
        } else {
            terms[i].clone()
        };
        assert(needle@ == ts[i as int]);
        let ghost rest = ts.subrange(i as int, ts.len() as int);
        assert(rest.subrange(1, rest.len() as int) =~= ts.subrange(i + 1, ts.len() as int));
        proof {
            lemma_first_at_occurs(hay@, needle@, from as int);
        }
        match find_from(hay.as_str(), needle.as_str(), from) {
            Some(p) => {
                from = p + needle.as_str().unicode_len();
            },
            None => {
                return false;
            },
        }
        i = i + 1;
    }
    true
}

/// `nd` is a subsequence of `hay`.
pub open spec fn is_subseq(nd: Seq<char>, hay: Seq<char>) -> bool
    decreases hay.len(),
{
    if nd.len() == 0 {
        true
    } else if hay.len() == 0 {
        false
    } else if hay[0] == nd[0] {
        is_subseq(nd.subrange(1, nd.len() as int), hay.subrange(1, hay.len() as int))
    } else {
        is_subseq(nd, hay.subrange(1, hay.len() as int))
    }
}

/// The lower-cased terms, joined with nothing between them.
pub open spec fn joined_lower(ts: Seq<Seq<char>>) -> Seq<char>
    decreases ts.len(),
{
    if ts.len() == 0 {
        Seq::empty()
    } else {
        joined_lower(ts.drop_last()) + lower_of(ts.last())
    }
}

/// Every character of the joined, lower-cased terms appears in order in the lower-cased path.
pub open spec fn fuzzy_match(path: Seq<char>, terms: Seq<String>) -> bool {
    is_subseq(joined_lower(views(terms)), lower_of(path))
}

/// The terms joined with nothing between them.
pub open spec fn joined(ts: Seq<Seq<char>>) -> Seq<char>
    decreases ts.len(),
{
    if ts.len() == 0 {
        Seq::empty()
    } else {
        joined(ts.drop_last()) + ts.last()
    }
}

proof fn lemma_joined_lower(low: Seq<Seq<char>>, ts: Seq<Seq<char>>)
    requires
        low.len() == ts.len(),
        forall|i: int| 0 <= i < ts.len() ==> #[trigger] low[i] == lower_of(ts[i]),
    ensures
        joined(low) == joined_lower(ts),
    decreases ts.len(),
{
    if ts.len() > 0 {
        lemma_joined_lower(low.drop_last(), ts.drop_last());
    }
}

/// One pass over an already lower-cased path that consumes the characters of the already
/// lower-cased terms in turn: whether their concatenation is a subsequence of the path.
pub fn fuzzy_match_lowered(path: &str, terms: &[String]) -> (r: bool)
    ensures
        r == is_subseq(joined(views(terms@)), path@),
{
    let mut nd: Vec<char> = Vec::new();
    let mut t: usize = 0;
    while t < terms.len()
        invariant
            t <= terms@.len(),
            nd@ == joined(views(terms@).subrange(0, t as int)),
        decreases terms@.len() - t,
    {
        let term = terms[t].as_str();
        let ghost before = nd@;
        let m = term.unicode_len();
        let mut j: usize = 0;
        while j < m
            invariant
                j <= m,
                m == term@.len(),
                nd@ == before + term@.subrange(0, j as int),
            decreases m - j,
        {
            nd.push(term.get_char(j));
            assert(nd@ =~= before + term@.subrange(0, j + 1));
            j = j + 1;
        }
        proof {
            let vs = views(terms@).subrange(0, t + 1);
            assert(vs.drop_last() =~= views(terms@).subrange(0, t as int));
            assert(vs.last() == terms@[t as int]@);
            assert(term@.subrange(0, m as int) =~= term@);
        }
        t = t + 1;
    }
    assert(views(terms@).subrange(0, terms@.len() as int) =~= views(terms@));
    let hl = path.unicode_len();
    let nl = nd.len();
    let mut i: usize = 0;
    let mut p: usize = 0;
    assert(nd@.subrange(0, nl as int) =~= nd@);
    assert(path@.subrange(0, hl as int) =~= path@);
    while i < nl && p < hl
        invariant
            i <= nl,
            p <= hl,
            nl == nd@.len(),
            hl == path@.len(),
            is_subseq(nd@, path@) == is_subseq(
                nd@.subrange(i as int, nl as int),
                path@.subrange(p as int, hl as int),
            ),
        decreases hl - p,
    {
        proof {
            let a = nd@.subrange(i as int, nl as int);
            let b = path@.subrange(p as int, hl as int);
            assert(a.subrange(1, a.len() as int) =~= nd@.subrange(i + 1, nl as int));
            assert(b.subrange(1, b.len() as int) =~= path@.subrange(p + 1, hl as int));
        }
        if path.get_char(p) == nd[i] {
            i = i + 1;
        }
        p = p + 1;
    }
    i == nl
}

/// Fuzzy match: lower-cases the path and each term, then matches them with
/// `fuzzy_match_lowered`.
pub fn matches_fuzzy(path: &str, terms: &[String]) -> (r: bool)
    ensures
        r == fuzzy_match(path@, terms@),
{
    let hay = lowercase(path);
    let mut low: Vec<String> = Vec::new();
    let mut t: usize = 0;
    while t < terms.len()
        invariant
            t <= terms@.len(),
            low@.len() == t,
            forall|i: int| 0 <= i < t ==> #[trigger] low@[i]@ == lower_of(terms@[i]@),
        decreases terms@.len() - t,
    {
        low.push(lowercase(terms[t].as_str()));
        t = t + 1;
    }
    proof {
        lemma_joined_lower(views(low@), views(terms@));
    }
    fuzzy_match_lowered(hay.as_str(), low.as_slice())
}

} // verus!
