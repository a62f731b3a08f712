//! A bounded cache of predictions, keyed by prefix, directory and previous command.
use crate::ranking::Suggestion;
use crate::text::{has_prefix, same_text, starts_with, to_owned_string};
use vstd::prelude::*;

verus! {

/// One cached answer.
pub struct CacheEntry {
    pub key: String,
    pub suggestions: Vec<Suggestion>,
}

/// Cached answers, oldest first; inserting into a full cache evicts the oldest.
pub struct PredictionCache {
    pub entries: Vec<CacheEntry>,
    pub max_size: usize,
}

/// The entries without the one keyed `k`.
pub open spec fn without_key(s: Seq<CacheEntry>, k: Seq<char>) -> Seq<CacheEntry>
    decreases s.len(),
{
    if s.len() == 0 {
        Seq::empty()
    } else if s.last().key@ == k {
        without_key(s.drop_last(), k)
    } else {
        without_key(s.drop_last(), k).push(s.last())
    }
}

/// The entries whose key does not start with `p`.
pub open spec fn without_prefix(s: Seq<CacheEntry>, p: Seq<char>) -> Seq<CacheEntry>
    decreases s.len(),
{
    if s.len() == 0 {
        Seq::empty()
    } else if has_prefix(s.last().key@, p) {
        without_prefix(s.drop_last(), p)
    } else {
        without_prefix(s.drop_last(), p).push(s.last())
    }
}

/// No two entries share a key.
pub open spec fn unique_keys(s: Seq<CacheEntry>) -> bool {
    forall|i: int, j: int| 0 <= i < j < s.len() ==> s[i].key@ != s[j].key@
}

proof fn lemma_without_key(s: Seq<CacheEntry>, k: Seq<char>)
    requires
        unique_keys(s),
    ensures
        unique_keys(without_key(s, k)),
        forall|i: int| 0 <= i < without_key(s, k).len() ==> #[trigger] without_key(s, k)[i].key@ != k,
        forall|i: int|
            0 <= i < without_key(s, k).len() ==> s.contains(#[trigger] without_key(s, k)[i]),
    decreases s.len(),
{
    if s.len() > 0 {
        let p = s.drop_last();
        assert(unique_keys(p));
        lemma_without_key(p, k);
        let w = without_key(p, k);
        if s.last().key@ != k {
            assert forall|i: int| 0 <= i < w.len() implies #[trigger] w[i].key@ != s.last().key@ by {
                assert(p.contains(w[i]));
                let j = choose|j: int| 0 <= j < p.len() && p[j] == w[i];
                assert(s[j] == p[j]);
            }
            assert forall|i: int| 0 <= i < w.push(s.last()).len() implies s.contains(
                #[trigger] w.push(s.last())[i],
            ) by {
                if i < w.len() {
                    assert(p.contains(w[i]));
                    let j = choose|j: int| 0 <= j < p.len() && p[j] == w[i];
                    assert(s[j] == w[i]);
                } else {
                    assert(s[s.len() - 1] == s.last());
                }
            }
        } else {
            assert forall|i: int| 0 <= i < w.len() implies s.contains(#[trigger] w[i]) by {
                assert(p.contains(w[i]));
                let j = choose|j: int| 0 <= j < p.len() && p[j] == w[i];
                assert(s[j] == w[i]);
            }
        }
    }
}

proof fn lemma_without_prefix(s: Seq<CacheEntry>, p: Seq<char>)
    requires
        unique_keys(s),
    ensures
        unique_keys(without_prefix(s, p)),
        forall|i: int|
            0 <= i < without_prefix(s, p).len() ==> s.contains(#[trigger] without_prefix(s, p)[i]),
    decreases s.len(),
{
    if s.len() > 0 {
        let q = s.drop_last();
        assert(unique_keys(q));
        lemma_without_prefix(q, p);
        let w = without_prefix(q, p);
        assert forall|i: int| 0 <= i < w.len() implies s.contains(#[trigger] w[i]) by {
            assert(q.contains(w[i]));
            let j = choose|j: int| 0 <= j < q.len() && q[j] == w[i];
            assert(s[j] == w[i]);
        }
        if !has_prefix(s.last().key@, p) {
            assert forall|i: int| 0 <= i < w.len() implies #[trigger] w[i].key@ != s.last().key@ by {
                let j = choose|j: int| 0 <= j < s.len() && s[j] == w[i];
                if j == s.len() - 1 {
                    assert(q.contains(w[i]));
                    let m = choose|m: int| 0 <= m < q.len() && q[m] == w[i];
                    assert(s[m] == w[i]);
                }
            }
            assert(s[s.len() - 1] == s.last());
        }
    }
}

impl PredictionCache {
    /// The cache is consistent: keys are unique.
    pub open spec fn wf(&self) -> bool {
        unique_keys(self.entries@)
    }

    /// The entries after inserting `key` into this cache: the oldest goes when the cache is
    /// full, an earlier entry for `key` goes, and the new entry comes last.
    pub open spec fn after_insert(&self, key: Seq<char>) -> Seq<CacheEntry> {
        let kept = if self.entries@.len() >= self.max_size && self.entries@.len() > 0 {
            self.entries@.drop_first()
        } else {
            self.entries@
        };
        without_key(kept, key)
    }

    pub fn new(max_size: usize) -> (r: Self)
        ensures
            r.wf(),
            r.entries@.len() == 0,
            r.max_size == max_size,
    {
        PredictionCache { entries: Vec::new(), max_size }
    }

    /// The suggestions cached under `key`.
    pub fn get(&self, key: &str) -> (r: Option<Vec<Suggestion>>)
        requires
            self.wf(),
        ensures
            match r {
                Some(v) => exists|i: int|
                    0 <= i < self.entries@.len() && #[trigger] self.entries@[i].key@ == key@
                        && self.entries@[i].suggestions@ == v@,
                None => forall|i: int|
                    0 <= i < self.entries@.len() ==> #[trigger] self.entries@[i].key@ != key@,
            },
    {
        let mut i: usize = 0;
        while i < self.entries.len()
            invariant
                i <= self.entries@.len(),
                forall|j: int| 0 <= j < i ==> #[trigger] self.entries@[j].key@ != key@,
            decreases self.entries@.len() - i,
        {
            if same_text(self.entries[i].key.as_str(), key) {
                return Some(copy_suggestions(&self.entries[i].suggestions));
            }
            i = i + 1;
        }
        None
    }

    /// Number of cached answers.
    pub fn len(&self) -> (r: usize)
        ensures
            r == self.entries@.len(),
    {
        self.entries.len()
    }

    /// Whether an answer is cached under `key`.
    pub fn contains_key(&self, key: &str) -> (r: bool)
        requires
            self.wf(),
        ensures
            r == exists|i: int| 0 <= i < self.entries@.len() && #[trigger] self.entries@[i].key@ == key@,
    {
        self.get(key).is_some()
    }

    /// Caches `suggestions` under `key`, evicting the oldest entry when the cache is full.
    pub fn insert(&mut self, key: String, suggestions: Vec<Suggestion>)
        requires
            old(self).wf(),
        ensures
            final(self).wf(),
            final(self).max_size == old(self).max_size,
            final(self).entries@ == old(self).after_insert(key@).push(
                CacheEntry { key, suggestions },
            ),
    {
        let ghost target = self.after_insert(key@);
        if self.entries.len() >= self.max_size && self.entries.len() > 0 {
            self.entries.remove(0);
            assert(self.entries@ =~= old(self).entries@.drop_first());
        }
        proof {
            assert(unique_keys(self.entries@));
        }
        let ghost base = self.entries@;
        let mut kept: Vec<CacheEntry> = Vec::new();
        let mut rest: Vec<CacheEntry> = Vec::new();
        std::mem::swap(&mut rest, &mut self.entries);
        let n = rest.len();
        let mut i: usize = 0;
        assert(rest@ =~= base.subrange(0, n as int));
        while rest.len() > 0
            invariant
                i <= n,
                n == base.len(),
                rest@ == base.subrange(i as int, n as int),
                kept@ == without_key(base.subrange(0, i as int), key@),
            decreases rest@.len(),
        {
            let e = rest.remove(0);
            assert(e == base[i as int]);
            assert(base.subrange(0, i + 1).drop_last() =~= base.subrange(0, i as int));
            if !same_text(e.key.as_str(), key.as_str()) {
                kept.push(e);
            }
            i = i + 1;
            assert(rest@ =~= base.subrange(i as int, n as int));
        }
        assert(base.subrange(0, n as int) =~= base);
        proof {
            lemma_without_key(base, key@);
        }
        kept.push(CacheEntry { key, suggestions });
        self.entries = kept;
        proof {
            let w = without_key(base, key@);
            assert forall|a: int, b: int| 0 <= a < b < self.entries@.len() implies self.entries@[a].key@
                != self.entries@[b].key@ by {
                if b == self.entries@.len() - 1 {
                    assert(self.entries@[a] == w[a]);
                }
            }
        }
    }

    /// Drops every entry whose key starts with `prefix`.
    pub fn invalidate_prefix(&mut self, prefix: &str)
        requires
            old(self).wf(),
        ensures
            final(self).wf(),
            final(self).max_size == old(self).max_size,
            final(self).entries@ == without_prefix(old(self).entries@, prefix@),
    {
        let ghost base = self.entries@;
        let mut rest: Vec<CacheEntry> = Vec::new();
        std::mem::swap(&mut rest, &mut self.entries);
        let n = rest.len();
        let mut kept: Vec<CacheEntry> = Vec::new();
        let mut i: usize = 0;
        assert(rest@ =~= base.subrange(0, n as int));
        while rest.len() > 0
            invariant
                i <= n,
                n == base.len(),
                rest@ == base.subrange(i as int, n as int),
                kept@ == without_prefix(base.subrange(0, i as int), prefix@),
            decreases rest@.len(),
        {
            let e = rest.remove(0);
            assert(e == base[i as int]);
            assert(base.subrange(0, i + 1).drop_last() =~= base.subrange(0, i as int));
            if !starts_with(e.key.as_str(), prefix) {
                kept.push(e);
            }
            i = i + 1;
            assert(rest@ =~= base.subrange(i as int, n as int));
        }
        assert(base.subrange(0, n as int) =~= base);
        proof {
            lemma_without_prefix(base, prefix@);
        }
        self.entries = kept;
    }
}

/// A field-by-field copy of a suggestion list.
pub fn copy_suggestions(v: &Vec<Suggestion>) -> (r: Vec<Suggestion>)
    ensures
        r@ == v@,
{
    let mut out: Vec<Suggestion> = Vec::new();
    let mut i: usize = 0;
    while i < v.len()
        invariant
            i <= v@.len(),
            out@ == v@.subrange(0, i as int),
        decreases v@.len() - i,
    {
        out.push(Suggestion { cmd: v[i].cmd.clone(), score: v[i].score });
        assert(out@ =~= v@.subrange(0, i + 1));
        i = i + 1;
    }
    assert(out@ =~= v@);
    out
}

/// The key of a prediction: prefix, directory and previous command, separated by `:`.
pub open spec fn cache_key_of(prefix: Seq<char>, cwd: Seq<char>, last: Option<Seq<char>>) -> Seq<
    char,
> {
    prefix + ":"@ + cwd + ":"@ + match last {
        Some(l) => l,
        None => Seq::empty(),
    }
}

/// Caches predictions for repeated requests.
pub struct PredictionEngine {
    pub cache: PredictionCache,
}

impl PredictionEngine {
    pub open spec fn wf(&self) -> bool {
        self.cache.wf()
    }

    /// An engine whose cache holds up to 1000 answers.
    pub fn new() -> (r: Self)
        ensures
            r.wf(),
            r.cache.entries@.len() == 0,
            r.cache.max_size == 1000,
    {
        PredictionEngine { cache: PredictionCache::new(1000) }
    }

    pub fn cache_key(prefix: &str, cwd: &str, last_cmd: Option<&str>) -> (r: String)
        ensures
            r@ == cache_key_of(
                prefix@,
                cwd@,
                match last_cmd {
                    Some(l) => Some(l@),
                    None => None,
                },
            ),
    {
        let k = to_owned_string(prefix).concat(":").concat(cwd).concat(":");
        match last_cmd {
            Some(l) => k.concat(l),
            None => {
                assert(k@ + Seq::<char>::empty() =~= k@);
                k
            },
        }
    }

    /// Cached predictions for this request, if any.
    pub fn get_cached(&self, prefix: &str, cwd: &str, last_cmd: Option<&str>) -> (r: Option<
        Vec<Suggestion>,
    >)
        requires
            self.wf(),
        ensures
            ({
                let k = cache_key_of(
                    prefix@,
                    cwd@,
                    match last_cmd {
                        Some(l) => Some(l@),
                        None => None,
                    },
                );
                match r {
                    Some(v) => exists|i: int|
                        0 <= i < self.cache.entries@.len() && #[trigger] self.cache.entries@[i].key@
                            == k && self.cache.entries@[i].suggestions@ == v@,
                    None => forall|i: int|
                        0 <= i < self.cache.entries@.len() ==> #[trigger] self.cache.entries@[i].key@
                            != k,
                }
            }),
    {
        let key = Self::cache_key(prefix, cwd, last_cmd);
        self.cache.get(key.as_str())
    }

    /// Caches predictions for this request.
    pub fn cache_predictions(
        &mut self,
        prefix: &str,
        cwd: &str,
        last_cmd: Option<&str>,
        suggestions: Vec<Suggestion>,
    )
        requires
            old(self).wf(),
        ensures
            final(self).wf(),
            final(self).cache.entries@.len() > 0,
            final(self).cache.entries@.last().key@ == cache_key_of(
                prefix@,
                cwd@,
                match last_cmd {
                    Some(l) => Some(l@),
                    None => None,
                },
            ),
            final(self).cache.entries@.last().suggestions == suggestions,
    {
        let key = Self::cache_key(prefix, cwd, last_cmd);
        self.cache.insert(key, suggestions);
    }

    /// Forgets cached predictions whose key starts with `prefix`.
    pub fn invalidate_cache(&mut self, prefix: &str)
        requires
            old(self).wf(),
        ensures
            final(self).wf(),
            final(self).cache.entries@ == without_prefix(old(self).cache.entries@, prefix@),
    {
        self.cache.invalidate_prefix(prefix);
    }
}

} // verus!
