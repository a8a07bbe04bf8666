//! Counters keyed by strings, as the audit reports keep them.
//!
//! A counter holds each key once; its meaning is a map from keys to counts
//! (`counts`). Counts saturate at `usize::MAX`.
use vstd::prelude::*;
use crate::text::{owned, str_eq};

verus! {

/// The keys of `s` are pairwise different.
pub open spec fn unique_keys<V>(s: Seq<(String, V)>) -> bool {
    forall|i: int, j: int| 0 <= i < j < s.len() ==> (#[trigger] s[i]).0@ != (#[trigger] s[j]).0@
}

pub open spec fn has_key<V>(s: Seq<(String, V)>, k: Seq<char>) -> bool {
    exists|i: int| 0 <= i < s.len() && (#[trigger] s[i]).0@ == k
}

pub open spec fn key_index<V>(s: Seq<(String, V)>, k: Seq<char>) -> int {
    choose|i: int| 0 <= i < s.len() && (#[trigger] s[i]).0@ == k
}

/// The map that a sequence of keyed entries denotes.
pub open spec fn entries_map<V>(s: Seq<(String, V)>) -> Map<Seq<char>, V> {
    Map::new(|k: Seq<char>| has_key(s, k), |k: Seq<char>| s[key_index(s, k)].1)
}

/// `c + 1`, saturating.
pub open spec fn sat_inc(c: usize) -> usize {
    if c == usize::MAX {
        c
    } else {
        (c + 1) as usize
    }
}

/// `a + b`, saturating.
pub open spec fn sat_sum(a: usize, b: usize) -> usize {
    if a + b > usize::MAX {
        usize::MAX
    } else {
        (a + b) as usize
    }
}

/// The count after `n` more occurrences of `k`.
pub open spec fn added(m: Map<Seq<char>, usize>, k: Seq<char>, n: usize) -> Map<Seq<char>, usize> {
    m.insert(k, sat_sum(if m.contains_key(k) { m[k] } else { 0 }, n))
}

/// The count after one more occurrence of `k`.
pub open spec fn bumped(m: Map<Seq<char>, usize>, k: Seq<char>) -> Map<Seq<char>, usize> {
    m.insert(k, if m.contains_key(k) { sat_inc(m[k]) } else { 1 })
}

proof fn lemma_index_unique<V>(s: Seq<(String, V)>, i: int, k: Seq<char>)
    requires
        unique_keys(s),
        0 <= i < s.len(),
        s[i].0@ == k,
    ensures
        has_key(s, k),
        key_index(s, k) == i,
{
    assert(has_key(s, k));
    let j = key_index(s, k);
    if j != i {
        if j < i {
            assert(s[j].0@ != s[i].0@);
        } else {
            assert(s[i].0@ != s[j].0@);
        }
    }
}

proof fn lemma_update<V>(s: Seq<(String, V)>, i: int, e: (String, V))
    requires
        unique_keys(s),
        0 <= i < s.len(),
        e.0@ == s[i].0@,
    ensures
        unique_keys(s.update(i, e)),
        entries_map(s.update(i, e)) == entries_map(s).insert(e.0@, e.1),
{
    let t = s.update(i, e);
    assert forall|a: int, b: int| 0 <= a < b < t.len() implies (#[trigger] t[a]).0@ != (#[trigger] t[b]).0@ by {
        assert(s[a].0@ != s[b].0@);
    }
    assert forall|k: Seq<char>| has_key(t, k) <==> has_key(s, k) || k == e.0@ by {
        if has_key(t, k) {
            let w = key_index(t, k);
            assert(s[w].0@ == t[w].0@);
        }
        if has_key(s, k) {
            let w = key_index(s, k);
            assert(t[w].0@ == k);
        }
        if k == e.0@ {
            assert(t[i].0@ == k);
        }
    }
    assert forall|k: Seq<char>| #[trigger] entries_map(t).contains_key(k) implies entries_map(t)[k] == entries_map(s).insert(e.0@, e.1)[k] by {
        let w = key_index(t, k);
        lemma_index_unique(t, w, k);
        if k == e.0@ {
            lemma_index_unique(t, i, k);
        } else {
            lemma_index_unique(s, w, k);
        }
    }
    assert(entries_map(t) =~= entries_map(s).insert(e.0@, e.1));
}

proof fn lemma_push<V>(s: Seq<(String, V)>, e: (String, V))
    requires
        unique_keys(s),
        !has_key(s, e.0@),
    ensures
        unique_keys(s.push(e)),
        entries_map(s.push(e)) == entries_map(s).insert(e.0@, e.1),
{
    let t = s.push(e);
    assert forall|a: int, b: int| 0 <= a < b < t.len() implies (#[trigger] t[a]).0@ != (#[trigger] t[b]).0@ by {
        if b == s.len() {
            assert(t[a] == s[a]);
        } else {
            assert(s[a].0@ != s[b].0@);
        }
    }
    assert forall|k: Seq<char>| has_key(t, k) <==> has_key(s, k) || k == e.0@ by {
        if has_key(t, k) {
            let w = key_index(t, k);
            if w < s.len() {
                assert(s[w].0@ == k);
            }
        }
        if has_key(s, k) {
            let w = key_index(s, k);
            assert(t[w].0@ == k);
        }
        if k == e.0@ {
            assert(t[s.len() as int].0@ == k);
        }
    }
    assert forall|k: Seq<char>| #[trigger] entries_map(t).contains_key(k) implies entries_map(t)[k] == entries_map(s).insert(e.0@, e.1)[k] by {
        let w = key_index(t, k);
        lemma_index_unique(t, w, k);
        if k == e.0@ {
            lemma_index_unique(t, s.len() as int, k);
        } else {
            assert(w < s.len());
            lemma_index_unique(s, w, k);
        }
    }
    assert(entries_map(t) =~= entries_map(s).insert(e.0@, e.1));
}

/// Finds the entry with key `key`.
fn position_of<V>(entries: &Vec<(String, V)>, key: &str) -> (r: Option<usize>)
    ensures
        match r {
            Some(i) => i < entries@.len() && entries@[i as int].0@ == key@,
            None => !has_key(entries@, key@),
        },
{
    let mut i: usize = 0;
    while i < entries.len()
        invariant
            0 <= i <= entries@.len(),
            forall|j: int| 0 <= j < i ==> (#[trigger] entries@[j]).0@ != key@,
        decreases entries@.len() - i,
    {
        if str_eq(entries[i].0.as_str(), key) {
            return Some(i);
        }
        i = i + 1;
    }
    None
}

/// Occurrence counts keyed by strings.
#[derive(Debug)]
pub struct CountMap {
    entries: Vec<(String, usize)>,
}

impl CountMap {
    pub closed spec fn wf(&self) -> bool {
        unique_keys(self.entries@)
    }

    /// The count of each key.
    pub closed spec fn counts(&self) -> Map<Seq<char>, usize> {
        entries_map(self.entries@)
    }

    pub fn new() -> (r: Self)
        ensures
            r.wf(),
            r.counts() == Map::<Seq<char>, usize>::empty(),
    {
        let r = CountMap { entries: Vec::new() };
        assert(r.counts() =~= Map::<Seq<char>, usize>::empty());
        r
    }

    /// Counts one more occurrence of `key` (saturating).
    pub fn increment(&mut self, key: &str)
        requires
            old(self).wf(),
        ensures
            final(self).wf(),
            final(self).counts() == bumped(old(self).counts(), key@),
    {
        let ghost s = self.entries@;
        match position_of(&self.entries, key) {
            Some(i) => {
                proof {
                    lemma_index_unique(s, i as int, key@);
                }
                let (k, c) = self.entries.remove(i);
                let next = if c == usize::MAX { c } else { c + 1 };
                self.entries.insert(i, (k, next));
                proof {
                    assert(self.entries@ =~= s.update(i as int, (k, next)));
                    lemma_update(s, i as int, (k, next));
                }
            },
            None => {
                self.entries.push((owned(key), 1));
                proof {
                    lemma_push(s, self.entries@.last());
                }
            },
        }
    }

    /// Counts `n` more occurrences of `key` (saturating).
    pub fn add(&mut self, key: &str, n: usize)
        requires
            old(self).wf(),
        ensures
            final(self).wf(),
            final(self).counts() == added(old(self).counts(), key@, n),
    {
        let ghost s = self.entries@;
        match position_of(&self.entries, key) {
            Some(i) => {
                proof {
                    lemma_index_unique(s, i as int, key@);
                }
                let (k, c) = self.entries.remove(i);
                let next = c.saturating_add(n);
                self.entries.insert(i, (k, next));
                proof {
                    assert(self.entries@ =~= s.update(i as int, (k, next)));
                    lemma_update(s, i as int, (k, next));
                }
            },
            None => {
                self.entries.push((owned(key), n));
                proof {
                    lemma_push(s, self.entries@.last());
                }
            },
        }
    }

    /// Sets the count of `key`.
    pub fn set(&mut self, key: &str, value: usize)
        requires
            old(self).wf(),
        ensures
            final(self).wf(),
            final(self).counts() == old(self).counts().insert(key@, value),
    {
        let ghost s = self.entries@;
        match position_of(&self.entries, key) {
            Some(i) => {
                let (k, _) = self.entries.remove(i);
                self.entries.insert(i, (k, value));
                proof {
                    assert(self.entries@ =~= s.update(i as int, (k, value)));
                    lemma_update(s, i as int, (k, value));
                }
            },
            None => {
                self.entries.push((owned(key), value));
                proof {
                    lemma_push(s, self.entries@.last());
                }
            },
        }
    }

    /// Whether nothing has been counted.
    pub fn is_empty(&self) -> (r: bool)
        ensures
            r == self.counts().is_empty(),
    {
        proof {
            if self.entries@.len() > 0 {
                assert(self.counts().contains_key(self.entries@[0].0@));
            } else {
                assert(self.counts() =~= Map::<Seq<char>, usize>::empty());
            }
        }
        self.entries.len() == 0
    }

    /// The count of `key`, zero when absent.
    pub fn get(&self, key: &str) -> (r: usize)
        requires
            self.wf(),
        ensures
            r == (if self.counts().contains_key(key@) { self.counts()[key@] } else { 0 }),
    {
        match position_of(&self.entries, key) {
            Some(i) => {
                proof {
                    lemma_index_unique(self.entries@, i as int, key@);
                }
                self.entries[i].1
            },
            None => 0,
        }
    }

    /// The entries, each key once.
    pub fn to_vec(&self) -> (r: Vec<(String, usize)>)
        requires
            self.wf(),
        ensures
            unique_keys(r@),
            entries_map(r@) == self.counts(),
    {
        let mut out: Vec<(String, usize)> = Vec::new();
        let mut i: usize = 0;
        while i < self.entries.len()
            invariant
                0 <= i <= self.entries@.len(),
                unique_keys(self.entries@),
                out@.len() == i,
                forall|j: int| 0 <= j < i ==> (#[trigger] out@[j]).0@ == self.entries@[j].0@ && out@[j].1 == self.entries@[j].1,
            decreases self.entries@.len() - i,
        {
            out.push((owned(self.entries[i].0.as_str()), self.entries[i].1));
            i = i + 1;
        }
        proof {
            assert forall|a: int, b: int| 0 <= a < b < out@.len() implies (#[trigger] out@[a]).0@ != (#[trigger] out@[b]).0@ by {
                assert(self.entries@[a].0@ != self.entries@[b].0@);
            }
            assert forall|k: Seq<char>| has_key(out@, k) <==> has_key(self.entries@, k) by {
                if has_key(out@, k) {
                    let w = key_index(out@, k);
                    assert(self.entries@[w].0@ == k);
                }
                if has_key(self.entries@, k) {
                    let w = key_index(self.entries@, k);
                    assert(out@[w].0@ == k);
                }
            }
            assert forall|k: Seq<char>| #[trigger] entries_map(out@).contains_key(k) implies entries_map(out@)[k] == self.counts()[k] by {
                let w = key_index(out@, k);
                lemma_index_unique(out@, w, k);
                lemma_index_unique(self.entries@, w, k);
            }
            assert(entries_map(out@) =~= self.counts());
        }
        out
    }
}

/// Occurrence counts keyed by two strings, grouped by the first.
#[derive(Debug)]
pub struct NestedCountMap {
    entries: Vec<(String, CountMap)>,
}

impl NestedCountMap {
    pub closed spec fn wf(&self) -> bool {
        &&& unique_keys(self.entries@)
        &&& forall|i: int| 0 <= i < self.entries@.len() ==> (#[trigger] self.entries@[i]).1.wf()
    }

    /// The counts of each group.
    pub closed spec fn counts(&self) -> Map<Seq<char>, Map<Seq<char>, usize>> {
        entries_map(self.entries@).map_values(|c: CountMap| c.counts())
    }

    pub fn new() -> (r: Self)
        ensures
            r.wf(),
            r.counts() == Map::<Seq<char>, Map<Seq<char>, usize>>::empty(),
    {
        let r = NestedCountMap { entries: Vec::new() };
        assert(r.counts() =~= Map::<Seq<char>, Map<Seq<char>, usize>>::empty());
        r
    }

    /// Counts one more occurrence of `inner` in group `outer`.
    pub fn increment(&mut self, outer: &str, inner: &str)
        requires
            old(self).wf(),
        ensures
            final(self).wf(),
            final(self).counts() == old(self).counts().insert(
                outer@,
                bumped(
                    if old(self).counts().contains_key(outer@) { old(self).counts()[outer@] } else { Map::empty() },
                    inner@,
                ),
            ),
    {
        let ghost s = self.entries@;
        match position_of(&self.entries, outer) {
            Some(i) => {
                proof {
                    lemma_index_unique(s, i as int, outer@);
                }
                let (k, mut group) = self.entries.remove(i);
                assert(group.wf());
                group.increment(inner);
                let ghost g = group;
                self.entries.insert(i, (k, group));
                proof {
                    assert(self.entries@ =~= s.update(i as int, (k, g)));
                    lemma_update(s, i as int, (k, g));
                    assert(self.counts() =~= old(self).counts().insert(outer@, bumped(old(self).counts()[outer@], inner@)));
                }
            },
            None => {
                let mut group = CountMap::new();
                group.increment(inner);
                self.entries.push((owned(outer), group));
                proof {
                    lemma_push(s, self.entries@.last());
                    assert(self.counts() =~= old(self).counts().insert(outer@, bumped(Map::empty(), inner@)));
                }
            },
        }
    }

    /// The groups, each key once.
    pub fn to_vec(&self) -> (r: Vec<(String, Vec<(String, usize)>)>)
        requires
            self.wf(),
        ensures
            unique_keys(r@),
            forall|k: Seq<char>| has_key(r@, k) <==> self.counts().contains_key(k),
            forall|i: int| 0 <= i < r@.len() ==> #[trigger] entries_map(r@[i].1@) == self.counts()[r@[i].0@],
    {
        let mut out: Vec<(String, Vec<(String, usize)>)> = Vec::new();
        let mut i: usize = 0;
        while i < self.entries.len()
            invariant
                0 <= i <= self.entries@.len(),
                self.wf(),
                out@.len() == i,
                forall|j: int| 0 <= j < i ==> (#[trigger] out@[j]).0@ == self.entries@[j].0@
                    && entries_map(out@[j].1@) == self.entries@[j].1.counts(),
            decreases self.entries@.len() - i,
        {
            assert(self.entries@[i as int].1.wf());
            out.push((owned(self.entries[i].0.as_str()), self.entries[i].1.to_vec()));
            i = i + 1;
        }
        proof {
            assert forall|a: int, b: int| 0 <= a < b < out@.len() implies (#[trigger] out@[a]).0@ != (#[trigger] out@[b]).0@ by {
                assert(self.entries@[a].0@ != self.entries@[b].0@);
            }
            assert forall|k: Seq<char>| has_key(out@, k) <==> self.counts().contains_key(k) by {
                if has_key(out@, k) {
                    let w = key_index(out@, k);
                    assert(self.entries@[w].0@ == k);
                    assert(has_key(self.entries@, k));
                }
                if has_key(self.entries@, k) {
                    let w = key_index(self.entries@, k);
                    assert(out@[w].0@ == k);
                }
            }
            assert forall|j: int| 0 <= j < out@.len() implies #[trigger] entries_map(out@[j].1@) == self.counts()[out@[j].0@] by {
                lemma_index_unique(self.entries@, j, out@[j].0@);
            }
        }
        out
    }
}

} // verus!
