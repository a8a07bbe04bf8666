//! An ordered set of strings: the strings are kept sorted by code point
//! and without duplicates, so iteration visits them in ascending order.
use vstd::prelude::*;
use crate::text::{chars_of, str_eq};

verus! {

/// Lexicographic order on character sequences (by code point).
pub open spec fn lex_lt(a: Seq<char>, b: Seq<char>) -> bool
    decreases a.len(),
{
    if a.len() == 0 {
        b.len() > 0
    } else if b.len() == 0 {
        false
    } else if a[0] != b[0] {
        a[0] < b[0]
    } else {
        lex_lt(a.subrange(1, a.len() as int), b.subrange(1, b.len() as int))
    }
}

pub proof fn lemma_lex_irreflexive(a: Seq<char>)
    ensures
        !lex_lt(a, a),
    decreases a.len(),
{
    if a.len() > 0 {
        lemma_lex_irreflexive(a.subrange(1, a.len() as int));
    }
}

pub proof fn lemma_lex_trichotomy(a: Seq<char>, b: Seq<char>)
    ensures
        a == b || lex_lt(a, b) || lex_lt(b, a),
    decreases a.len(),
{
    if a.len() > 0 && b.len() > 0 {
        if a[0] == b[0] {
            lemma_lex_trichotomy(a.subrange(1, a.len() as int), b.subrange(1, b.len() as int));
            if a.subrange(1, a.len() as int) == b.subrange(1, b.len() as int) {
                assert(a.subrange(1, a.len() as int).len() == b.subrange(1, b.len() as int).len());
                assert(a.len() == b.len());
                assert forall|i: int| 0 <= i < a.len() implies a[i] == b[i] by {
                    if i > 0 {
                        assert(a[i] == a.subrange(1, a.len() as int)[i - 1]);
                        assert(b[i] == b.subrange(1, b.len() as int)[i - 1]);
                    }
                }
                assert(a =~= b);
            }
        }
    } else if a.len() == 0 && b.len() == 0 {
        assert(a =~= b);
    }
}

pub proof fn lemma_lex_transitive(a: Seq<char>, b: Seq<char>, c: Seq<char>)
    requires
        lex_lt(a, b),
        lex_lt(b, c),
    ensures
        lex_lt(a, c),
    decreases a.len(),
{
    if a.len() > 0 && b.len() > 0 && c.len() > 0 && a[0] == b[0] && b[0] == c[0] {
        lemma_lex_transitive(
            a.subrange(1, a.len() as int),
            b.subrange(1, b.len() as int),
            c.subrange(1, c.len() as int),
        );
    }
}

pub proof fn lemma_lex_asymmetric(a: Seq<char>, b: Seq<char>)
    requires
        lex_lt(a, b),
    ensures
        !lex_lt(b, a),
        a != b,
{
    lemma_lex_irreflexive(a);
    if lex_lt(b, a) {
        lemma_lex_transitive(a, b, a);
    }
}

/// Whether `a` sorts strictly before `b`.
pub fn lex_less(a: &str, b: &str) -> (r: bool)
    ensures
        r == lex_lt(a@, b@),
{
    let x = chars_of(a);
    let y = chars_of(b);
    let mut i: usize = 0;
    assert(x@.subrange(0, x@.len() as int) =~= x@);
    assert(y@.subrange(0, y@.len() as int) =~= y@);
    while i < x.len() && i < y.len() && x[i] == y[i]
        invariant
            0 <= i <= x@.len(),
            i <= y@.len(),
            x@ == a@,
            y@ == b@,
            lex_lt(a@, b@) == lex_lt(x@.subrange(i as int, x@.len() as int), y@.subrange(i as int, y@.len() as int)),
        decreases x@.len() - i,
    {
        proof {
            let xs = x@.subrange(i as int, x@.len() as int);
            let ys = y@.subrange(i as int, y@.len() as int);
            assert(xs.subrange(1, xs.len() as int) =~= x@.subrange(i + 1, x@.len() as int));
            assert(ys.subrange(1, ys.len() as int) =~= y@.subrange(i + 1, y@.len() as int));
        }
        i = i + 1;
    }
    proof {
        assert(x@.subrange(0, x@.len() as int) =~= x@);
        assert(y@.subrange(0, y@.len() as int) =~= y@);
    }
    if i == x.len() {
        i < y.len()
    } else if i == y.len() {
        false
    } else {
        let cx = x[i];
        let cy = y[i];
        cx < cy
    }
}

/// A sorted, duplicate-free set of strings.
#[derive(Debug)]
pub struct StringSet {
    items: Vec<String>,
}

/// The string views of a sequence of strings.
pub open spec fn string_views(s: Seq<String>) -> Seq<Seq<char>> {
    s.map_values(|x: String| x@)
}

pub open spec fn sorted_unique(s: Seq<Seq<char>>) -> bool {
    forall|i: int, j: int| 0 <= i < j < s.len() ==> lex_lt(#[trigger] s[i], #[trigger] s[j])
}

impl StringSet {
    /// The members in ascending order.
    pub closed spec fn elems(&self) -> Seq<Seq<char>> {
        string_views(self.items@)
    }

    /// The members as a set.
    pub open spec fn set(&self) -> Set<Seq<char>> {
        self.elems().to_set()
    }

    pub closed spec fn wf(&self) -> bool {
        sorted_unique(self.elems())
    }

    pub fn new() -> (r: Self)
        ensures
            r.wf(),
            r.elems() == Seq::<Seq<char>>::empty(),
    {
        let r = StringSet { items: Vec::new() };
        assert(r.elems() =~= Seq::<Seq<char>>::empty());
        r
    }

    pub fn len(&self) -> (r: usize)
        requires
            self.wf(),
        ensures
            r == self.elems().len(),
            r == self.set().len(),
    {
        proof {
            let e = self.elems();
            assert(e.no_duplicates()) by {
                assert forall|i: int, j: int| 0 <= i < e.len() && 0 <= j < e.len() && i != j implies e[i] != e[j] by {
                    if i < j {
                        lemma_lex_asymmetric(e[i], e[j]);
                    } else {
                        lemma_lex_asymmetric(e[j], e[i]);
                    }
                }
            }
            e.unique_seq_to_set();
        }
        self.items.len()
    }

    /// Adds `s` unless it is already a member.
    pub fn insert(&mut self, s: String)
        requires
            old(self).wf(),
        ensures
            final(self).wf(),
            final(self).set() == old(self).set().insert(s@),
            old(self).set().contains(s@) ==> final(self).elems() == old(self).elems(),
    {
        let ghost before = self.elems();
        let mut k: usize = 0;
        let mut stop = false;
        while k < self.items.len() && !stop
            invariant
                0 <= k <= self.items@.len(),
                self.elems() == before,
                before.len() == self.items@.len(),
                sorted_unique(before),
                forall|i: int| 0 <= i < k ==> lex_lt(#[trigger] before[i], s@),
                stop ==> k < before.len() && !lex_lt(before[k as int], s@),
            decreases self.items@.len() - k, (if stop { 0int } else { 1int }),
        {
            assert(before[k as int] == self.items@[k as int]@);
            if !lex_less(self.items[k].as_str(), s.as_str()) {
                stop = true;
            } else {
                k = k + 1;
            }
        }
        assert(k < before.len() ==> !lex_lt(before[k as int], s@));
        if k < self.items.len() && str_eq(self.items[k].as_str(), s.as_str()) {
            proof {
                assert(before[k as int] == s@);
                assert(before.to_set().contains(s@));
                assert(before.to_set().insert(s@) =~= before.to_set());
            }
            return;
        }
        proof {
            if k < before.len() {
                lemma_lex_trichotomy(before[k as int], s@);
            }
            assert forall|j: int| k <= j < before.len() implies lex_lt(s@, #[trigger] before[j]) by {
                if j > k {
                    assert(lex_lt(before[k as int], before[j]));
                    lemma_lex_transitive(s@, before[k as int], before[j]);
                }
            }
        }
        self.items.insert(k, s);
        proof {
            let after = self.elems();
            assert(after =~= before.insert(k as int, s@));
            assert forall|i: int, j: int| 0 <= i < j < after.len() implies lex_lt(#[trigger] after[i], #[trigger] after[j]) by {
                if j < k {
                } else if i < k && j == k {
                } else if i < k && j > k {
                    lemma_lex_transitive(after[i], s@, after[j]);
                } else if i == k {
                } else {
                }
            }
            assert forall|x: Seq<char>| after.to_set().contains(x) <==> before.to_set().insert(s@).contains(x) by {
                if after.to_set().contains(x) {
                    let w = choose|w: int| 0 <= w < after.len() && after[w] == x;
                    if w < k {
                        assert(before[w] == x);
                    } else if w > k {
                        assert(before[w - 1] == x);
                    }
                }
                if before.to_set().contains(x) {
                    let w = choose|w: int| 0 <= w < before.len() && before[w] == x;
                    if w < k {
                        assert(after[w] == x);
                    } else {
                        assert(after[w + 1] == x);
                    }
                }
                if x == s@ {
                    assert(after[k as int] == x);
                }
            }
            assert(after.to_set() =~= before.to_set().insert(s@));
            if before.to_set().contains(s@) {
                let w = choose|w: int| 0 <= w < before.len() && before[w] == s@;
                if w < k {
                    lemma_lex_irreflexive(s@);
                } else {
                    lemma_lex_irreflexive(s@);
                }
            }
        }
    }

    /// Adds a literal string.
    pub fn insert_str(&mut self, s: &str)
        requires
            old(self).wf(),
        ensures
            final(self).wf(),
            final(self).set() == old(self).set().insert(s@),
            old(self).set().contains(s@) ==> final(self).elems() == old(self).elems(),
    {
        self.insert(s.to_owned());
    }

    /// Whether `s` is a member.
    pub fn contains(&self, s: &str) -> (r: bool)
        ensures
            r == self.set().contains(s@),
    {
        let mut i: usize = 0;
        while i < self.items.len()
            invariant
                0 <= i <= self.items@.len(),
                forall|j: int| 0 <= j < i ==> #[trigger] self.elems()[j] != s@,
            decreases self.items@.len() - i,
        {
            assert(self.elems()[i as int] == self.items@[i as int]@);
            if str_eq(self.items[i].as_str(), s) {
                return true;
            }
            i = i + 1;
        }
        false
    }

    /// The members in ascending order.
    pub fn to_vec(&self) -> (r: Vec<String>)
        requires
            self.wf(),
        ensures
            string_views(r@) == self.elems(),
            sorted_unique(string_views(r@)),
            string_views(r@).to_set() == self.set(),
    {
        let mut out: Vec<String> = Vec::new();
        let mut i: usize = 0;
        while i < self.items.len()
            invariant
                0 <= i <= self.items@.len(),
                string_views(out@) == self.elems().subrange(0, i as int),
            decreases self.items@.len() - i,
        {
            let s = self.items[i].as_str().to_owned();
            assert(s@ == self.elems()[i as int]);
            let ghost old_out = out@;
            out.push(s);
            assert(out@ == old_out.push(s));
            assert(string_views(out@) =~= string_views(old_out).push(s@));
            assert(string_views(out@) =~= self.elems().subrange(0, i + 1));
            i = i + 1;
        }
        assert(self.elems().subrange(0, self.items@.len() as int) =~= self.elems());
        out
    }
}

} // verus!
