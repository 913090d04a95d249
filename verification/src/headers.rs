//! A header mapping: names kept as written (case-sensitive), insertion order
//! preserved, a duplicate name overwriting the earlier value in place.
use vstd::prelude::*;

use crate::text::str_eq_str;

verus! {

/// The value bound to `k` in an association list, searching front to back.
pub open spec fn assoc_get(s: Seq<(Seq<char>, Seq<char>)>, k: Seq<char>) -> Option<Seq<char>>
    decreases s.len(),
{
    if s.len() == 0 {
        None
    } else if s[0].0 == k {
        Some(s[0].1)
    } else {
        assoc_get(s.drop_first(), k)
    }
}

/// The list with `k` bound to `v`: an existing binding is overwritten in
/// place, a new one appended at the end.
pub open spec fn assoc_set(
    s: Seq<(Seq<char>, Seq<char>)>,
    k: Seq<char>,
    v: Seq<char>,
) -> Seq<(Seq<char>, Seq<char>)>
    decreases s.len(),
{
    if s.len() == 0 {
        seq![(k, v)]
    } else if s[0].0 == k {
        seq![(k, v)] + s.drop_first()
    } else {
        seq![s[0]] + assoc_set(s.drop_first(), k, v)
    }
}

/// After setting `k` to `v`, looking `k` up yields `v`.
pub proof fn lemma_assoc_set_get(s: Seq<(Seq<char>, Seq<char>)>, k: Seq<char>, v: Seq<char>)
    ensures
        assoc_get(assoc_set(s, k, v), k) == Some(v),
    decreases s.len(),
{
    if s.len() == 0 {
    } else if s[0].0 == k {
        assert(assoc_set(s, k, v)[0] == (k, v));
    } else {
        lemma_assoc_set_get(s.drop_first(), k, v);
        assert(assoc_set(s, k, v)[0] == s[0]);
        assert(assoc_set(s, k, v).drop_first() =~= assoc_set(s.drop_first(), k, v));
    }
}

/// If `k` is bound at position `i` and nowhere earlier, setting `k` updates
/// that position.
proof fn lemma_assoc_set_found(s: Seq<(Seq<char>, Seq<char>)>, k: Seq<char>, v: Seq<char>, i: int)
    requires
        0 <= i < s.len(),
        s[i].0 == k,
        forall|j: int| 0 <= j < i ==> (#[trigger] s[j]).0 != k,
    ensures
        assoc_set(s, k, v) == s.update(i, (k, v)),
    decreases s.len(),
{
    if s[0].0 == k {
        assert(i == 0);
        assert(assoc_set(s, k, v) =~= s.update(0, (k, v)));
    } else {
        assert(i >= 1);
        assert forall|j: int| 0 <= j < i - 1 implies (#[trigger] s.drop_first()[j]).0 != k by {
            assert(s.drop_first()[j] == s[j + 1]);
        }
        assert(s.drop_first()[i - 1] == s[i]);
        lemma_assoc_set_found(s.drop_first(), k, v, i - 1);
        assert(assoc_set(s, k, v) =~= s.update(i, (k, v)));
    }
}

/// If `k` is bound nowhere, setting `k` appends.
proof fn lemma_assoc_set_missing(s: Seq<(Seq<char>, Seq<char>)>, k: Seq<char>, v: Seq<char>)
    requires
        forall|j: int| 0 <= j < s.len() ==> (#[trigger] s[j]).0 != k,
    ensures
        assoc_set(s, k, v) == s.push((k, v)),
    decreases s.len(),
{
    if s.len() == 0 {
        assert(assoc_set(s, k, v) =~= s.push((k, v)));
    } else {
        assert forall|j: int| 0 <= j < s.drop_first().len() implies (#[trigger] s.drop_first()[j]).0
            != k by {
            assert(s.drop_first()[j] == s[j + 1]);
        }
        lemma_assoc_set_missing(s.drop_first(), k, v);
        assert(assoc_set(s, k, v) =~= s.push((k, v)));
    }
}

/// Header names mapped to values, as written on the wire: case-sensitive,
/// insertion-ordered, one value per name.
#[derive(Debug)]
pub struct HeaderMap {
    entries: Vec<(String, String)>,
}

impl View for HeaderMap {
    type V = Seq<(Seq<char>, Seq<char>)>;

    closed spec fn view(&self) -> Seq<(Seq<char>, Seq<char>)> {
        self.entries@.map_values(|e: (String, String)| (e.0@, e.1@))
    }
}

impl HeaderMap {
    /// A map with no entries.
    pub fn new() -> (r: HeaderMap)
        ensures
            r@ == Seq::<(Seq<char>, Seq<char>)>::empty(),
    {
        let r = HeaderMap { entries: Vec::new() };
        proof {
            assert(r@ =~= Seq::<(Seq<char>, Seq<char>)>::empty());
        }
        r
    }

    /// Number of entries.
    pub fn len(&self) -> (r: usize)
        ensures
            r == self@.len(),
    {
        self.entries.len()
    }

    /// The name at position `i`.
    pub fn key_at(&self, i: usize) -> (r: &String)
        requires
            i < self@.len(),
        ensures
            r@ == self@[i as int].0,
    {
        &self.entries[i].0
    }

    /// The value at position `i`.
    pub fn value_at(&self, i: usize) -> (r: &String)
        requires
            i < self@.len(),
        ensures
            r@ == self@[i as int].1,
    {
        &self.entries[i].1
    }

    /// The value bound to `k`, if any.
    pub fn get(&self, k: &str) -> (r: Option<&String>)
        ensures
            r matches Some(val) ==> assoc_get(self@, k@) == Some(val@),
            r is Some <==> assoc_get(self@, k@) is Some,
    {
        let n = self.entries.len();
        let mut i: usize = 0;
        proof {
            assert(self@.skip(0) =~= self@);
        }
        while i < n
            invariant
                i <= n,
                n == self@.len(),
                assoc_get(self@, k@) == assoc_get(self@.skip(i as int), k@),
            decreases n - i,
        {
            proof {
                assert(self@.skip(i as int)[0] == self@[i as int]);
                assert(self@.skip(i as int).drop_first() =~= self@.skip(i + 1));
            }
            if str_eq_str(self.entries[i].0.as_str(), k) {
                return Some(&self.entries[i].1);
            }
            i = i + 1;
        }
        proof {
            assert(self@.skip(n as int).len() == 0);
        }
        None
    }

    /// Position of the entry for `k`, if any.
    fn index_of_key(&self, k: &str) -> (r: Option<usize>)
        ensures
            r matches Some(i) ==> i < self@.len() && self@[i as int].0 == k@ && (forall|j: int|
                0 <= j < i ==> (#[trigger] self@[j]).0 != k@),
            r is None ==> forall|j: int| 0 <= j < self@.len() ==> (#[trigger] self@[j]).0 != k@,
    {
        let n = self.entries.len();
        let mut i: usize = 0;
        while i < n
            invariant
                i <= n,
                n == self@.len(),
                forall|j: int| 0 <= j < i ==> (#[trigger] self@[j]).0 != k@,
            decreases n - i,
        {
            if str_eq_str(self.entries[i].0.as_str(), k) {
                return Some(i);
            }
            i = i + 1;
        }
        None
    }

    /// Bind `k` to `v`, overwriting any earlier binding in place.
    pub fn insert(&mut self, k: String, v: String)
        ensures
            final(self)@ == assoc_set(old(self)@, k@, v@),
    {
        match self.index_of_key(k.as_str()) {
            Some(i) => {
                proof {
                    lemma_assoc_set_found(self@, k@, v@, i as int);
                }
                self.entries.remove(i);
                self.entries.insert(i, (k, v));
                proof {
                    assert(self@ =~= old(self)@.update(i as int, (k@, v@)));
                }
            },
            None => {
                proof {
                    lemma_assoc_set_missing(self@, k@, v@);
                }
                self.entries.push((k, v));
                proof {
                    assert(self@ =~= old(self)@.push((k@, v@)));
                }
            },
        }
    }

    /// A copy with the same entries.
    pub fn duplicate(&self) -> (r: HeaderMap)
        ensures
            r@ == self@,
    {
        let n = self.entries.len();
        let mut out: Vec<(String, String)> = Vec::new();
        let mut i: usize = 0;
        while i < n
            invariant
                i <= n,
                n == self@.len(),
                out@.len() == i,
                out@.map_values(|e: (String, String)| (e.0@, e.1@)) =~= self@.take(i as int),
            decreases n - i,
        {
            let ghost prev = out@;
            let k = self.entries[i].0.clone();
            let v = self.entries[i].1.clone();
            proof {
                assert(k == self.entries@[i as int].0);
                assert(v == self.entries@[i as int].1);
            }
            out.push((k, v));
            i = i + 1;
            proof {
                let f = |e: (String, String)| (e.0@, e.1@);
                assert(out@.len() == i);
                assert forall|j: int| 0 <= j < i implies out@.map_values(f)[j] == self@.take(
                    i as int,
                )[j] by {
                    assert(out@.map_values(f)[j] == f(out@[j]));
                    if j < i - 1 {
                        assert(out@[j] == prev[j]);
                        assert(prev.map_values(f)[j] == f(prev[j]));
                    } else {
                        assert(out@[j] == (self.entries@[i - 1].0, self.entries@[i - 1].1));
                    }
                }
                assert(out@.map_values(f) =~= self@.take(i as int));
            }
        }
        let r = HeaderMap { entries: out };
        proof {
            assert(self@.take(n as int) =~= self@);
            assert(r@ =~= self@);
        }
        r
    }
}

} // verus!
