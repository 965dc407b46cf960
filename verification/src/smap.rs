//! A small association map from string keys to values, with insertion order
//! preserved.  The daemon keeps only a handful of windows and variables, so a
//! linear scan is fine; what matters is that every operation carries an exact
//! contract.

use vstd::prelude::*;

verus! {

use vstd::pervasive::VecAdditionalExecFns;

/// Map from string keys (compared by their character sequences) to values.
pub struct StrMap<V> {
    entries: Vec<(String, V)>,
}

impl<V> StrMap<V> {
    /// Well-formed: no two entries share a key.
    pub closed spec fn wf(&self) -> bool {
        forall|i: int, j: int|
            0 <= i < j < self.entries@.len() ==> self.entries@[i].0@ != self.entries@[j].0@
    }

    /// Number of entries.
    pub closed spec fn len_spec(&self) -> nat {
        self.entries@.len()
    }

    /// The keys, in insertion order.
    pub closed spec fn key_seq(&self) -> Seq<Seq<char>> {
        self.entries@.map_values(|e: (String, V)| e.0@)
    }

    /// Whether a key is present.
    pub closed spec fn contains_spec(&self, k: Seq<char>) -> bool {
        exists|i: int| 0 <= i < self.entries@.len() && self.entries@[i].0@ == k
    }

    /// Position of a key (meaningful only when the key is present).
    pub closed spec fn index_of(&self, k: Seq<char>) -> int {
        choose|i: int| 0 <= i < self.entries@.len() && self.entries@[i].0@ == k
    }

    /// The value bound to a key (meaningful only when the key is present).
    pub closed spec fn get_spec(&self, k: Seq<char>) -> V {
        self.entries@[self.index_of(k)].1
    }

    proof fn lemma_at(&self, i: int)
        requires
            self.wf(),
            0 <= i < self.len_spec(),
        ensures
            self.contains_spec(self.key_seq()[i]),
            self.index_of(self.key_seq()[i]) == i,
            self.get_spec(self.key_seq()[i]) == self.entries@[i].1,
    {
        let k = self.key_seq()[i];
        assert(self.entries@[i].0@ == k);
        let j = self.index_of(k);
        assert(0 <= j < self.entries@.len() && self.entries@[j].0@ == k);
        if i < j {
            assert(self.entries@[i].0@ != self.entries@[j].0@);
        } else if j < i {
            assert(self.entries@[j].0@ != self.entries@[i].0@);
        }
    }

    /// The key sequence is as long as the map.
    pub proof fn lemma_len(&self)
        ensures
            self.key_seq().len() == self.len_spec(),
    {
    }

    /// A key is present exactly when the key sequence holds it.
    pub proof fn lemma_key_seq_contains(&self, k: Seq<char>)
        ensures
            self.contains_spec(k) <==> self.key_seq().contains(k),
    {
        if self.contains_spec(k) {
            let i = choose|i: int|
                0 <= i < self.entries@.len() && self.entries@[i].0@ == k;
            assert(self.key_seq()[i] == k);
        }
        if self.key_seq().contains(k) {
            let i = choose|i: int| 0 <= i < self.key_seq().len() && self.key_seq()[i] == k;
            assert(self.entries@[i].0@ == k);
        }
    }

    /// In a well-formed map the key sequence has no repeated key.
    pub proof fn lemma_keys_unique(&self)
        requires
            self.wf(),
        ensures
            forall|i: int, j: int|
                0 <= i < j < self.key_seq().len() ==> self.key_seq()[i] != self.key_seq()[j],
    {
    }

    /// The empty map.
    pub fn new() -> (r: Self)
        ensures
            r.wf(),
            r.len_spec() == 0,
            forall|k: Seq<char>| !r.contains_spec(k),
            r.key_seq() == Seq::<Seq<char>>::empty(),
    {
        let r = StrMap { entries: Vec::new() };
        proof {
            assert(r.key_seq() =~= Seq::<Seq<char>>::empty());
        }
        r
    }

    /// Number of entries.
    pub fn len(&self) -> (r: usize)
        ensures
            r == self.len_spec(),
    {
        self.entries.len()
    }

    /// Whether the map holds the given key.
    pub fn contains_key(&self, k: &String) -> (r: bool)
        ensures
            r == self.contains_spec(k@),
    {
        let n = self.entries.len();
        let mut i: usize = 0;
        while i < n
            invariant
                n == self.entries@.len(),
                i <= n,
                forall|j: int| 0 <= j < i ==> self.entries@[j].0@ != k@,
            decreases n - i,
        {
            if self.entries[i].0.eq(k) {
                return true;
            }
            i += 1;
        }
        false
    }

    /// Look a key up.
    pub fn get<'a>(&'a self, k: &String) -> (r: Option<&'a V>)
        requires
            self.wf(),
        ensures
            match r {
                Some(v) => self.contains_spec(k@) && *v == self.get_spec(k@),
                None => !self.contains_spec(k@),
            },
    {
        let n = self.entries.len();
        let mut i: usize = 0;
        while i < n
            invariant
                self.wf(),
                n == self.entries@.len(),
                i <= n,
                forall|j: int| 0 <= j < i ==> self.entries@[j].0@ != k@,
            decreases n - i,
        {
            if self.entries[i].0.eq(k) {
                proof {
                    self.lemma_at(i as int);
                }
                return Some(&self.entries[i].1);
            }
            i += 1;
        }
        None
    }

    /// Bind a key to a value, replacing any previous binding.  A fresh key is
    /// appended to the key order; a replaced one keeps its place.
    pub fn insert(&mut self, k: String, v: V)
        requires
            old(self).wf(),
        ensures
            final(self).wf(),
            final(self).contains_spec(k@),
            final(self).get_spec(k@) == v,
            forall|x: Seq<char>|
                x != k@ ==> final(self).contains_spec(x) == old(self).contains_spec(x),
            forall|x: Seq<char>|
                x != k@ && old(self).contains_spec(x) ==> final(self).get_spec(x) == old(
                    self,
                ).get_spec(x),
            old(self).contains_spec(k@) ==> final(self).key_seq() == old(self).key_seq(),
            !old(self).contains_spec(k@) ==> final(self).key_seq() == old(self).key_seq().push(
                k@,
            ),
    {
        let ghost old_self = *self;
        let n = self.entries.len();
        let mut i: usize = 0;
        while i < n
            invariant
                *self == old_self,
                old_self == *old(self),
                self.wf(),
                n == self.entries@.len(),
                i <= n,
                forall|j: int| 0 <= j < i ==> self.entries@[j].0@ != k@,
            decreases n - i,
        {
            if self.entries[i].0.eq(&k) {
                proof {
                    self.lemma_at(i as int);
                }
                self.entries.set(i, (k, v));
                proof {
                    assert(self.key_seq() =~= old_self.key_seq());
                    assert forall|x: Seq<char>| #[trigger] self.contains_spec(x)
                        implies old_self.contains_spec(x) || x == k@ by {
                        let j = choose|j: int|
                            0 <= j < self.entries@.len() && self.entries@[j].0@ == x;
                        if j != i {
                            assert(old_self.entries@[j].0@ == x);
                        }
                    };
                    assert forall|x: Seq<char>|
                        x != k@ && old_self.contains_spec(x)
                        implies self.contains_spec(x) && self.get_spec(x)
                        == old_self.get_spec(x) by {
                        let j = old_self.index_of(x);
                        assert(0 <= j < old_self.entries@.len() && old_self.entries@[j].0@
                            == x);
                        assert(j != i);
                        assert(self.entries@[j].0@ == x);
                        self.lemma_at(j);
                        old_self.lemma_at(j);
                    };
                    self.lemma_at(i as int);
                }
                return ;
            }
            i += 1;
        }
        self.entries.push((k, v));
        proof {
            assert(self.key_seq() =~= old_self.key_seq().push(k@));
            assert(self.entries@[n as int].0@ == k@);
            assert forall|x: Seq<char>| #[trigger] self.contains_spec(x)
                implies old_self.contains_spec(x) || x == k@ by {
                let j = choose|j: int| 0 <= j < self.entries@.len() && self.entries@[j].0@ == x;
                if j != n {
                    assert(old_self.entries@[j].0@ == x);
                }
            };
            assert forall|x: Seq<char>|
                x != k@ && old_self.contains_spec(x)
                implies self.contains_spec(x) && self.get_spec(x)
                == old_self.get_spec(x) by {
                let j = old_self.index_of(x);
                assert(0 <= j < old_self.entries@.len() && old_self.entries@[j].0@ == x);
                assert(self.entries@[j].0@ == x);
                self.lemma_at(j);
                old_self.lemma_at(j);
            };
            self.lemma_at(n as int);
        }
    }

    /// Remove a key's binding, returning the value it had.
    pub fn remove(&mut self, k: &String) -> (r: Option<V>)
        requires
            old(self).wf(),
        ensures
            final(self).wf(),
            !final(self).contains_spec(k@),
            forall|x: Seq<char>|
                x != k@ ==> final(self).contains_spec(x) == old(self).contains_spec(x),
            forall|x: Seq<char>|
                x != k@ && old(self).contains_spec(x) ==> final(self).get_spec(x) == old(
                    self,
                ).get_spec(x),
            match r {
                Some(v) => old(self).contains_spec(k@) && v == old(self).get_spec(k@)
                    && final(self).key_seq() == old(self).key_seq().remove(
                    old(self).index_of(k@),
                ),
                None => !old(self).contains_spec(k@) && *final(self) == *old(self),
            },
    {
        let ghost old_self = *self;
        let n = self.entries.len();
        let mut i: usize = 0;
        while i < n
            invariant
                *self == old_self,
                old_self == *old(self),
                self.wf(),
                n == self.entries@.len(),
                i <= n,
                forall|j: int| 0 <= j < i ==> self.entries@[j].0@ != k@,
            decreases n - i,
        {
            if self.entries[i].0.eq(k) {
                proof {
                    self.lemma_at(i as int);
                }
                let e = self.entries.remove(i);
                proof {
                    assert(self.key_seq() =~= old_self.key_seq().remove(i as int));
                    assert forall|x: Seq<char>| #[trigger] self.contains_spec(x)
                        implies old_self.contains_spec(x) && x != k@ by {
                        let j = choose|j: int|
                            0 <= j < self.entries@.len() && self.entries@[j].0@ == x;
                        if j < i {
                            assert(old_self.entries@[j].0@ == x);
                        } else {
                            assert(old_self.entries@[j + 1].0@ == x);
                        }
                    };
                    assert forall|x: Seq<char>|
                        x != k@ && old_self.contains_spec(x)
                        implies self.contains_spec(x) && self.get_spec(x)
                        == old_self.get_spec(x) by {
                        let j = old_self.index_of(x);
                        assert(0 <= j < old_self.entries@.len() && old_self.entries@[j].0@
                            == x);
                        assert(j != i);
                        old_self.lemma_at(j);
                        if j < i {
                            assert(self.entries@[j].0@ == x);
                            self.lemma_at(j);
                        } else {
                            assert(self.entries@[j - 1].0@ == x);
                            self.lemma_at(j - 1);
                        }
                    };
                }
                return Some(e.1);
            }
            i += 1;
        }
        None
    }

    /// The key at a position of the insertion order.
    pub fn key_at<'a>(&'a self, i: usize) -> (r: &'a String)
        requires
            i < self.len_spec(),
        ensures
            r@ == self.key_seq()[i as int],
    {
        &self.entries[i].0
    }

    /// The value at a position of the insertion order.
    pub fn val_at<'a>(&'a self, i: usize) -> (r: &'a V)
        requires
            self.wf(),
            i < self.len_spec(),
        ensures
            *r == self.get_spec(self.key_seq()[i as int]),
            self.contains_spec(self.key_seq()[i as int]),
    {
        proof {
            self.lemma_at(i as int);
        }
        &self.entries[i].1
    }

    /// Check at run time that no key repeats; a map handed in from outside is
    /// accepted only after this test.
    pub fn check_wf(&self) -> (r: bool)
        ensures
            r == self.wf(),
    {
        let n = self.entries.len();
        let mut i: usize = 0;
        while i < n
            invariant
                n == self.entries@.len(),
                i <= n,
                forall|a: int, b: int|
                    0 <= a < b < n && a < i ==> self.entries@[a].0@ != self.entries@[b].0@,
            decreases n - i,
        {
            let mut j: usize = i + 1;
            while j < n
                invariant
                    n == self.entries@.len(),
                    i < j <= n,
                    i < n,
                    forall|b: int| i < b < j ==> self.entries@[i as int].0@ != self.entries@[b].0@,
                decreases n - j,
            {
                if self.entries[j].0.eq(&self.entries[i].0) {
                    return false;
                }
                j += 1;
            }
            i += 1;
        }
        true
    }

    /// A copy of the keys, in insertion order.
    pub fn keys(&self) -> (r: Vec<String>)
        ensures
            r@.map_values(|s: String| s@) == self.key_seq(),
    {
        let n = self.entries.len();
        let mut out: Vec<String> = Vec::new();
        let mut i: usize = 0;
        while i < n
            invariant
                n == self.entries@.len(),
                i <= n,
                out@.len() == i,
                forall|j: int| 0 <= j < i ==> out@[j]@ == self.key_seq()[j],
            decreases n - i,
        {
            out.push(self.entries[i].0.clone());
            i += 1;
        }
        proof {
            assert(out@.map_values(|s: String| s@) =~= self.key_seq());
        }
        out
    }
}

} // verus!
