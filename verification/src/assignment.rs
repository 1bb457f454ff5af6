//! The resolved variable assignment: a mapping from variable name to string
//! value, both held as bytes. Values of `bool`-typed variables are the literal
//! strings `true` / `false`. The mapping is stored as an association list with
//! pairwise-distinct keys and is viewed as a `Map<Seq<u8>, Seq<u8>>`.

use vstd::prelude::*;

use crate::bytes::eq_bytes;

verus! {

/// Mathematical reading of an association list: later pairs win.
pub open spec fn map_of(s: Seq<(Vec<u8>, Vec<u8>)>) -> Map<Seq<u8>, Seq<u8>>
    decreases s.len(),
{
    if s.len() == 0 {
        Map::empty()
    } else {
        map_of(s.drop_last()).insert(s.last().0@, s.last().1@)
    }
}

/// Pairwise-distinct keys.
pub open spec fn distinct_keys(s: Seq<(Vec<u8>, Vec<u8>)>) -> bool {
    forall|i: int, j: int| 0 <= i < j < s.len() ==> s[i].0@ != s[j].0@
}

proof fn lemma_map_of_mem(s: Seq<(Vec<u8>, Vec<u8>)>, k: Seq<u8>)
    ensures
        map_of(s).contains_key(k) <==> exists|i: int| 0 <= i < s.len() && s[i].0@ == k,
    decreases s.len(),
{
    if s.len() > 0 {
        lemma_map_of_mem(s.drop_last(), k);
        if s.last().0@ == k {
            assert(s[s.len() - 1].0@ == k);
        } else {
            if exists|i: int| 0 <= i < s.len() && s[i].0@ == k {
                let i = choose|i: int| 0 <= i < s.len() && s[i].0@ == k;
                assert(s.drop_last()[i].0@ == k);
            }
        }
    }
}

proof fn lemma_map_of_get(s: Seq<(Vec<u8>, Vec<u8>)>, i: int)
    requires
        distinct_keys(s),
        0 <= i < s.len(),
    ensures
        map_of(s).contains_key(s[i].0@),
        map_of(s)[s[i].0@] == s[i].1@,
    decreases s.len(),
{
    if i == s.len() - 1 {
    } else {
        assert(distinct_keys(s.drop_last())) by {
            assert(forall|a: int, b: int|
                0 <= a < b < s.drop_last().len() ==> s.drop_last()[a].0@ != s.drop_last()[b].0@);
        }
        lemma_map_of_get(s.drop_last(), i);
        assert(s.drop_last()[i] == s[i]);
        assert(s[i].0@ != s.last().0@);
    }
}

proof fn lemma_map_of_remove(s: Seq<(Vec<u8>, Vec<u8>)>, i: int)
    requires
        distinct_keys(s),
        0 <= i < s.len(),
    ensures
        map_of(s.remove(i)) == map_of(s).remove(s[i].0@),
        distinct_keys(s.remove(i)),
    decreases s.len(),
{
    assert(distinct_keys(s.remove(i))) by {
        assert(forall|a: int, b: int| 0 <= a < b < s.remove(i).len() ==> #[trigger] s.remove(
            i,
        )[a].0@ != #[trigger] s.remove(i)[b].0@) by {
            assert(forall|a: int|
                0 <= a < s.remove(i).len() ==> #[trigger] s.remove(i)[a] == (if a < i {
                    s[a]
                } else {
                    s[a + 1]
                }));
        }
    }
    if i == s.len() - 1 {
        assert(s.remove(i) =~= s.drop_last());
        lemma_map_of_mem(s.drop_last(), s[i].0@);
        assert(forall|a: int| 0 <= a < s.drop_last().len() ==> s.drop_last()[a].0@ != s[i].0@);
        assert(!map_of(s.drop_last()).contains_key(s[i].0@));
        assert(map_of(s.drop_last()) =~= map_of(s.drop_last()).insert(
            s.last().0@,
            s.last().1@,
        ).remove(s[i].0@));
    } else {
        assert(distinct_keys(s.drop_last()));
        lemma_map_of_remove(s.drop_last(), i);
        assert(s.remove(i).drop_last() =~= s.drop_last().remove(i));
        assert(s.remove(i).last() == s.last());
        assert(map_of(s.remove(i)) == map_of(s.drop_last().remove(i)).insert(
            s.last().0@,
            s.last().1@,
        ));
        assert(s[i].0@ != s.last().0@);
        assert(map_of(s.drop_last()).remove(s[i].0@).insert(s.last().0@, s.last().1@) =~= map_of(
            s.drop_last(),
        ).insert(s.last().0@, s.last().1@).remove(s[i].0@));
        assert(s.drop_last()[i] == s[i]);
    }
}

/// A resolved variable assignment, or any name-to-value store with the same
/// shape (the global defaults file uses it too).
pub struct Assignment {
    pairs: Vec<(Vec<u8>, Vec<u8>)>,
}

impl View for Assignment {
    type V = Map<Seq<u8>, Seq<u8>>;

    closed spec fn view(&self) -> Map<Seq<u8>, Seq<u8>> {
        map_of(self.pairs@)
    }
}

impl Assignment {
    /// The association pairs behind the map, for enumeration.
    pub closed spec fn pairs_spec(&self) -> Seq<(Vec<u8>, Vec<u8>)> {
        self.pairs@
    }

    /// Well-formed: no key occurs twice.
    pub closed spec fn wf(&self) -> bool {
        distinct_keys(self.pairs@)
    }

    /// The empty assignment.
    pub fn new() -> (a: Assignment)
        ensures
            a.wf(),
            a@ == Map::<Seq<u8>, Seq<u8>>::empty(),
            a.pairs_spec().len() == 0,
    {
        let a = Assignment { pairs: Vec::new() };
        assert(a@ =~= Map::<Seq<u8>, Seq<u8>>::empty());
        a
    }

    fn find_index(&self, key: &Vec<u8>) -> (r: Option<usize>)
        ensures
            match r {
                Some(i) => i < self.pairs@.len() && self.pairs@[i as int].0@ == key@,
                None => forall|j: int| 0 <= j < self.pairs@.len() ==> self.pairs@[j].0@ != key@,
            },
    {
        let mut i: usize = 0;
        while i < self.pairs.len()
            invariant
                i <= self.pairs@.len(),
                forall|j: int| 0 <= j < i ==> self.pairs@[j].0@ != key@,
            decreases self.pairs@.len() - i,
        {
            if eq_bytes(&self.pairs[i].0, key) {
                return Some(i);
            }
            i += 1;
        }
        None
    }

    /// Look a name up.
    pub fn get(&self, key: &Vec<u8>) -> (r: Option<&Vec<u8>>)
        requires
            self.wf(),
        ensures
            match r {
                Some(v) => self@.contains_key(key@) && v@ == self@[key@],
                None => !self@.contains_key(key@),
            },
    {
        match self.find_index(key) {
            Some(i) => {
                proof {
                    lemma_map_of_get(self.pairs@, i as int);
                }
                Some(&self.pairs[i].1)
            },
            None => {
                proof {
                    lemma_map_of_mem(self.pairs@, key@);
                }
                None
            },
        }
    }

    /// Membership test.
    pub fn contains_key(&self, key: &Vec<u8>) -> (r: bool)
        requires
            self.wf(),
        ensures
            r == self@.contains_key(key@),
    {
        match self.get(key) {
            Some(_) => true,
            None => false,
        }
    }

    /// Bind `key` to `value`, replacing any earlier binding.
    pub fn insert(&mut self, key: Vec<u8>, value: Vec<u8>)
        requires
            old(self).wf(),
        ensures
            final(self).wf(),
            final(self)@ == old(self)@.insert(key@, value@),
    {
        let ghost s0 = self.pairs@;
        match self.find_index(&key) {
            Some(i) => {
                proof {
                    lemma_map_of_remove(s0, i as int);
                }
                self.pairs.remove(i);
                let ghost s1 = self.pairs@;
                proof {
                    assert(forall|j: int| 0 <= j < s1.len() ==> #[trigger] s1[j] == (if j < i {
                        s0[j]
                    } else {
                        s0[j + 1]
                    }));
                    assert(forall|j: int| 0 <= j < s1.len() ==> s1[j].0@ != key@);
                }
                self.pairs.push((key, value));
                proof {
                    assert(self.pairs@.drop_last() =~= s1);
                    assert(map_of(self.pairs@) == map_of(s1).insert(key@, value@));
                    assert(map_of(s0).remove(key@).insert(key@, value@) =~= map_of(s0).insert(
                        key@,
                        value@,
                    ));
                }
            },
            None => {
                self.pairs.push((key, value));
                proof {
                    assert(self.pairs@.drop_last() =~= s0);
                }
            },
        }
    }

    /// Drop the binding of `key`, reporting whether one was there.
    pub fn remove(&mut self, key: &Vec<u8>) -> (was: bool)
        requires
            old(self).wf(),
        ensures
            final(self).wf(),
            final(self)@ == old(self)@.remove(key@),
            was == old(self)@.contains_key(key@),
    {
        let ghost s0 = self.pairs@;
        proof {
            lemma_map_of_mem(s0, key@);
        }
        match self.find_index(key) {
            Some(i) => {
                proof {
                    lemma_map_of_remove(s0, i as int);
                }
                self.pairs.remove(i);
                true
            },
            None => {
                proof {
                    assert(map_of(s0) =~= map_of(s0).remove(key@));
                }
                false
            },
        }
    }

    /// Number of stored pairs; with distinct keys this is the size of the map.
    pub fn num_pairs(&self) -> (r: usize)
        ensures
            r == self.pairs_spec().len(),
    {
        self.pairs.len()
    }

    /// True when nothing is bound.
    pub fn is_empty(&self) -> (r: bool)
        requires
            self.wf(),
        ensures
            r == (self@ == Map::<Seq<u8>, Seq<u8>>::empty()),
            r == (self.pairs_spec().len() == 0),
    {
        let n = self.pairs.len();
        proof {
            if self.pairs@.len() == 0 {
                assert(self@ =~= Map::<Seq<u8>, Seq<u8>>::empty());
            } else {
                lemma_map_of_get(self.pairs@, self.pairs@.len() - 1);
                assert(self@ != Map::<Seq<u8>, Seq<u8>>::empty()) by {
                    assert(self@.contains_key(self.pairs@.last().0@));
                    assert(!Map::<Seq<u8>, Seq<u8>>::empty().contains_key(
                        self.pairs@.last().0@,
                    ));
                }
            }
        }
        n == 0
    }

    /// The pair at position `i`, for enumeration by callers.
    pub fn pair_at(&self, i: usize) -> (r: &(Vec<u8>, Vec<u8>))
        requires
            i < self.pairs_spec().len(),
        ensures
            *r == self.pairs_spec()[i as int],
            self.wf() ==> self@.contains_key(r.0@) && self@[r.0@] == r.1@,
    {
        proof {
            if self.wf() {
                lemma_map_of_get(self.pairs@, i as int);
            }
        }
        &self.pairs[i]
    }
}

} // verus!
