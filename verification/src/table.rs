use vstd::prelude::*;

use crate::text::string_eq_str;

verus! {

/// The map that a sequence of key/value string pairs denotes (a later pair for a key wins).
pub open spec fn pairs_map(s: Seq<(String, String)>) -> Map<Seq<char>, Seq<char>>
    decreases s.len(),
{
    if s.len() == 0 {
        Map::empty()
    } else {
        pairs_map(s.drop_last()).insert(s.last().0@, s.last().1@)
    }
}

/// No key occurs twice among the pairs.
pub open spec fn pair_keys_unique(s: Seq<(String, String)>) -> bool {
    forall|i: int, j: int| 0 <= i < j < s.len() ==> #[trigger] s[i].0@ != #[trigger] s[j].0@
}

/// With unique keys, the map holds exactly the pairs' keys, each with its pair's value.
pub proof fn lemma_pairs_map(s: Seq<(String, String)>)
    requires
        pair_keys_unique(s),
    ensures
        forall|k: Seq<char>|
            #[trigger] pairs_map(s).dom().contains(k) <==> exists|i: int|
                0 <= i < s.len() && s[i].0@ == k,
        forall|i: int| 0 <= i < s.len() ==> #[trigger] pairs_map(s)[s[i].0@] == s[i].1@,
        pairs_map(s).dom().finite(),
        pairs_map(s).dom().len() == s.len(),
    decreases s.len(),
{
    if s.len() > 0 {
        let p = s.drop_last();
        assert(pair_keys_unique(p));
        lemma_pairs_map(p);
        assert(pairs_map(s) == pairs_map(p).insert(s.last().0@, s.last().1@));
        assert(!pairs_map(p).dom().contains(s.last().0@)) by {
            if pairs_map(p).dom().contains(s.last().0@) {
                let i = choose|i: int| 0 <= i < p.len() && p[i].0@ == s.last().0@;
                assert(s[i].0@ == s[s.len() - 1].0@);
            }
        }
        assert forall|k: Seq<char>|
            #[trigger] pairs_map(s).dom().contains(k) <==> exists|i: int|
                0 <= i < s.len() && s[i].0@ == k by {
            if k == s.last().0@ {
                assert(s[s.len() - 1].0@ == k);
            }
            if pairs_map(s).dom().contains(k) && k != s.last().0@ {
                let i = choose|i: int| 0 <= i < p.len() && p[i].0@ == k;
                assert(s[i].0@ == k);
            }
            if exists|i: int| 0 <= i < s.len() && s[i].0@ == k {
                let i = choose|i: int| 0 <= i < s.len() && s[i].0@ == k;
                if i < s.len() - 1 {
                    assert(p[i].0@ == k);
                }
            }
        }
        assert forall|i: int| 0 <= i < s.len() implies #[trigger] pairs_map(s)[s[i].0@] == s[i].1@ by {
            if i < s.len() - 1 {
                assert(p[i] == s[i]);
                assert(s[i].0@ != s[s.len() - 1].0@);
                assert(pairs_map(p)[p[i].0@] == p[i].1@);
            }
        }
    }
}

/// A table from string keys to string values, each key present at most once.
#[derive(Debug)]
pub struct StringTable {
    pairs: Vec<(String, String)>,
}

impl View for StringTable {
    type V = Map<Seq<char>, Seq<char>>;

    closed spec fn view(&self) -> Map<Seq<char>, Seq<char>> {
        pairs_map(self.pairs@)
    }
}

impl StringTable {
    /// The table is well formed: no key occurs twice.
    #[verifier::type_invariant]
    pub closed spec fn wf(&self) -> bool {
        pair_keys_unique(self.pairs@)
    }

    /// A well-formed table holds finitely many keys.
    pub proof fn lemma_finite(&self)
        requires
            self.wf(),
        ensures
            self@.dom().finite(),
    {
        lemma_pairs_map(self.pairs@);
    }

    /// An empty table.
    pub fn new() -> (t: StringTable)
        ensures
            t.wf(),
            t@ == Map::<Seq<char>, Seq<char>>::empty(),
    {
        StringTable { pairs: Vec::new() }
    }

    /// The number of keys.
    pub fn len(&self) -> (n: usize)
        ensures
            n == self@.dom().len(),
    {
        proof {
            use_type_invariant(self);
            lemma_pairs_map(self.pairs@);
        }
        self.pairs.len()
    }

    fn find(&self, key: &str) -> (r: Option<usize>)
        requires
            self.wf(),
        ensures
            r is Some <==> self@.dom().contains(key@),
            r matches Some(i) ==> i < self.pairs@.len() && self.pairs@[i as int].0@ == key@,
    {
        proof {
            lemma_pairs_map(self.pairs@);
        }
        let mut i: usize = 0;
        while i < self.pairs.len()
            invariant
                self.wf(),
                i <= self.pairs@.len(),
                forall|j: int| 0 <= j < i ==> #[trigger] self.pairs@[j].0@ != key@,
            decreases self.pairs@.len() - i,
        {
            if string_eq_str(&self.pairs[i].0, key) {
                proof {
                    lemma_pairs_map(self.pairs@);
                }
                return Some(i);
            }
            i = i + 1;
        }
        None
    }

    /// The value held under a key, if any.
    pub fn get(&self, key: &str) -> (r: Option<&String>)
        ensures
            r is Some <==> self@.dom().contains(key@),
            r matches Some(v) ==> v@ == self@[key@],
    {
        proof {
            use_type_invariant(self);
            lemma_pairs_map(self.pairs@);
        }
        match self.find(key) {
            Some(i) => Some(&self.pairs[i].1),
            None => None,
        }
    }

    /// Sets the value under a key.
    pub fn insert(&mut self, key: String, value: String)
        ensures
            final(self).wf(),
            final(self)@ == old(self)@.insert(key@, value@),
    {
        proof {
            use_type_invariant(&*self);
            lemma_pairs_map(self.pairs@);
        }
        let ghost old_pairs = self.pairs@;
        let found = self.find(key.as_str());
        let mut pairs: Vec<(String, String)> = Vec::new();
        std::mem::swap(&mut pairs, &mut self.pairs);
        match found {
            Some(i) => {
                pairs.set(i, (key, value));
                proof {
                    assert(pairs@ == old_pairs.update(i as int, (key, value)));
                    assert(pair_keys_unique(pairs@)) by {
                        assert forall|x: int, y: int| 0 <= x < y < pairs@.len() implies #[trigger] pairs@[x].0@ != #[trigger] pairs@[y].0@ by {
                            if x != i && y != i {
                                assert(pairs@[x] == old_pairs[x] && pairs@[y] == old_pairs[y]);
                            } else if x == i {
                                assert(pairs@[y] == old_pairs[y]);
                            } else {
                                assert(pairs@[x] == old_pairs[x]);
                            }
                        }
                    }
                }
            },
            None => {
                pairs.push((key, value));
                proof {
                    assert(pair_keys_unique(pairs@)) by {
                        assert forall|x: int, y: int| 0 <= x < y < pairs@.len() implies #[trigger] pairs@[x].0@ != #[trigger] pairs@[y].0@ by {
                            if y == old_pairs.len() {
                                assert(old_pairs[x].0@ != key@);
                            } else {
                                assert(pairs@[x] == old_pairs[x] && pairs@[y] == old_pairs[y]);
                            }
                        }
                    }
                }
            },
        }
        proof {
            let s = pairs@;
            lemma_pairs_map(s);
            let target = pairs_map(old_pairs).insert(key@, value@);
            assert forall|k: Seq<char>| #[trigger] pairs_map(pairs@).dom().contains(k) <==> target.dom().contains(k) by {
                if pairs_map(pairs@).dom().contains(k) {
                    let j = choose|j: int| 0 <= j < s.len() && s[j].0@ == k;
                    if j < old_pairs.len() && k != key@ {
                        assert(old_pairs[j].0@ == k);
                    }
                }
                if target.dom().contains(k) && k != key@ {
                    let j = choose|j: int| 0 <= j < old_pairs.len() && old_pairs[j].0@ == k;
                    assert(s[j].0@ == k);
                }
                if k == key@ {
                    let j = if exists|j: int| 0 <= j < old_pairs.len() && old_pairs[j].0@ == k {
                        choose|j: int| 0 <= j < old_pairs.len() && old_pairs[j].0@ == k
                    } else {
                        old_pairs.len() as int
                    };
                    assert(s[j].0@ == k);
                }
            }
            assert forall|k: Seq<char>| #[trigger] pairs_map(pairs@).dom().contains(k) implies pairs_map(pairs@)[k] == target[k] by {
                let j = choose|j: int| 0 <= j < s.len() && s[j].0@ == k;
                assert(pairs_map(pairs@)[s[j].0@] == s[j].1@);
                if k != key@ {
                    assert(old_pairs[j] == s[j]);
                    assert(pairs_map(old_pairs)[old_pairs[j].0@] == old_pairs[j].1@);
                }
            }
            assert(pairs_map(pairs@) =~= target);
        }
        self.pairs = pairs;
    }

    /// Removes a key and its value, if present.
    pub fn remove(&mut self, key: &str)
        ensures
            final(self).wf(),
            final(self)@ == old(self)@.remove(key@),
    {
        proof {
            use_type_invariant(&*self);
            lemma_pairs_map(self.pairs@);
        }
        let ghost old_pairs = self.pairs@;
        let found = self.find(key);
        let mut pairs: Vec<(String, String)> = Vec::new();
        std::mem::swap(&mut pairs, &mut self.pairs);
        match found {
            Some(i) => {
                let _removed = pairs.remove(i);
                proof {
                    let s = pairs@;
                    assert(s =~= old_pairs.subrange(0, i as int) + old_pairs.subrange(i + 1, old_pairs.len() as int));
                    assert forall|j: int| 0 <= j < s.len() implies #[trigger] s[j] == old_pairs[if j < i { j } else { j + 1 }] by {}
                    assert(pair_keys_unique(s)) by {
                        assert forall|x: int, y: int| 0 <= x < y < s.len() implies #[trigger] s[x].0@ != #[trigger] s[y].0@ by {
                            let ox = if x < i { x } else { x + 1 };
                            let oy = if y < i { y } else { y + 1 };
                            assert(s[x] == old_pairs[ox] && s[y] == old_pairs[oy]);
                        }
                    }
                    lemma_pairs_map(s);
                    let target = pairs_map(old_pairs).remove(key@);
                    assert forall|k: Seq<char>| #[trigger] pairs_map(pairs@).dom().contains(k) <==> target.dom().contains(k) by {
                        if pairs_map(pairs@).dom().contains(k) {
                            let j = choose|j: int| 0 <= j < s.len() && s[j].0@ == k;
                            let oj = if j < i { j } else { j + 1 };
                            assert(s[j] == old_pairs[oj]);
                            assert(old_pairs[oj].0@ != old_pairs[i as int].0@);
                        }
                        if target.dom().contains(k) {
                            let j = choose|j: int| 0 <= j < old_pairs.len() && old_pairs[j].0@ == k;
                            assert(j != i);
                            let nj = if j < i { j } else { j - 1 };
                            assert(s[nj] == old_pairs[j]);
                        }
                    }
                    assert forall|k: Seq<char>| #[trigger] pairs_map(pairs@).dom().contains(k) implies pairs_map(pairs@)[k] == target[k] by {
                        let j = choose|j: int| 0 <= j < s.len() && s[j].0@ == k;
                        let oj = if j < i { j } else { j + 1 };
                        assert(s[j] == old_pairs[oj]);
                        assert(pairs_map(pairs@)[s[j].0@] == s[j].1@);
                        assert(pairs_map(old_pairs)[old_pairs[oj].0@] == old_pairs[oj].1@);
                    }
                    assert(pairs_map(pairs@) =~= target);
                }
            },
            None => {
                proof {
                    assert(pairs_map(pairs@) =~= pairs_map(old_pairs).remove(key@));
                }
            },
        }
        self.pairs = pairs;
    }

    /// Removes every key.
    pub fn clear(&mut self)
        ensures
            final(self).wf(),
            final(self)@ == Map::<Seq<char>, Seq<char>>::empty(),
    {
        self.pairs = Vec::new();
    }
}

impl Clone for StringTable {
    /// A copy of the table with the same keys and values.
    fn clone(&self) -> (r: Self)
        ensures
            r@ == self@,
    {
        proof {
            use_type_invariant(self);
        }
        let mut pairs: Vec<(String, String)> = Vec::new();
        let mut i: usize = 0;
        while i < self.pairs.len()
            invariant
                i <= self.pairs@.len(),
                pairs@ == self.pairs@.take(i as int),
            decreases self.pairs@.len() - i,
        {
            let k = self.pairs[i].0.clone();
            let v = self.pairs[i].1.clone();
            pairs.push((k, v));
            proof {
                assert(pairs@ =~= self.pairs@.take(i + 1));
            }
            i = i + 1;
        }
        proof {
            assert(pairs@ =~= self.pairs@);
        }
        StringTable { pairs }
    }
}

} // verus!
