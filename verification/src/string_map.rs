//! A finite map from strings to strings.
use vstd::prelude::*;

use crate::text::str_eq;

verus! {

/// A finite map from strings to strings; each key occurs once.
pub struct StringMap {
    entries: Vec<(String, String)>,
}

/// No key occurs twice in `e`.
pub open spec fn keys_unique(e: Seq<(String, String)>) -> bool {
    forall|i: int, j: int|
        #![trigger e[i], e[j]]
        0 <= i < e.len() && 0 <= j < e.len() && i != j ==> e[i].0@ != e[j].0@
}

/// Key `k` occurs in `e` at index `i`.
pub open spec fn key_at(e: Seq<(String, String)>, k: Seq<char>, i: int) -> bool {
    0 <= i < e.len() && e[i].0@ == k
}

/// The map that the pairs `e` stand for.
pub open spec fn pairs_map(e: Seq<(String, String)>) -> Map<Seq<char>, Seq<char>> {
    Map::new(
        |k: Seq<char>| exists|i: int| key_at(e, k, i),
        |k: Seq<char>| e[choose|i: int| key_at(e, k, i)].1@,
    )
}

pub proof fn lemma_pairs_map_at(e: Seq<(String, String)>, i: int)
    requires
        keys_unique(e),
        0 <= i < e.len(),
    ensures
        pairs_map(e).contains_key(e[i].0@),
        pairs_map(e)[e[i].0@] == e[i].1@,
{
    let k = e[i].0@;
    assert(key_at(e, k, i));
    let j = choose|j: int| key_at(e, k, j);
    assert(e[j].0@ == e[i].0@);
}

impl View for StringMap {
    type V = Map<Seq<char>, Seq<char>>;

    closed spec fn view(&self) -> Map<Seq<char>, Seq<char>> {
        pairs_map(self.entries@)
    }
}

impl StringMap {
    #[verifier::type_invariant]
    spec fn inv(self) -> bool {
        keys_unique(self.entries@)
    }

    /// The empty map.
    pub fn new() -> (m: Self)
        ensures
            m@ == Map::<Seq<char>, Seq<char>>::empty(),
    {
        let m = StringMap { entries: Vec::new() };
        assert(m@ =~= Map::<Seq<char>, Seq<char>>::empty());
        m
    }

    fn find(e: &Vec<(String, String)>, k: &str) -> (r: Option<usize>)
        ensures
            r matches Some(i) ==> key_at(e@, k@, i as int),
            r is None ==> forall|i: int| !key_at(e@, k@, i),
    {
        let mut i: usize = 0;
        while i < e.len()
            invariant
                0 <= i <= e.len(),
                forall|j: int| 0 <= j < i ==> !key_at(e@, k@, j),
            decreases e.len() - i,
        {
            if str_eq(e[i].0.as_str(), k) {
                return Some(i);
            }
            i = i + 1;
        }
        None
    }

    /// The value at `k`, if any.
    pub fn get(&self, k: &str) -> (r: Option<String>)
        ensures
            r is Some <==> self@.contains_key(k@),
            r matches Some(v) ==> v@ == self@[k@],
    {
        proof {
            use_type_invariant(self);
        }
        match Self::find(&self.entries, k) {
            Some(i) => {
                proof {
                    lemma_pairs_map_at(self.entries@, i as int);
                }
                Some(self.entries[i].1.clone())
            },
            None => None,
        }
    }

    /// Sets `k` to `v`.
    pub fn insert(&mut self, k: String, v: String)
        ensures
            final(self)@ == old(self)@.insert(k@, v@),
    {
        proof {
            use_type_invariant(&*self);
        }
        let ghost old_map = self@;
        let ghost ke = k@;
        let ghost ve = v@;
        let mut e: Vec<(String, String)> = Vec::new();
        std::mem::swap(&mut e, &mut self.entries);
        let ghost old_e = e@;
        match Self::find(&e, k.as_str()) {
            Some(i) => {
                e.set(i, (k, v));
                proof {
                    assert(keys_unique(e@)) by {
                        assert forall|a: int, b: int|
                            0 <= a < e@.len() && 0 <= b < e@.len() && a != b implies #[trigger] e@[a].0@
                            != #[trigger] e@[b].0@ by {
                            if a != i && b != i {
                                assert(old_e[a] == e@[a] && old_e[b] == e@[b]);
                            } else if a == i {
                                assert(old_e[b] == e@[b]);
                                assert(old_e[i as int].0@ == ke);
                            } else {
                                assert(old_e[a] == e@[a]);
                                assert(old_e[i as int].0@ == ke);
                            }
                        }
                    }
                    assert(pairs_map(e@) =~= old_map.insert(ke, ve)) by {
                        assert forall|key: Seq<char>|
                            pairs_map(e@).contains_key(key) <==> old_map.insert(ke, ve).contains_key(
                                key,
                            ) by {
                            if pairs_map(e@).contains_key(key) {
                                let j = choose|j: int| key_at(e@, key, j);
                                if j != i {
                                    assert(key_at(old_e, key, j));
                                }
                            }
                            if old_map.contains_key(key) {
                                let j = choose|j: int| key_at(old_e, key, j);
                                if j != i {
                                    assert(key_at(e@, key, j));
                                } else {
                                    assert(key_at(e@, key, i as int));
                                }
                            }
                            if key == ke {
                                assert(key_at(e@, key, i as int));
                            }
                        }
                        assert forall|key: Seq<char>| #[trigger]
                            pairs_map(e@).contains_key(key) implies pairs_map(e@)[key]
                            == old_map.insert(ke, ve)[key] by {
                            let j = choose|j: int| key_at(e@, key, j);
                            lemma_pairs_map_at(e@, j);
                            if j != i {
                                assert(old_e[j] == e@[j]);
                                lemma_pairs_map_at(old_e, j);
                            }
                        }
                    }
                }
            },
            None => {
                e.push((k, v));
                proof {
                    let n = old_e.len() as int;
                    assert(keys_unique(e@)) by {
                        assert forall|a: int, b: int|
                            0 <= a < e@.len() && 0 <= b < e@.len() && a != b implies #[trigger] e@[a].0@
                            != #[trigger] e@[b].0@ by {
                            if a < n && b < n {
                                assert(old_e[a] == e@[a] && old_e[b] == e@[b]);
                            } else if a == n {
                                assert(old_e[b] == e@[b]);
                                assert(!key_at(old_e, ke, b));
                            } else {
                                assert(old_e[a] == e@[a]);
                                assert(!key_at(old_e, ke, a));
                            }
                        }
                    }
                    assert(pairs_map(e@) =~= old_map.insert(ke, ve)) by {
                        assert forall|key: Seq<char>|
                            pairs_map(e@).contains_key(key) <==> old_map.insert(ke, ve).contains_key(
                                key,
                            ) by {
                            if pairs_map(e@).contains_key(key) {
                                let j = choose|j: int| key_at(e@, key, j);
                                if j < n {
                                    assert(key_at(old_e, key, j));
                                }
                            }
                            if old_map.contains_key(key) {
                                let j = choose|j: int| key_at(old_e, key, j);
                                assert(key_at(e@, key, j));
                            }
                            if key == ke {
                                assert(key_at(e@, key, n));
                            }
                        }
                        assert forall|key: Seq<char>| #[trigger]
                            pairs_map(e@).contains_key(key) implies pairs_map(e@)[key]
                            == old_map.insert(ke, ve)[key] by {
                            let j = choose|j: int| key_at(e@, key, j);
                            lemma_pairs_map_at(e@, j);
                            if j < n {
                                assert(old_e[j] == e@[j]);
                                lemma_pairs_map_at(old_e, j);
                            }
                        }
                    }
                }
            },
        }
        self.entries = e;
    }

    /// Sets every key of `other` to its value there.
    pub fn extend_from(&mut self, other: &StringMap)
        ensures
            final(self)@ == old(self)@.union_prefer_right(other@),
    {
        proof {
            use_type_invariant(other);
        }
        let n = other.entries.len();
        let mut i: usize = 0;
        let ghost start = self@;
        while i < n
            invariant
                n == other.entries@.len(),
                keys_unique(other.entries@),
                0 <= i <= n,
                self@ == start.union_prefer_right(pairs_map(other.entries@.take(i as int))),
            decreases n - i,
        {
            let k = other.entries[i].0.clone();
            let v = other.entries[i].1.clone();
            let ghost before = self@;
            self.insert(k, v);
            proof {
                let e = other.entries@;
                let a = e.take(i as int);
                let b = e.take(i + 1);
                assert(keys_unique(a));
                assert(keys_unique(b));
                assert(b[i as int] == e[i as int]);
                assert(pairs_map(b) =~= pairs_map(a).insert(e[i as int].0@, e[i as int].1@)) by {
                    assert forall|key: Seq<char>|
                        pairs_map(b).contains_key(key) <==> pairs_map(a).insert(
                            e[i as int].0@,
                            e[i as int].1@,
                        ).contains_key(key) by {
                        if pairs_map(b).contains_key(key) {
                            let j = choose|j: int| key_at(b, key, j);
                            if j < i {
                                assert(key_at(a, key, j));
                            }
                        }
                        if pairs_map(a).contains_key(key) {
                            let j = choose|j: int| key_at(a, key, j);
                            assert(key_at(b, key, j));
                        }
                        if key == e[i as int].0@ {
                            assert(key_at(b, key, i as int));
                        }
                    }
                    assert forall|key: Seq<char>| #[trigger]
                        pairs_map(b).contains_key(key) implies pairs_map(b)[key] == pairs_map(
                            a,
                        ).insert(e[i as int].0@, e[i as int].1@)[key] by {
                        let j = choose|j: int| key_at(b, key, j);
                        lemma_pairs_map_at(b, j);
                        if j < i {
                            assert(a[j] == b[j]);
                            lemma_pairs_map_at(a, j);
                        }
                    }
                }
                assert(self@ =~= start.union_prefer_right(pairs_map(b)));
            }
            i = i + 1;
        }
        proof {
            assert(other.entries@.take(n as int) =~= other.entries@);
        }
    }

    /// The pairs of the map, each key once.
    pub fn pairs(&self) -> (r: Vec<(String, String)>)
        ensures
            keys_unique(r@),
            pairs_map(r@) == self@,
    {
        proof {
            use_type_invariant(self);
        }
        let n = self.entries.len();
        let mut r: Vec<(String, String)> = Vec::new();
        let mut i: usize = 0;
        while i < n
            invariant
                n == self.entries@.len(),
                0 <= i <= n,
                r@.len() == i,
                forall|j: int|
                    0 <= j < i ==> (#[trigger] r@[j]).0@ == self.entries@[j].0@ && r@[j].1@
                        == self.entries@[j].1@,
            decreases n - i,
        {
            r.push((self.entries[i].0.clone(), self.entries[i].1.clone()));
            i = i + 1;
        }
        proof {
            let e = self.entries@;
            assert(keys_unique(r@)) by {
                assert forall|a: int, b: int|
                    0 <= a < r@.len() && 0 <= b < r@.len() && a != b implies #[trigger] r@[a].0@
                    != #[trigger] r@[b].0@ by {
                    assert(e[a].0@ != e[b].0@);
                }
            }
            assert(pairs_map(r@) =~= pairs_map(e)) by {
                assert forall|key: Seq<char>|
                    pairs_map(r@).contains_key(key) <==> pairs_map(e).contains_key(key) by {
                    if pairs_map(r@).contains_key(key) {
                        let j = choose|j: int| key_at(r@, key, j);
                        assert(key_at(e, key, j));
                    }
                    if pairs_map(e).contains_key(key) {
                        let j = choose|j: int| key_at(e, key, j);
                        assert(key_at(r@, key, j));
                    }
                }
                assert forall|key: Seq<char>| #[trigger]
                    pairs_map(r@).contains_key(key) implies pairs_map(r@)[key] == pairs_map(
                        e,
                    )[key] by {
                    let j = choose|j: int| key_at(r@, key, j);
                    lemma_pairs_map_at(r@, j);
                    lemma_pairs_map_at(e, j);
                }
            }
        }
        r
    }
}

impl Clone for StringMap {
    fn clone(&self) -> (r: Self)
        ensures
            r@ == self@,
    {
        let mut r = StringMap::new();
        r.extend_from(self);
        assert(r@ =~= self@);
        r
    }
}

} // verus!
