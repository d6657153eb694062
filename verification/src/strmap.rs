//! Association containers keyed by strings.
//!
//! The broker keys every cache by an opaque identifier string. These
//! containers store the bindings in a vector with pairwise-distinct keys and
//! present them in contracts as a mathematical `Map<Seq<char>, V>` (or
//! `Set<Seq<char>>` for the set), so callers reason about the bindings and
//! never about the vector.

use vstd::prelude::*;
use crate::strutil::{spec_uuid_eq, uuid_eq};

verus! {

/// Keys of the bindings are pairwise distinct.
pub open spec fn unique_keys<V>(pairs: Seq<(String, V)>) -> bool {
    forall|i: int, j: int| 0 <= i < j < pairs.len() ==> pairs[i].0@ != pairs[j].0@
}

/// The map that a sequence of bindings denotes.
pub open spec fn pairs_as_map<V>(pairs: Seq<(String, V)>) -> Map<Seq<char>, V> {
    Map::new(
        |k: Seq<char>| exists|i: int| 0 <= i < pairs.len() && pairs[i].0@ == k,
        |k: Seq<char>| pairs[choose|i: int| 0 <= i < pairs.len() && pairs[i].0@ == k].1,
    )
}

proof fn lemma_pair_at<V>(pairs: Seq<(String, V)>, i: int)
    requires
        unique_keys(pairs),
        0 <= i < pairs.len(),
    ensures
        pairs_as_map(pairs).dom().contains(pairs[i].0@),
        pairs_as_map(pairs)[pairs[i].0@] == pairs[i].1,
{
    let k = pairs[i].0@;
    assert(pairs_as_map(pairs).dom().contains(k));
    let j = choose|j: int| 0 <= j < pairs.len() && pairs[j].0@ == k;
    assert(j == i);
}

proof fn lemma_view_update<V>(pairs: Seq<(String, V)>, i: int, k: String, v: V)
    requires
        unique_keys(pairs),
        0 <= i < pairs.len(),
        pairs[i].0@ == k@,
    ensures
        unique_keys(pairs.update(i, (k, v))),
        pairs_as_map(pairs.update(i, (k, v))) == pairs_as_map(pairs).insert(k@, v),
{
    let np = pairs.update(i, (k, v));
    assert forall|i2: int, j2: int| 0 <= i2 < j2 < np.len() implies np[i2].0@ != np[j2].0@ by {
        assert(pairs[i2].0@ != pairs[j2].0@);
    }
    let m1 = pairs_as_map(np);
    let m2 = pairs_as_map(pairs).insert(k@, v);
    assert forall|k2: Seq<char>| m1.dom().contains(k2) implies m2.dom().contains(k2) by {
        let j = choose|j: int| 0 <= j < np.len() && np[j].0@ == k2;
        if j != i {
            assert(pairs[j].0@ == k2);
        }
    }
    assert forall|k2: Seq<char>| m2.dom().contains(k2) implies m1.dom().contains(k2) by {
        if k2 == k@ {
            assert(np[i].0@ == k2);
        } else {
            let j = choose|j: int| 0 <= j < pairs.len() && pairs[j].0@ == k2;
            assert(j != i);
            assert(np[j].0@ == k2);
        }
    }
    assert forall|k2: Seq<char>| m1.dom().contains(k2) implies m1[k2] == m2[k2] by {
        let j = choose|j: int| 0 <= j < np.len() && np[j].0@ == k2;
        if k2 == k@ {
            if j != i {
                assert(pairs[j].0@ == k@);
                assert(pairs[i].0@ == k@);
                assert(false);
            }
            assert(m1[k2] == np[i].1);
        } else {
            assert(j != i);
            assert(pairs[j].0@ == k2);
            let j2 = choose|j2: int| 0 <= j2 < pairs.len() && pairs[j2].0@ == k2;
            assert(j2 == j);
            assert(m2[k2] == pairs[j].1);
        }
    }
    assert(m1 =~= m2);
}

proof fn lemma_view_push<V>(pairs: Seq<(String, V)>, k: String, v: V)
    requires
        unique_keys(pairs),
        forall|j: int| 0 <= j < pairs.len() ==> pairs[j].0@ != k@,
    ensures
        unique_keys(pairs.push((k, v))),
        pairs_as_map(pairs.push((k, v))) == pairs_as_map(pairs).insert(k@, v),
{
    let np = pairs.push((k, v));
    let n = pairs.len() as int;
    assert forall|i2: int, j2: int| 0 <= i2 < j2 < np.len() implies np[i2].0@ != np[j2].0@ by {
        if j2 < n {
            assert(pairs[i2].0@ != pairs[j2].0@);
        } else {
            assert(pairs[i2].0@ != k@);
        }
    }
    let m1 = pairs_as_map(np);
    let m2 = pairs_as_map(pairs).insert(k@, v);
    assert forall|k2: Seq<char>| m1.dom().contains(k2) implies m2.dom().contains(k2) by {
        let j = choose|j: int| 0 <= j < np.len() && np[j].0@ == k2;
        if j < n {
            assert(pairs[j].0@ == k2);
        }
    }
    assert forall|k2: Seq<char>| m2.dom().contains(k2) implies m1.dom().contains(k2) by {
        if k2 == k@ {
            assert(np[n].0@ == k2);
        } else {
            let j = choose|j: int| 0 <= j < pairs.len() && pairs[j].0@ == k2;
            assert(np[j].0@ == k2);
        }
    }
    assert forall|k2: Seq<char>| m1.dom().contains(k2) implies m1[k2] == m2[k2] by {
        let j = choose|j: int| 0 <= j < np.len() && np[j].0@ == k2;
        if k2 == k@ {
            if j < n {
                assert(pairs[j].0@ == k@);
                assert(false);
            }
            assert(m1[k2] == np[n].1);
        } else {
            assert(j < n);
            assert(pairs[j].0@ == k2);
            let j2 = choose|j2: int| 0 <= j2 < pairs.len() && pairs[j2].0@ == k2;
            assert(j2 == j);
            assert(m2[k2] == pairs[j].1);
        }
    }
    assert(m1 =~= m2);
}

/// A map from strings to values, with a `Map<Seq<char>, V>` view.
pub struct StrMap<V> {
    pairs: Vec<(String, V)>,
}

impl<V> StrMap<V> {
    /// The bindings in insertion order. Contracts that need the order of the
    /// bindings (not just the map) speak of this sequence.
    pub closed spec fn pairs_seq(&self) -> Seq<(String, V)> {
        self.pairs@
    }

    /// Keys are pairwise distinct; holds of every map this module hands out.
    pub closed spec fn wf(&self) -> bool {
        unique_keys(self.pairs@)
    }

    pub closed spec fn view(&self) -> Map<Seq<char>, V> {
        pairs_as_map(self.pairs@)
    }

    /// Each stored binding is a binding of the map view, and conversely.
    pub proof fn lemma_pairs_in_map(&self)
        requires
            self.wf(),
        ensures
            forall|i: int|
                0 <= i < self.pairs_seq().len() ==> {
                    &&& self@.dom().contains(#[trigger] self.pairs_seq()[i].0@)
                    &&& self@[self.pairs_seq()[i].0@] == self.pairs_seq()[i].1
                },
            forall|k: Seq<char>|
                self@.dom().contains(k) ==> exists|i: int|
                    0 <= i < self.pairs_seq().len() && (#[trigger] self.pairs_seq()[i]).0@ == k,
    {
        assert forall|i: int| 0 <= i < self.pairs_seq().len() implies {
            &&& self@.dom().contains(#[trigger] self.pairs_seq()[i].0@)
            &&& self@[self.pairs_seq()[i].0@] == self.pairs_seq()[i].1
        } by {
            lemma_pair_at(self.pairs@, i);
        }
        assert forall|k: Seq<char>| self@.dom().contains(k) implies exists|i: int|
            0 <= i < self.pairs_seq().len() && (#[trigger] self.pairs_seq()[i]).0@ == k by {
            let j = choose|j: int| 0 <= j < self.pairs@.len() && self.pairs@[j].0@ == k;
            assert((self.pairs_seq()[j]).0@ == k);
        }
    }

    pub fn new() -> (r: StrMap<V>)
        ensures
            r@ == Map::<Seq<char>, V>::empty(),
            r.wf(),
            r.pairs_seq().len() == 0,
    {
        let r = StrMap { pairs: Vec::new() };
        proof {
            assert(r@ =~= Map::<Seq<char>, V>::empty());
        }
        r
    }

    pub fn contains_key(&self, k: &String) -> (r: bool)
        requires
            self.wf(),
        ensures
            r == self@.dom().contains(k@),
    {
        let n = self.pairs.len();
        let mut i: usize = 0;
        while i < n
            invariant
                n == self.pairs@.len(),
                0 <= i <= n,
                forall|j: int| 0 <= j < i ==> self.pairs@[j].0@ != k@,
            decreases n - i,
        {
            if self.pairs[i].0 == *k {
                return true;
            }
            i = i + 1;
        }
        false
    }

    pub fn get<'a>(&'a self, k: &String) -> (r: Option<&'a V>)
        requires
            self.wf(),
        ensures
            match r {
                Some(v) => self@.dom().contains(k@) && *v == self@[k@],
                None => !self@.dom().contains(k@),
            },
    {
        let n = self.pairs.len();
        let mut i: usize = 0;
        while i < n
            invariant
                self.wf(),
                n == self.pairs@.len(),
                0 <= i <= n,
                forall|j: int| 0 <= j < i ==> self.pairs@[j].0@ != k@,
            decreases n - i,
        {
            if self.pairs[i].0 == *k {
                proof {
                    lemma_pair_at(self.pairs@, i as int);
                }
                return Some(&self.pairs[i].1);
            }
            i = i + 1;
        }
        None
    }

    /// Binds `k` to `v`, replacing any earlier binding of `k`.
    pub fn insert(&mut self, k: String, v: V)
        requires
            old(self).wf(),
        ensures
            final(self).wf(),
            final(self)@ == old(self)@.insert(k@, v),
            old(self)@.dom().contains(k@) ==> final(self).pairs_seq().len() == old(
                self,
            ).pairs_seq().len(),
            !old(self)@.dom().contains(k@) ==> {
                &&& final(self).pairs_seq().len() == old(self).pairs_seq().len() + 1
                &&& forall|i: int|
                    0 <= i < old(self).pairs_seq().len() ==> final(self).pairs_seq()[i] == old(
                        self,
                    ).pairs_seq()[i]
            },
    {
        let n = self.pairs.len();
        let mut i: usize = 0;
        while i < n
            invariant
                self.wf(),
                self == old(self),
                n == self.pairs@.len(),
                0 <= i <= n,
                forall|j: int| 0 <= j < i ==> self.pairs@[j].0@ != k@,
            decreases n - i,
        {
            let hit = {
                let pair: &(String, V) = &self.pairs[i];
                String::eq(&pair.0, &k)
            };
            if hit {
                proof {
                    lemma_view_update(self.pairs@, i as int, k, v);
                    lemma_pair_at(self.pairs@, i as int);
                }
                self.pairs[i] = (k, v);
                return ;
            }
            i = i + 1;
        }
        proof {
            lemma_view_push(self.pairs@, k, v);
        }
        self.pairs.push((k, v));
    }
}

impl<V> StrMap<V> {
    /// An upper bound on the character length of every key.
    pub fn max_key_len(&self) -> (r: usize)
        requires
            self.wf(),
        ensures
            forall|k: Seq<char>| self@.dom().contains(k) ==> k.len() <= r,
    {
        let n = self.pairs.len();
        let mut r: usize = 0;
        let mut i: usize = 0;
        while i < n
            invariant
                n == self.pairs@.len(),
                0 <= i <= n,
                forall|j: int| 0 <= j < i ==> (#[trigger] self.pairs@[j]).0@.len() <= r,
            decreases n - i,
        {
            let l = self.pairs[i].0.as_str().unicode_len();
            if l > r {
                r = l;
            }
            i = i + 1;
        }
        proof {
            assert forall|k: Seq<char>| self@.dom().contains(k) implies k.len() <= r by {
                let j = choose|j: int| 0 <= j < self.pairs@.len() && self.pairs@[j].0@ == k;
                assert((self.pairs@[j]).0@.len() <= r);
            }
        }
        r
    }
}

impl<V: Copy> StrMap<V> {
    /// All values, in insertion order of their keys.
    pub fn values(&self) -> (r: Vec<V>)
        requires
            self.wf(),
        ensures
            r@.len() == self.pairs_seq().len(),
            forall|i: int| 0 <= i < r@.len() ==> r@[i] == self.pairs_seq()[i].1,
    {
        let n = self.pairs.len();
        let mut r: Vec<V> = Vec::new();
        let mut i: usize = 0;
        while i < n
            invariant
                n == self.pairs@.len(),
                0 <= i <= n,
                r@.len() == i,
                forall|j: int| 0 <= j < i ==> r@[j] == self.pairs@[j].1,
            decreases n - i,
        {
            r.push(self.pairs[i].1);
            i = i + 1;
        }
        r
    }
}

/// A set of strings, with a `Set<Seq<char>>` view.
pub struct StrSet {
    elems: Vec<String>,
}

impl StrSet {
    pub closed spec fn wf(&self) -> bool {
        forall|i: int, j: int|
            0 <= i < j < self.elems@.len() ==> self.elems@[i]@ != self.elems@[j]@
    }

    pub closed spec fn view(&self) -> Set<Seq<char>> {
        Set::new(
            |k: Seq<char>| exists|i: int| 0 <= i < self.elems@.len() && self.elems@[i]@ == k,
        )
    }

    pub fn new() -> (r: StrSet)
        ensures
            r@ == Set::<Seq<char>>::empty(),
            r.wf(),
    {
        let r = StrSet { elems: Vec::new() };
        proof {
            assert(r@ =~= Set::<Seq<char>>::empty());
        }
        r
    }

    pub fn contains(&self, k: &String) -> (r: bool)
        requires
            self.wf(),
        ensures
            r == self@.contains(k@),
    {
        let n = self.elems.len();
        let mut i: usize = 0;
        while i < n
            invariant
                n == self.elems@.len(),
                0 <= i <= n,
                forall|j: int| 0 <= j < i ==> self.elems@[j]@ != k@,
            decreases n - i,
        {
            if self.elems[i] == *k {
                return true;
            }
            i = i + 1;
        }
        false
    }

    pub fn insert(&mut self, k: String)
        requires
            old(self).wf(),
        ensures
            final(self).wf(),
            final(self)@ == old(self)@.insert(k@),
    {
        if self.contains(&k) {
            proof {
                assert(self@ =~= old(self)@.insert(k@));
            }
            return ;
        }
        let ghost old_elems = self.elems@;
        self.elems.push(k);
        proof {
            let len = self.elems@.len();
            assert forall|k2: Seq<char>| self@.contains(k2) implies old(self)@.insert(
                k@,
            ).contains(k2) by {
                let j = choose|j: int| 0 <= j < len && self.elems@[j]@ == k2;
                if j < len - 1 {
                    assert(old_elems[j]@ == k2);
                }
            }
            assert forall|k2: Seq<char>| old(self)@.insert(k@).contains(k2) implies self@.contains(
                k2,
            ) by {
                if k2 == k@ {
                    assert(self.elems@[len - 1]@ == k2);
                } else {
                    let j = choose|j: int| 0 <= j < old_elems.len() && old_elems[j]@ == k2;
                    assert(self.elems@[j]@ == k2);
                }
            }
            assert(self@ =~= old(self)@.insert(k@));
        }
    }

    /// ASCII-case-insensitive membership: whether some element is the same
    /// UUID as `k` up to case.
    pub fn contains_ci(&self, k: &String) -> (r: bool)
        requires
            self.wf(),
        ensures
            r == exists|e: Seq<char>| #[trigger] self@.contains(e) && spec_uuid_eq(e, k@),
    {
        let n = self.elems.len();
        let mut i: usize = 0;
        while i < n
            invariant
                n == self.elems@.len(),
                0 <= i <= n,
                forall|j: int| 0 <= j < i ==> !spec_uuid_eq((#[trigger] self.elems@[j])@, k@),
            decreases n - i,
        {
            if uuid_eq(&self.elems[i], k) {
                proof {
                    assert(self@.contains(self.elems@[i as int]@));
                }
                return true;
            }
            i = i + 1;
        }
        proof {
            assert forall|e: Seq<char>| #[trigger] self@.contains(e) implies !spec_uuid_eq(
                e,
                k@,
            ) by {
                let j = choose|j: int| 0 <= j < self.elems@.len() && self.elems@[j]@ == e;
                assert(!spec_uuid_eq((self.elems@[j])@, k@));
            }
        }
        false
    }

    /// An upper bound on the character length of every element.
    pub fn max_elem_len(&self) -> (r: usize)
        requires
            self.wf(),
        ensures
            forall|k: Seq<char>| self@.contains(k) ==> k.len() <= r,
    {
        let n = self.elems.len();
        let mut r: usize = 0;
        let mut i: usize = 0;
        while i < n
            invariant
                n == self.elems@.len(),
                0 <= i <= n,
                forall|j: int| 0 <= j < i ==> (#[trigger] self.elems@[j])@.len() <= r,
            decreases n - i,
        {
            let l = self.elems[i].as_str().unicode_len();
            if l > r {
                r = l;
            }
            i = i + 1;
        }
        proof {
            assert forall|k: Seq<char>| self@.contains(k) implies k.len() <= r by {
                let j = choose|j: int| 0 <= j < self.elems@.len() && self.elems@[j]@ == k;
                assert((self.elems@[j])@.len() <= r);
            }
        }
        r
    }

    /// Inserts every element of `other`; afterwards this set is the union.
    pub fn insert_all(&mut self, other: &StrSet)
        requires
            old(self).wf(),
            other.wf(),
        ensures
            final(self).wf(),
            final(self)@ == old(self)@.union(other@),
    {
        let n = other.elems.len();
        let mut i: usize = 0;
        while i < n
            invariant
                self.wf(),
                other.wf(),
                n == other.elems@.len(),
                0 <= i <= n,
                self@ == old(self)@.union(
                    Set::new(
                        |k: Seq<char>| exists|j: int| 0 <= j < i && other.elems@[j]@ == k,
                    ),
                ),
            decreases n - i,
        {
            self.insert(other.elems[i].clone());
            proof {
                assert(self@ =~= old(self)@.union(
                    Set::new(
                        |k: Seq<char>| exists|j: int| 0 <= j < i + 1 && other.elems@[j]@ == k,
                    ),
                ));
            }
            i = i + 1;
        }
        proof {
            assert forall|k: Seq<char>| other@.contains(k) implies Set::new(
                |k2: Seq<char>| exists|j: int| 0 <= j < n && other.elems@[j]@ == k2,
            ).contains(k) by {
            }
            assert(self@ =~= old(self)@.union(other@));
        }
    }

}

} // verus!
