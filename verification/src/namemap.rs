//! A map from names to values that is kept in name order.
//!
//! The entries live in a vector whose keys strictly increase, so a key
//! occurs at most once and walking the map by index visits the keys in
//! their lexicographic order.
//!
//! The ordered map of the standard library would do the same work, but
//! what `vstd` states of it holds only for keys whose comparison it has
//! laws for, and it has none for texts. Here the order of the names is
//! defined in [`crate::names`] and the order of the entries is part of the
//! invariant of the map, so that the order in which a map is walked can be
//! stated and proved.

use crate::names::{
    lemma_name_lt_irreflexive, lemma_name_lt_total, lemma_name_lt_transitive, name_before,
    name_lt, names_of, Name,
};
use vstd::prelude::*;

verus! {

/// Every element is before every later one.
pub open spec fn strictly_sorted(s: Seq<Name>) -> bool {
    forall|i: int, j: int| 0 <= i < j < s.len() ==> name_lt(#[trigger] s[i], #[trigger] s[j])
}

/// A strictly sorted sequence holds no name twice.
pub proof fn lemma_sorted_no_duplicates(s: Seq<Name>)
    requires
        strictly_sorted(s),
    ensures
        s.no_duplicates(),
{
    assert forall|i: int, j: int| 0 <= i < s.len() && 0 <= j < s.len() && i != j implies s[i]
        != s[j] by {
        lemma_name_lt_irreflexive(s[i]);
        if i < j {
            assert(name_lt(s[i], s[j]));
        } else {
            assert(name_lt(s[j], s[i]));
        }
    }
}

/// In a strictly sorted sequence a name is found at one index only.
pub proof fn lemma_sorted_index_of(s: Seq<Name>, i: int)
    requires
        strictly_sorted(s),
        0 <= i < s.len(),
    ensures
        s.contains(s[i]),
        s.index_of(s[i]) == i,
{
    lemma_sorted_no_duplicates(s);
    assert(s.contains(s[i]));
    let j = s.index_of(s[i]);
    assert(0 <= j < s.len() && s[j] == s[i]);
}

/// A map from names to values, kept in name order.
#[derive(Debug, PartialEq, Eq)]
pub struct NameMap<V: View> {
    entries: Vec<(String, V)>,
}

impl<V: View> View for NameMap<V> {
    type V = Map<Name, V::V>;

    /// The map from each key to the model of its value.
    open spec fn view(&self) -> Map<Name, V::V> {
        Map::new(
            |k: Name| self.names().contains(k),
            |k: Name| self.vals()[self.names().index_of(k)],
        )
    }
}

impl<V: View> NameMap<V> {
    /// The keys, in the order in which the map holds them.
    pub closed spec fn names(&self) -> Seq<Name> {
        Seq::new(self.entries@.len(), |i: int| self.entries@[i].0@)
    }

    /// The models of the values, each at the index of its key.
    pub closed spec fn vals(&self) -> Seq<V::V> {
        Seq::new(self.entries@.len(), |i: int| self.entries@[i].1@)
    }

    /// The keys strictly increase, and each key has its value.
    #[verifier::type_invariant]
    pub open spec fn wf(&self) -> bool {
        &&& strictly_sorted(self.names())
        &&& self.names().len() == self.vals().len()
    }

    /// At index `i` stands the key `names()[i]` with the value `vals()[i]`.
    pub proof fn lemma_entry(&self, i: int)
        requires
            self.wf(),
            0 <= i < self.names().len(),
        ensures
            self@.contains_key(self.names()[i]),
            self@[self.names()[i]] == self.vals()[i],
    {
        lemma_sorted_index_of(self.names(), i);
    }

    /// An empty map.
    pub fn new() -> (r: Self)
        ensures
            r@ == Map::<Name, V::V>::empty(),
            r.names() == Seq::<Name>::empty(),
    {
        let r = NameMap { entries: Vec::new() };
        assert(r.names() =~= Seq::<Name>::empty());
        assert(r@ =~= Map::<Name, V::V>::empty());
        r
    }

    /// The number of entries.
    pub fn len(&self) -> (n: usize)
        ensures
            n == self.names().len(),
            n == self.vals().len(),
            self.wf(),
    {
        proof {
            use_type_invariant(self);
        }
        self.entries.len()
    }

    /// Whether the map holds no entry.
    pub fn is_empty(&self) -> (r: bool)
        ensures
            r == (self.names().len() == 0),
            r == (self@ == Map::<Name, V::V>::empty()),
    {
        let r = self.entries.len() == 0;
        proof {
            if r {
                assert(self@ =~= Map::<Name, V::V>::empty());
            } else {
                assert(self.names().contains(self.names()[0]));
                assert(self@.contains_key(self.names()[0]));
            }
        }
        r
    }

    /// The index at which `key` stands, or at which it would have to be
    /// inserted to keep the order.
    fn slot(&self, key: &str) -> (r: (usize, bool))
        ensures
            r.0 <= self.names().len(),
            forall|j: int| 0 <= j < r.0 ==> name_lt(#[trigger] self.names()[j], key@),
            forall|j: int|
                r.0 < j < self.names().len() ==> name_lt(key@, #[trigger] self.names()[j]),
            r.1 ==> r.0 < self.names().len() && self.names()[r.0 as int] == key@,
            !r.1 ==> (r.0 < self.names().len() ==> name_lt(key@, self.names()[r.0 as int])),
            r.1 == self.names().contains(key@),
    {
        proof {
            use_type_invariant(self);
        }
        let mut lo: usize = 0;
        let mut hi: usize = self.entries.len();
        while lo < hi
            invariant
                self.wf(),
                lo <= hi <= self.names().len(),
                self.names().len() == self.entries@.len(),
                forall|j: int| 0 <= j < lo ==> name_lt(#[trigger] self.names()[j], key@),
                forall|j: int|
                    hi <= j < self.names().len() ==> name_lt(key@, #[trigger] self.names()[j]),
            decreases hi - lo,
        {
            let mid = lo + (hi - lo) / 2;
            let k = self.entries[mid].0.as_str();
            assert(k@ == self.names()[mid as int]);
            if name_before(k, key) {
                proof {
                    assert forall|j: int| 0 <= j < mid + 1 implies name_lt(
                        #[trigger] self.names()[j],
                        key@,
                    ) by {
                        if j < mid {
                            assert(name_lt(self.names()[j], self.names()[mid as int]));
                            lemma_name_lt_transitive(
                                self.names()[j],
                                self.names()[mid as int],
                                key@,
                            );
                        }
                    }
                }
                lo = mid + 1;
            } else if name_before(key, k) {
                proof {
                    assert forall|j: int| mid <= j < self.names().len() implies name_lt(
                        key@,
                        #[trigger] self.names()[j],
                    ) by {
                        if mid < j {
                            assert(name_lt(self.names()[mid as int], self.names()[j]));
                            lemma_name_lt_transitive(
                                key@,
                                self.names()[mid as int],
                                self.names()[j],
                            );
                        }
                    }
                }
                hi = mid;
            } else {
                proof {
                    lemma_name_lt_total(k@, key@);
                    assert forall|j: int| 0 <= j < mid implies name_lt(
                        #[trigger] self.names()[j],
                        key@,
                    ) by {
                        assert(name_lt(self.names()[j], self.names()[mid as int]));
                    }
                    assert forall|j: int| mid < j < self.names().len() implies name_lt(
                        key@,
                        #[trigger] self.names()[j],
                    ) by {
                        assert(name_lt(self.names()[mid as int], self.names()[j]));
                    }
                    assert(self.names().contains(key@));
                }
                return (mid, true);
            }
        }
        proof {
            if self.names().contains(key@) {
                let j = choose|j: int| 0 <= j < self.names().len() && self.names()[j] == key@;
                lemma_name_lt_irreflexive(key@);
                if j < lo {
                    assert(name_lt(self.names()[j], key@));
                } else {
                    assert(name_lt(key@, self.names()[j]));
                }
            }
        }
        (lo, false)
    }

    /// Whether `key` has an entry.
    pub fn contains_key(&self, key: &str) -> (r: bool)
        ensures
            r == self@.contains_key(key@),
    {
        let (_, found) = self.slot(key);
        found
    }

    /// The index of `key` in the order of the keys, if it has an entry.
    pub fn index_of(&self, key: &str) -> (r: Option<usize>)
        ensures
            match r {
                Some(i) => i < self.names().len() && self.names()[i as int] == key@,
                None => !self@.contains_key(key@),
            },
    {
        let (i, found) = self.slot(key);
        if found {
            Some(i)
        } else {
            None
        }
    }

    /// The value stored under `key`, if any.
    pub fn get(&self, key: &str) -> (r: Option<&V>)
        ensures
            match r {
                Some(v) => self@.contains_key(key@) && v@ == self@[key@],
                None => !self@.contains_key(key@),
            },
    {
        proof {
            use_type_invariant(self);
        }
        let (i, found) = self.slot(key);
        if found {
            proof {
                self.lemma_entry(i as int);
            }
            Some(&self.entries[i].1)
        } else {
            None
        }
    }

    /// The key at index `i` of the order.
    pub fn key_at(&self, i: usize) -> (r: &String)
        requires
            i < self.names().len(),
        ensures
            r@ == self.names()[i as int],
            self@.contains_key(r@),
    {
        proof {
            use_type_invariant(self);
            self.lemma_entry(i as int);
        }
        &self.entries[i].0
    }

    /// The value at index `i` of the order.
    pub fn value_at(&self, i: usize) -> (r: &V)
        requires
            i < self.names().len(),
        ensures
            r@ == self.vals()[i as int],
            r@ == self@[self.names()[i as int]],
    {
        proof {
            use_type_invariant(self);
            self.lemma_entry(i as int);
        }
        &self.entries[i].1
    }

    /// Stores `value` under `key` and gives back the value that was there.
    pub fn insert(&mut self, key: String, value: V) -> (r: Option<V>)
        ensures
            final(self)@ == old(self)@.insert(key@, value@),
            match r {
                Some(v) => old(self)@.contains_key(key@) && v@ == old(self)@[key@],
                None => !old(self)@.contains_key(key@),
            },
    {
        proof {
            use_type_invariant(&*self);
        }
        let (i, found) = self.slot(key.as_str());
        let ghost old_names = self.names();
        let ghost old_vals = self.vals();
        let ghost old_view = self@;
        let mut entries: Vec<(String, V)> = Vec::new();
        core::mem::swap(&mut self.entries, &mut entries);
        assert(entries@.len() == old_names.len());
        assert(forall|j: int| 0 <= j < entries@.len() ==> entries@[j].0@ == #[trigger] old_names[j]);
        assert(forall|j: int| 0 <= j < entries@.len() ==> entries@[j].1@ == #[trigger] old_vals[j]);
        let r = if found {
            let mut pair = (key, value);
            let ghost value_view = pair.1@;
            core::mem::swap(&mut entries[i], &mut pair);
            Some(pair.1)
        } else {
            entries.insert(i, (key, value));
            None
        };
        let ghost new_names = Seq::new(entries@.len(), |j: int| entries@[j].0@);
        let ghost new_vals = Seq::new(entries@.len(), |j: int| entries@[j].1@);
        proof {
            if found {
                assert(new_names =~= old_names);
                assert(new_vals =~= old_vals.update(i as int, value@));
            } else {
                assert(new_names =~= old_names.insert(i as int, key@));
                assert(new_vals =~= old_vals.insert(i as int, value@));
                assert forall|a: int, b: int| 0 <= a < b < new_names.len() implies name_lt(
                    #[trigger] new_names[a],
                    #[trigger] new_names[b],
                ) by {
                    if a == i {
                        assert(new_names[b] == old_names[b - 1]);
                    } else if b == i {
                        assert(new_names[a] == old_names[a]);
                    } else {
                        let a0 = if a < i { a } else { a - 1 };
                        let b0 = if b < i { b } else { b - 1 };
                        assert(name_lt(old_names[a0], old_names[b0]));
                    }
                }
            }
            assert(strictly_sorted(new_names));
        }
        self.entries = entries;
        proof {
            assert(self.names() =~= new_names);
            assert(self.vals() =~= new_vals);
            lemma_sorted_no_duplicates(old_names);
            lemma_sorted_no_duplicates(new_names);
            assert forall|k: Name| #[trigger] self@.contains_key(k) <==> old_view.insert(
                key@,
                value@,
            ).contains_key(k) by {
                if new_names.contains(k) {
                    let j = choose|j: int| 0 <= j < new_names.len() && new_names[j] == k;
                    if !found && j != i {
                        let j0 = if j < i { j } else { j - 1 };
                        assert(old_names[j0] == k);
                    }
                }
                if old_names.contains(k) {
                    let j = choose|j: int| 0 <= j < old_names.len() && old_names[j] == k;
                    if !found {
                        let j1 = if j < i { j } else { j + 1 };
                        assert(new_names[j1] == k);
                    }
                }
                if k == key@ {
                    assert(new_names[i as int] == k);
                }
            }
            assert forall|k: Name| #[trigger] self@.contains_key(k) implies self@[k]
                == old_view.insert(key@, value@)[k] by {
                let j = new_names.index_of(k);
                lemma_sorted_index_of(new_names, j);
                if k == key@ {
                    lemma_sorted_index_of(new_names, i as int);
                } else if found {
                    lemma_sorted_index_of(old_names, j);
                } else {
                    let j0 = if j < i { j } else { j - 1 };
                    assert(j != i);
                    assert(old_names[j0] == k);
                    lemma_sorted_index_of(old_names, j0);
                }
            }
            assert(self@ =~= old_view.insert(key@, value@));
            if found {
                lemma_sorted_index_of(old_names, i as int);
            }
        }
        r
    }

    /// Removes the entry of `key` and gives back its value.
    pub fn remove(&mut self, key: &str) -> (r: Option<V>)
        ensures
            final(self)@ == old(self)@.remove(key@),
            match r {
                Some(v) => old(self)@.contains_key(key@) && v@ == old(self)@[key@],
                None => !old(self)@.contains_key(key@),
            },
    {
        proof {
            use_type_invariant(&*self);
        }
        let (i, found) = self.slot(key);
        if !found {
            proof {
                assert(self@ =~= self@.remove(key@));
            }
            return None;
        }
        let ghost old_names = self.names();
        let ghost old_vals = self.vals();
        let ghost old_view = self@;
        let mut entries: Vec<(String, V)> = Vec::new();
        core::mem::swap(&mut self.entries, &mut entries);
        assert(entries@.len() == old_names.len());
        assert(forall|j: int| 0 <= j < entries@.len() ==> entries@[j].0@ == #[trigger] old_names[j]);
        assert(forall|j: int| 0 <= j < entries@.len() ==> entries@[j].1@ == #[trigger] old_vals[j]);
        let pair = entries.remove(i);
        let ghost new_names = Seq::new(entries@.len(), |j: int| entries@[j].0@);
        let ghost new_vals = Seq::new(entries@.len(), |j: int| entries@[j].1@);
        proof {
            assert(new_names =~= old_names.remove(i as int));
            assert(new_vals =~= old_vals.remove(i as int));
            assert forall|a: int, b: int| 0 <= a < b < new_names.len() implies name_lt(
                #[trigger] new_names[a],
                #[trigger] new_names[b],
            ) by {
                let a0 = if a < i { a } else { a + 1 };
                let b0 = if b < i { b } else { b + 1 };
                assert(name_lt(old_names[a0], old_names[b0]));
            }
        }
        self.entries = entries;
        proof {
            assert(self.names() =~= new_names);
            assert(self.vals() =~= new_vals);
            lemma_sorted_no_duplicates(old_names);
            assert forall|k: Name| #[trigger] self@.contains_key(k) <==> old_view.remove(
                key@,
            ).contains_key(k) by {
                if new_names.contains(k) {
                    let j = choose|j: int| 0 <= j < new_names.len() && new_names[j] == k;
                    let j0 = if j < i { j } else { j + 1 };
                    assert(old_names[j0] == k);
                    assert(j0 != i);
                }
                if old_names.contains(k) && k != key@ {
                    let j = choose|j: int| 0 <= j < old_names.len() && old_names[j] == k;
                    let j1 = if j < i { j } else { j - 1 };
                    assert(new_names[j1] == k);
                }
            }
            assert forall|k: Name| #[trigger] self@.contains_key(k) implies self@[k]
                == old_view.remove(key@)[k] by {
                let j = new_names.index_of(k);
                lemma_sorted_index_of(new_names, j);
                let j0 = if j < i { j } else { j + 1 };
                assert(old_names[j0] == k);
                lemma_sorted_index_of(old_names, j0);
            }
            assert(self@ =~= old_view.remove(key@));
            lemma_sorted_index_of(old_names, i as int);
        }
        Some(pair.1)
    }

    /// The keys in their order.
    pub fn keys(&self) -> (r: Vec<String>)
        ensures
            names_of(r@) == self.names(),
            strictly_sorted(names_of(r@)),
            forall|i: int| 0 <= i < r@.len() ==> self@.contains_key(#[trigger] r@[i]@),
    {
        proof {
            use_type_invariant(self);
        }
        let mut r: Vec<String> = Vec::new();
        let mut i: usize = 0;
        while i < self.entries.len()
            invariant
                i <= self.entries@.len(),
                r@.len() == i,
                forall|j: int| 0 <= j < i ==> (#[trigger] r@[j])@ == self.entries@[j].0@,
            decreases self.entries@.len() - i,
        {
            r.push(self.entries[i].0.clone());
            i += 1;
        }
        proof {
            assert(names_of(r@) =~= self.names());
            assert forall|i: int| 0 <= i < r@.len() implies self@.contains_key(
                #[trigger] r@[i]@,
            ) by {
                self.lemma_entry(i);
            }
        }
        r
    }

    /// Removes every entry.
    pub fn clear(&mut self)
        ensures
            final(self)@ == Map::<Name, V::V>::empty(),
            final(self).names() == Seq::<Name>::empty(),
    {
        self.entries = Vec::new();
        proof {
            assert(self.names() =~= Seq::<Name>::empty());
            assert(self@ =~= Map::<Name, V::V>::empty());
        }
    }
}

impl<V: View> Default for NameMap<V> {
    /// An empty map.
    fn default() -> (r: Self)
        ensures
            r@ == Map::<Name, V::V>::empty(),
            r.names() == Seq::<Name>::empty(),
    {
        NameMap::new()
    }
}

impl<V: View + Clone> Clone for NameMap<V> {
    /// A map with the same keys, each with a clone of its value.
    fn clone(&self) -> (r: Self)
        ensures
            r.names() == self.names(),
    {
        proof {
            use_type_invariant(self);
        }
        let mut entries: Vec<(String, V)> = Vec::new();
        let mut i: usize = 0;
        while i < self.entries.len()
            invariant
                i <= self.entries@.len(),
                entries@.len() == i,
                forall|j: int| 0 <= j < i ==> (#[trigger] entries@[j]).0@ == self.entries@[j].0@,
            decreases self.entries@.len() - i,
        {
            let key = self.entries[i].0.clone();
            let value = self.entries[i].1.clone();
            entries.push((key, value));
            i += 1;
        }
        proof {
            assert(Seq::new(entries@.len(), |j: int| entries@[j].0@) =~= self.names());
        }
        NameMap { entries }
    }
}

} // verus!
