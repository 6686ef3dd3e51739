//! Arrays of items that are found by a key, and arrays of strings
use std::marker::PhantomData;
use vstd::prelude::*;

use crate::index::Idx;

verus! {

/// A key by which an item of a [VecWithIndex] is found
pub trait IndexKey: Copy + Sized {
    /// Whether two keys are the same
    fn key_eq(&self, other: &Self) -> (r: bool)
        ensures
            r == (*self == *other),
    ;
}

impl IndexKey for usize {
    fn key_eq(&self, other: &Self) -> (r: bool) {
        *self == *other
    }
}

impl IndexKey for u64 {
    fn key_eq(&self, other: &Self) -> (r: bool) {
        *self == *other
    }
}

/// An array of items, each added with a distinct key; an item is found
/// by its key or reached by the index (of type `I`) that adding it
/// returned
///
/// Items are never removed or changed, so an index stays valid for the
/// life of the array.
pub struct VecWithIndex<K: IndexKey, I: Idx, D> {
    keys: Vec<K>,
    array: Vec<D>,
    phantom: PhantomData<I>,
}

/// The position of `key` in `keys`, if it is there
pub open spec fn position_of<K>(keys: Seq<K>, key: K) -> Option<int> {
    if keys.contains(key) {
        Some(choose|i: int| 0 <= i < keys.len() && keys[i] == key)
    } else {
        None
    }
}

impl<K: IndexKey, I: Idx, D> VecWithIndex<K, I, D> {
    /// The keys, in the order their items were added
    pub closed spec fn spec_keys(&self) -> Seq<K> {
        self.keys@
    }

    /// The items, in the order they were added
    pub closed spec fn spec_items(&self) -> Seq<D> {
        self.array@
    }

    /// There is one key for each item, and no key is there twice
    pub closed spec fn wf(&self) -> bool {
        &&& self.keys@.len() == self.array@.len()
        &&& forall|i: int, j: int|
            0 <= i < j < self.keys@.len() ==> #[trigger] self.keys@[i] != #[trigger] self.keys@[j]
    }

    /// A well-formed array has one key for each item, and no key twice
    pub proof fn lemma_wf(&self)
        requires
            self.wf(),
        ensures
            self.spec_keys().len() == self.spec_items().len(),
            forall|i: int, j: int|
                0 <= i < self.spec_keys().len() && 0 <= j < self.spec_keys().len() && i != j
                    ==> #[trigger] self.spec_keys()[i] != #[trigger] self.spec_keys()[j],
    {
        assert forall|i: int, j: int|
            0 <= i < self.spec_keys().len() && 0 <= j < self.spec_keys().len() && i
                != j implies #[trigger] self.spec_keys()[i] != #[trigger] self.spec_keys()[j] by {
            if i > j {
                assert(self.keys@[j] != self.keys@[i]);
            }
        }
    }

    /// An empty array
    pub fn new() -> (r: Self)
        ensures
            r.wf(),
            r.spec_keys() == Seq::<K>::empty(),
            r.spec_items() == Seq::<D>::empty(),
    {
        VecWithIndex { keys: Vec::new(), array: Vec::new(), phantom: PhantomData }
    }

    /// The number of items
    pub fn len(&self) -> (r: usize)
        ensures
            r == self.spec_items().len(),
    {
        self.array.len()
    }

    /// Whether there are no items
    pub fn is_empty(&self) -> (r: bool)
        ensures
            r == (self.spec_items().len() == 0),
    {
        self.array.len() == 0
    }

    /// The position of the key, if it is there
    fn position(&self, key: &K) -> (r: Option<usize>)
        requires
            self.wf(),
        ensures
            match r {
                Some(i) => i < self.spec_keys().len() && self.spec_keys()[i as int] == *key && forall|
                    j: int,
                | 0 <= j < self.spec_keys().len() && self.spec_keys()[j] == *key ==> j == i,
                None => !self.spec_keys().contains(*key),
            },
    {
        let mut i: usize = 0;
        while i < self.keys.len()
            invariant
                self.wf(),
                i <= self.keys@.len(),
                forall|k: int| 0 <= k < i ==> self.keys@[k] != *key,
            decreases self.keys@.len() - i,
        {
            if self.keys[i].key_eq(key) {
                proof {
                    assert forall|j: int| 0 <= j < self.spec_keys().len() && self.spec_keys()[j]
                        == *key implies j == i by {
                        if j > i {
                            assert(self.keys@[i as int] != self.keys@[j]);
                        }
                    }
                }
                return Some(i);
            }
            i = i + 1;
        }
        None
    }

    /// Find the key, returning the index of its item if it is there
    pub fn find_key(&self, key: &K) -> (r: Option<I>)
        requires
            self.wf(),
        ensures
            match r {
                Some(i) => i.spec_index() < self.spec_keys().len() && self.spec_keys()[i.spec_index() as int]
                    == *key && forall|j: int|
                    0 <= j < self.spec_keys().len() && self.spec_keys()[j] == *key ==> j
                        == i.spec_index(),
                None => !self.spec_keys().contains(*key),
            },
    {
        match self.position(key) {
            Some(i) => Some(I::from_usize(i)),
            None => None,
        }
    }

    /// Returns true if an item was added with the key
    pub fn contains(&self, key: &K) -> (r: bool)
        requires
            self.wf(),
        ensures
            r == self.spec_keys().contains(*key),
    {
        self.position(key).is_some()
    }

    /// The keys, in the order their items were added
    pub fn keys(&self) -> (r: &[K])
        ensures
            r@ == self.spec_keys(),
    {
        self.keys.as_slice()
    }

    /// The items, in the order they were added
    pub fn items(&self) -> (r: &[D])
        ensures
            r@ == self.spec_items(),
    {
        self.array.as_slice()
    }

    /// The item at an index
    pub fn get(&self, n: I) -> (r: &D)
        requires
            n.spec_index() < self.spec_items().len(),
        ensures
            *r == self.spec_items()[n.spec_index() as int],
    {
        &self.array[n.index()]
    }

    /// Append an item with a key that is not there
    fn push(&mut self, key: K, d: D) -> (r: I)
        requires
            old(self).wf(),
            !old(self).spec_keys().contains(key),
            old(self).spec_items().len() < usize::MAX,
        ensures
            r.spec_index() == old(self).spec_items().len(),
            final(self).wf(),
            final(self).spec_keys() == old(self).spec_keys().push(key),
            final(self).spec_items() == old(self).spec_items().push(d),
    {
        let n = self.array.len();
        self.keys.push(key);
        self.array.push(d);
        proof {
            assert forall|i: int, j: int| 0 <= i < j < self.keys@.len() implies #[trigger] self.keys@[i]
                != #[trigger] self.keys@[j] by {
                if j == self.keys@.len() - 1 {
                    assert(old(self).spec_keys()[i] == self.keys@[i]);
                }
            }
        }
        I::from_usize(n)
    }

    /// Add the item that `f` makes of the key, unless the key is already
    /// there
    ///
    /// Returns whether the key was found, and the index of its item
    pub fn find_or_add<F: FnOnce(&K) -> D>(&mut self, key: K, f: F) -> (r: (bool, I))
        requires
            old(self).wf(),
            old(self).spec_items().len() < usize::MAX,
            call_requires(f, (&key,)),
        ensures
            final(self).wf(),
            r.0 == old(self).spec_keys().contains(key),
            r.0 ==> final(self).spec_keys() == old(self).spec_keys() && final(self).spec_items()
                == old(self).spec_items() && r.1.spec_index() < old(self).spec_keys().len()
                && old(self).spec_keys()[r.1.spec_index() as int] == key,
            !r.0 ==> final(self).spec_keys() == old(self).spec_keys().push(key)
                && final(self).spec_items().len() == old(self).spec_items().len() + 1
                && final(self).spec_items().take(old(self).spec_items().len() as int)
                == old(self).spec_items() && call_ensures(
                f,
                (&key,),
                final(self).spec_items().last(),
            ) && r.1.spec_index() == old(self).spec_items().len(),
    {
        match self.position(&key) {
            Some(i) => (true, I::from_usize(i)),
            None => {
                let d = f(&key);
                let n = self.push(key, d);
                proof {
                    assert(self.spec_items().take(old(self).spec_items().len() as int)
                        =~= old(self).spec_items());
                }
                (false, n)
            },
        }
    }

    /// Add the item that `f` makes of the key, if the key is not there
    ///
    /// Returns the index of the new item, or the index of the item with
    /// the key as an error if it was there
    pub fn insert<F: FnOnce(&K) -> D>(&mut self, key: K, f: F) -> (r: Result<I, I>)
        requires
            old(self).wf(),
            old(self).spec_items().len() < usize::MAX,
            call_requires(f, (&key,)),
        ensures
            final(self).wf(),
            r is Err == old(self).spec_keys().contains(key),
            match r {
                Err(i) => final(self).spec_keys() == old(self).spec_keys() && final(self).spec_items()
                    == old(self).spec_items() && i.spec_index() < old(self).spec_keys().len()
                    && old(self).spec_keys()[i.spec_index() as int] == key,
                Ok(i) => final(self).spec_keys() == old(self).spec_keys().push(key)
                    && final(self).spec_items().len() == old(self).spec_items().len() + 1
                    && final(self).spec_items().take(old(self).spec_items().len() as int)
                    == old(self).spec_items() && call_ensures(
                    f,
                    (&key,),
                    final(self).spec_items().last(),
                ) && i.spec_index() == old(self).spec_items().len(),
            },
    {
        let (found, index) = self.find_or_add(key, f);
        if found {
            Err(index)
        } else {
            Ok(index)
        }
    }
}

impl<K: IndexKey, I: Idx, D> Default for VecWithIndex<K, I, D> {
    fn default() -> (r: Self)
        ensures
            r.wf(),
            r.spec_keys() == Seq::<K>::empty(),
            r.spec_items() == Seq::<D>::empty(),
    {
        Self::new()
    }
}

/// After a key is added to keys that did not hold it, it is found at the
/// index it was added at and nowhere else, and adding it again is refused
pub proof fn law_find_after_insert<K>(keys: Seq<K>, key: K)
    requires
        !keys.contains(key),
    ensures
        keys.push(key).contains(key),
        forall|j: int| 0 <= j < keys.push(key).len() && #[trigger] keys.push(key)[j] == key ==> j
            == keys.len(),
{
    assert(keys.push(key)[keys.len() as int] == key);
    assert forall|j: int| 0 <= j < keys.push(key).len() && #[trigger] keys.push(key)[j] == key implies j
        == keys.len() by {
        if j < keys.len() {
            assert(keys[j] == key);
        }
    }
}

/// A key keeps its index for the life of the collection: keys are only
/// added, each where it was not, so a key that is found at an index is
/// still found there, and only there, after another key is added
pub proof fn law_find_key_stable<K>(keys: Seq<K>, new_key: K, key: K, i: int)
    requires
        !keys.contains(new_key),
        0 <= i < keys.len(),
        keys[i] == key,
        forall|j: int| 0 <= j < keys.len() && #[trigger] keys[j] == key ==> j == i,
    ensures
        keys.push(new_key)[i] == key,
        forall|j: int|
            0 <= j < keys.push(new_key).len() && #[trigger] keys.push(new_key)[j] == key ==> j == i,
{
    assert forall|j: int|
        0 <= j < keys.push(new_key).len() && #[trigger] keys.push(new_key)[j] == key implies j
        == i by {
        if j < keys.len() {
            assert(keys[j] == key);
        } else {
            assert(keys.contains(key));
        }
    }
}

/// The index of a string in a [StringsWithIndex]
#[derive(Debug, Clone, Copy, PartialEq, Eq, Structural, Hash, PartialOrd, Ord)]
pub struct StringIndex(pub usize);

impl Idx for StringIndex {
    open spec fn spec_index(self) -> usize {
        self.0
    }

    fn from_usize(n: usize) -> (r: StringIndex) {
        StringIndex(n)
    }

    fn index(self) -> (r: usize) {
        self.0
    }
}

impl Default for StringIndex {
    fn default() -> (r: StringIndex)
        ensures
            r.0 == 0,
    {
        StringIndex(0)
    }
}

/// An array of distinct strings, each found by its text or reached by
/// its [StringIndex]
pub struct StringsWithIndex {
    strings: Vec<String>,
}

impl StringsWithIndex {
    /// The texts of the strings, in the order they were added
    pub closed spec fn spec_strings(&self) -> Seq<Seq<char>> {
        self.strings@.map_values(|s: String| s@)
    }

    #[verifier::type_invariant]
    spec fn inv(&self) -> bool {
        forall|i: int, j: int|
            0 <= i < j < self.strings@.len() ==> #[trigger] self.strings@[i]@
                != #[trigger] self.strings@[j]@
    }

    /// An empty array of strings
    pub fn new() -> (r: Self)
        ensures
            r.spec_strings() == Seq::<Seq<char>>::empty(),
    {
        let r = StringsWithIndex { strings: Vec::new() };
        proof {
            assert(r.spec_strings() =~= Seq::<Seq<char>>::empty());
        }
        r
    }

    /// The number of strings
    pub fn len(&self) -> (r: usize)
        ensures
            r == self.spec_strings().len(),
    {
        self.strings.len()
    }

    /// Find a string, returning its index if it is there
    pub fn find_string(&self, s: &str) -> (r: Option<StringIndex>)
        ensures
            match r {
                Some(i) => i.0 < self.spec_strings().len() && self.spec_strings()[i.0 as int] == s@
                    && forall|j: int|
                    0 <= j < self.spec_strings().len() && self.spec_strings()[j] == s@ ==> j == i.0,
                None => !self.spec_strings().contains(s@),
            },
    {
        proof {
            use_type_invariant(self);
        }
        let owned = s.to_owned();
        let mut i: usize = 0;
        while i < self.strings.len()
            invariant
                forall|a: int, b: int|
                    0 <= a < b < self.strings@.len() ==> #[trigger] self.strings@[a]@
                        != #[trigger] self.strings@[b]@,
                owned@ == s@,
                i <= self.strings@.len(),
                forall|k: int| 0 <= k < i ==> self.strings@[k]@ != s@,
            decreases self.strings@.len() - i,
        {
            if self.strings[i] == owned {
                proof {
                    assert forall|j: int| 0 <= j < self.spec_strings().len() && self.spec_strings()[j]
                        == s@ implies j == i by {
                        if j > i {
                            assert(self.strings@[i as int]@ != self.strings@[j]@);
                        }
                    }
                }
                return Some(StringIndex(i));
            }
            i = i + 1;
        }
        proof {
            if self.spec_strings().contains(s@) {
                let k = choose|k: int| 0 <= k < self.spec_strings().len() && self.spec_strings()[k] == s@;
                assert(self.strings@[k]@ == s@);
            }
        }
        None
    }

    /// The text of the string at an index
    pub fn get(&self, n: StringIndex) -> (r: &str)
        requires
            n.0 < self.spec_strings().len(),
        ensures
            r@ == self.spec_strings()[n.0 as int],
    {
        self.strings[n.0].as_str()
    }

    /// Add a string unless it is there
    ///
    /// Returns whether it was found, and its index
    pub fn find_or_add(&mut self, s: &str) -> (r: (bool, StringIndex))
        requires
            old(self).spec_strings().len() < usize::MAX,
        ensures
            r.0 == old(self).spec_strings().contains(s@),
            r.0 ==> final(self).spec_strings() == old(self).spec_strings(),
            !r.0 ==> final(self).spec_strings() == old(self).spec_strings().push(s@),
            r.1.0 < final(self).spec_strings().len(),
            final(self).spec_strings()[r.1.0 as int] == s@,
            forall|j: int|
                0 <= j < final(self).spec_strings().len() && final(self).spec_strings()[j] == s@ ==> j
                    == r.1.0,
    {
        proof {
            use_type_invariant(&*self);
        }
        match self.find_string(s) {
            Some(i) => (true, i),
            None => {
                let n = self.strings.len();
                let mut strings = Vec::new();
                std::mem::swap(&mut strings, &mut self.strings);
                strings.push(s.to_owned());
                proof {
                    assert(strings@.map_values(|t: String| t@) =~= old(self).spec_strings().push(s@));
                    assert forall|i: int, j: int| 0 <= i < j < strings@.len() implies #[trigger] strings@[i]@
                        != #[trigger] strings@[j]@ by {
                        if j == n {
                            assert(old(self).spec_strings()[i] == strings@[i]@);
                        }
                    }
                }
                *self = StringsWithIndex { strings };
                (false, StringIndex(n))
            },
        }
    }

    /// Add a string if it is not there
    ///
    /// Returns its new index, or its index as an error if it was there
    pub fn insert(&mut self, s: &str) -> (r: Result<StringIndex, StringIndex>)
        requires
            old(self).spec_strings().len() < usize::MAX,
        ensures
            r is Err == old(self).spec_strings().contains(s@),
            r is Err ==> final(self).spec_strings() == old(self).spec_strings(),
            r is Ok ==> final(self).spec_strings() == old(self).spec_strings().push(s@),
            match r {
                Ok(i) => i.0 < final(self).spec_strings().len() && final(self).spec_strings()[i.0 as int]
                    == s@,
                Err(i) => i.0 < final(self).spec_strings().len() && final(self).spec_strings()[i.0 as int]
                    == s@,
            },
    {
        let (found, index) = self.find_or_add(s);
        if found {
            Err(index)
        } else {
            Ok(index)
        }
    }
}

impl Default for StringsWithIndex {
    fn default() -> (r: Self)
        ensures
            r.spec_strings() == Seq::<Seq<char>>::empty(),
    {
        Self::new()
    }
}

} // verus!
