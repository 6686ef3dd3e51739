//! An array of data, each item added under a name; a name finds the
//! handle of the item last added under it
use std::marker::PhantomData;
use vstd::prelude::*;

use crate::index::Idx;
use crate::indexed_vec::IndexKey;

verus! {

/// The last position at which `name` occurs in `names`, if it does
pub open spec fn last_position<N>(names: Seq<N>, name: N) -> Option<int>
    decreases names.len(),
{
    if names.len() == 0 {
        None
    } else if names.last() == name {
        Some(names.len() - 1)
    } else {
        last_position(names.drop_last(), name)
    }
}

proof fn lemma_last_position<N>(names: Seq<N>, name: N)
    ensures
        match last_position(names, name) {
            Some(k) => 0 <= k < names.len() && names[k] == name && forall|j: int|
                k < j < names.len() ==> names[j] != name,
            None => !names.contains(name),
        },
    decreases names.len(),
{
    if names.len() > 0 && names.last() != name {
        lemma_last_position(names.drop_last(), name);
        if last_position(names, name) is None {
            assert forall|j: int| 0 <= j < names.len() implies names[j] != name by {
                if j < names.len() - 1 {
                    assert(names.drop_last()[j] == names[j]);
                }
            }
        } else {
            let k = last_position(names, name)->0;
            assert(names.drop_last()[k] == names[k]);
            assert forall|j: int| k < j < names.len() implies names[j] != name by {
                if j < names.len() - 1 {
                    assert(names.drop_last()[j] == names[j]);
                }
            }
        }
    }
}

/// An array of data items, each added under a name, reached by handles
/// of type `H`; adding under a name that is there makes the name find
/// the new item
pub struct Array<N: IndexKey, H: Idx, D> {
    names: Vec<N>,
    array: Vec<D>,
    phantom: PhantomData<H>,
}

impl<N: IndexKey, H: Idx, D> Array<N, H, D> {
    /// The names the items were added under, in order
    pub closed spec fn spec_names(&self) -> Seq<N> {
        self.names@
    }

    /// The items, in the order they were added
    pub closed spec fn spec_items(&self) -> Seq<D> {
        self.array@
    }

    /// Each item has the name it was added under
    pub closed spec fn wf(&self) -> bool {
        self.names@.len() == self.array@.len()
    }

    /// A well-formed array has one name for each item
    pub proof fn lemma_wf(&self)
        requires
            self.wf(),
        ensures
            self.spec_names().len() == self.spec_items().len(),
    {
    }

    /// An empty array
    pub fn new() -> (r: Self)
        ensures
            r.wf(),
            r.spec_names() == Seq::<N>::empty(),
            r.spec_items() == Seq::<D>::empty(),
    {
        Array { names: Vec::new(), array: Vec::new(), phantom: PhantomData }
    }

    /// Whether there are no items
    pub fn is_empty(&self) -> (r: bool)
        ensures
            r == (self.spec_items().len() == 0),
    {
        self.array.len() == 0
    }

    /// The items, in the order they were added
    pub fn array(&self) -> (r: &[D])
        ensures
            r@ == self.spec_items(),
    {
        self.array.as_slice()
    }

    /// The handle of the item last added under `name`, if any was
    pub fn get(&self, name: &N) -> (r: Option<H>)
        requires
            self.wf(),
        ensures
            match last_position(self.spec_names(), *name) {
                Some(k) => r is Some && r->0.spec_index() == k,
                None => r is None,
            },
            r is Some ==> r->0.spec_index() < self.spec_items().len(),
    {
        proof {
            lemma_last_position(self.names@, *name);
        }
        let mut k: usize = self.names.len();
        while k > 0
            invariant
                k <= self.names@.len(),
                self.names@.len() == self.array@.len(),
                forall|j: int| k <= j < self.names@.len() ==> self.names@[j] != *name,
                match last_position(self.names@, *name) {
                    Some(p) => 0 <= p < self.names@.len() && self.names@[p] == *name && forall|j: int|
                        p < j < self.names@.len() ==> self.names@[j] != *name,
                    None => !self.names@.contains(*name),
                },
            decreases k,
        {
            if self.names[k - 1].key_eq(name) {
                proof {
                    let p = last_position(self.names@, *name);
                    if p is None {
                        assert(self.names@.contains(*name)) by {
                            assert(self.names@[k - 1] == *name);
                        }
                    }
                }
                return Some(H::from_usize(k - 1));
            }
            k = k - 1;
        }
        proof {
            if last_position(self.names@, *name) is Some {
                let p = last_position(self.names@, *name)->0;
                assert(self.names@[p] == *name);
            }
        }
        None
    }

    /// Add an item under a name, returning its handle
    pub fn add(&mut self, name: N, data: D) -> (r: H)
        requires
            old(self).wf(),
            old(self).spec_items().len() < usize::MAX,
        ensures
            final(self).wf(),
            r.spec_index() == old(self).spec_items().len(),
            final(self).spec_names() == old(self).spec_names().push(name),
            final(self).spec_items() == old(self).spec_items().push(data),
    {
        let handle = H::from_usize(self.array.len());
        self.array.push(data);
        self.names.push(name);
        handle
    }

    /// The handle of the item last added under `name`, adding `data` under
    /// it first if no item was
    pub fn find_or_add(&mut self, name: N, data: D) -> (r: H)
        requires
            old(self).wf(),
            old(self).spec_items().len() < usize::MAX,
        ensures
            final(self).wf(),
            match last_position(old(self).spec_names(), name) {
                Some(k) => r.spec_index() == k && final(self).spec_names() == old(self).spec_names()
                    && final(self).spec_items() == old(self).spec_items(),
                None => r.spec_index() == old(self).spec_items().len() && final(self).spec_names()
                    == old(self).spec_names().push(name) && final(self).spec_items() == old(
                    self,
                ).spec_items().push(data),
            },
    {
        match self.get(&name) {
            Some(h) => h,
            None => self.add(name, data),
        }
    }
}

impl<N: IndexKey, H: Idx, D> Default for Array<N, H, D> {
    fn default() -> (r: Self)
        ensures
            r.wf(),
            r.spec_names() == Seq::<N>::empty(),
            r.spec_items() == Seq::<D>::empty(),
    {
        Self::new()
    }
}

/// An item added under a name is found by that name until another is
/// added under it
pub proof fn law_get_after_add<N>(names: Seq<N>, name: N, other: N)
    ensures
        last_position(names.push(name), name) == Some(names.len() as int),
        other != name ==> last_position(names.push(name), other) == last_position(names, other),
{
    assert(names.push(name).drop_last() =~= names);
}

} // verus!
