//! The dense backend: a plain vector, identified by position.
use crate::storage::{Storage, StorageFamily};
use vstd::prelude::*;

verus! {

/// The family of dense storages: a value's identifier is its position in a
/// `Vec`. Insertion appends; removal moves the last value into the hole, so
/// the live identifiers are always `0..len` and the identifier of the former
/// last value changes.
pub struct VecFamily;

impl StorageFamily for VecFamily {
    type Id = usize;

    /// The number of stored values.
    type Layout = nat;

    open spec fn wf(layout: nat) -> bool {
        layout <= usize::MAX
    }

    open spec fn empty() -> nat {
        0
    }

    open spec fn ids(layout: nat) -> Seq<usize> {
        Seq::new(layout, |i: int| i as usize)
    }

    open spec fn next_id(layout: nat) -> usize {
        layout as usize
    }

    open spec fn inserted(layout: nat) -> nat {
        layout + 1
    }

    open spec fn removable(layout: nat, id: usize) -> bool {
        true
    }

    open spec fn removed(layout: nat, id: usize) -> nat {
        if id < layout {
            (layout - 1) as nat
        } else {
            layout
        }
    }

    open spec fn origin(layout: nat, removed: usize, id: usize) -> usize {
        if id == removed {
            (layout - 1) as usize
        } else {
            id
        }
    }

    proof fn lemma_removing_absent_is_idle(layout: nat, id: usize) {
        if id < layout {
            assert(Self::ids(layout)[id as int] == id);
        }
    }
}

/// In every state of a dense storage the live identifiers are exactly
/// `0..len`, in this order and without a gap.
pub proof fn lemma_dense_ids_are_contiguous<T>(storage: Vec<T>)
    ensures
        VecFamily::ids(storage.layout()).len() == storage@.len(),
        forall|i: int|
            0 <= i < storage@.len() ==> #[trigger] VecFamily::ids(storage.layout())[i] == i,
        forall|id: usize| #[trigger] storage.values().dom().contains(id) <==> id < storage@.len(),
{
    assert(storage.len() == storage@.len());
}

/// What a removal does to the identifiers of a dense storage: the removed
/// identifier stays live, now for the value that was last, unless it was the
/// last identifier itself.
pub proof fn lemma_dense_removal_reassigns(len: nat, id: usize)
    requires
        id < len <= usize::MAX,
    ensures
        VecFamily::removed(len, id) == len - 1,
        VecFamily::ids(VecFamily::removed(len, id)).contains(id) <==> id + 1 < len,
        id + 1 < len ==> VecFamily::origin(len, id, id) == len - 1,
        forall|other: usize| other != id ==> VecFamily::origin(len, id, other) == other,
{
    let after = VecFamily::ids(VecFamily::removed(len, id));
    if id + 1 < len {
        assert(after[id as int] == id);
    }
}

impl<T> Storage<T> for Vec<T> {
    type Family = VecFamily;

    type Id = usize;

    open spec fn layout(&self) -> nat {
        self@.len()
    }

    open spec fn values(&self) -> Map<usize, T> {
        Map::new(|id: usize| id < self@.len(), |id: usize| self@[id as int])
    }

    open spec fn inv(&self) -> bool {
        true
    }

    proof fn lemma_values_follow_layout(&self) {
        let ids = VecFamily::ids(self@.len());
        assert(self.len() == self@.len());
        assert forall|id: usize| self.values().dom().contains(id) implies ids.to_set().contains(
            id,
        ) by {
            assert(ids[id as int] == id);
        }
        assert forall|i: int, j: int| 0 <= i < ids.len() && 0 <= j < ids.len() && i != j implies ids[i]
            != ids[j] by {
            assert(ids[i] == i as usize && ids[j] == j as usize);
        }
    }

    proof fn lemma_default_is_empty(fresh: Self) {
    }

    fn ids(&self) -> (ids: Vec<usize>) {
        let len: usize = self.len();
        let mut ids: Vec<usize> = Vec::new();
        let mut next: usize = 0;
        while next < len
            invariant
                next <= len,
                ids@ == VecFamily::ids(next as nat),
            decreases len - next,
        {
            ids.push(next);
            next = next + 1;
        }
        ids
    }

    fn insert(&mut self, value: T) -> (id: usize) {
        let id: usize = self.len();
        self.push(value);
        id
    }

    fn get(&self, id: usize) -> (found: Option<&T>) {
        if id < self.len() {
            Some(&self[id])
        } else {
            None
        }
    }

    fn get_mut(&mut self, id: usize) -> (found: Option<&mut T>) {
        if id < self.len() {
            Some(&mut self[id])
        } else {
            None
        }
    }

    fn can_remove(&self, id: usize) -> (allowed: bool) {
        true
    }

    fn remove(&mut self, id: usize) -> (taken: Option<T>) {
        if id < self.len() {
            Some(self.swap_remove(id))
        } else {
            None
        }
    }

    fn iter(&self) -> (pairs: Vec<(usize, &T)>) {
        let len: usize = self.len();
        let mut pairs: Vec<(usize, &T)> = Vec::new();
        let mut next: usize = 0;
        while next < len
            invariant
                next <= len,
                len == self@.len(),
                pairs@.len() == next,
                forall|k: int|
                    0 <= k < next ==> (#[trigger] pairs@[k]).0 == k && *pairs@[k].1 == self@[k],
            decreases len - next,
        {
            pairs.push((next, &self[next]));
            next = next + 1;
        }
        pairs
    }

    fn iter_mut(&mut self) -> (pairs: Vec<(usize, &mut T)>) {
        let len: usize = self.len();
        let mut rest: &mut [T] = self.as_mut_slice();
        let ghost end = final(rest)@;
        let mut pairs: Vec<(usize, &mut T)> = Vec::new();
        let mut next: usize = 0;
        while next < len
            invariant
                next <= len,
                len == old(self)@.len(),
                pairs@.len() == next,
                rest@ == old(self)@.subrange(next as int, len as int),
                forall|k: int|
                    0 <= k < next ==> (#[trigger] pairs@[k]).0 == k && *pairs@[k].1 == old(
                        self,
                    )@[k],
                end == Seq::new(next as nat, |k: int| *final(pairs@[k].1)) + final(rest)@,
            decreases len - next,
        {
            let whole = rest;
            let (head, tail) = whole.split_at_mut(1);
            match head.first_mut() {
                Some(value) => {
                    pairs.push((next, value));
                },
                None => {},
            }
            rest = tail;
            next = next + 1;
        }
        pairs
    }
}

} // verus!
