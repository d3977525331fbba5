//! The contract of a single-field container and of the family it belongs to.
use vstd::prelude::*;

mod vec;

pub use vec::VecFamily;

verus! {

/// A family of storages for different component types.
///
/// A family fixes the identifier type and, as a mathematical model, the rule by
/// which its storages hand out identifiers. The `Layout` of a storage is all
/// that this rule looks at: two storages of one family with equal layouts hold
/// the same identifiers and will hand out the same identifier next, whatever
/// the types of their values.
pub trait StorageFamily: Sized {
    /// The identifier of a stored value.
    type Id: Copy;

    /// What decides which identifiers are live and which comes next.
    type Layout;

    /// The layouts that a storage of this family can be in.
    spec fn wf(layout: Self::Layout) -> bool;

    /// The layout of a storage that holds nothing yet.
    spec fn empty() -> Self::Layout;

    /// The live identifiers, in the order in which they are enumerated.
    spec fn ids(layout: Self::Layout) -> Seq<Self::Id>;

    /// The identifier that the next insertion returns.
    spec fn next_id(layout: Self::Layout) -> Self::Id;

    /// The layout after an insertion.
    spec fn inserted(layout: Self::Layout) -> Self::Layout;

    /// Whether removing `id` stays within the limits of the machine.
    spec fn removable(layout: Self::Layout, id: Self::Id) -> bool;

    /// The layout after removing `id`; the same layout where `id` is not live.
    spec fn removed(layout: Self::Layout, id: Self::Id) -> Self::Layout;

    /// For an identifier `id` that is live after `removed` was removed: the
    /// identifier under which its value was stored before the removal.
    spec fn origin(layout: Self::Layout, removed: Self::Id, id: Self::Id) -> Self::Id;

    /// Removing an identifier that is not live changes nothing.
    proof fn lemma_removing_absent_is_idle(layout: Self::Layout, id: Self::Id)
        requires
            Self::wf(layout),
            !Self::ids(layout).contains(id),
        ensures
            Self::removed(layout, id) == layout,
    ;
}

/// Removing the same identifier twice: where the first removal leaves the
/// identifier not live, the second one changes nothing.
pub proof fn lemma_second_removal_is_idle<F: StorageFamily>(layout: F::Layout, id: F::Id)
    requires
        F::wf(F::removed(layout, id)),
        !F::ids(F::removed(layout, id)).contains(id),
    ensures
        F::removed(F::removed(layout, id), id) == F::removed(layout, id),
{
    F::lemma_removing_absent_is_idle(F::removed(layout, id), id);
}

/// A single component storage: the values of one field, each under the
/// identifier of its entity.
pub trait Storage<T>: Sized + Default {
    /// The family that decides how identifiers are handed out.
    type Family: StorageFamily<Id = Self::Id>;

    /// The identifier of a stored value.
    type Id: Copy;

    /// The occupancy of this storage, as its family models it.
    spec fn layout(&self) -> <Self::Family as StorageFamily>::Layout;

    /// The stored values, by live identifier.
    spec fn values(&self) -> Map<Self::Id, T>;

    /// The internal consistency of the storage.
    spec fn inv(&self) -> bool;

    /// A consistent storage has a well-formed layout, and its values are
    /// stored under exactly the identifiers that the layout calls live.
    proof fn lemma_values_follow_layout(&self)
        requires
            self.inv(),
        ensures
            Self::Family::wf(self.layout()),
            self.values().dom() =~= Self::Family::ids(self.layout()).to_set(),
            Self::Family::ids(self.layout()).no_duplicates(),
    ;

    /// Whatever `Default::default` returns is a consistent, empty storage.
    proof fn lemma_default_is_empty(fresh: Self)
        requires
            call_ensures(Self::default, (), fresh),
        ensures
            fresh.inv(),
            fresh.layout() == Self::Family::empty(),
            fresh.values() =~= Map::<Self::Id, T>::empty(),
    ;

    /// A marker for the family of this storage.
    fn phantom_data(&self) -> (marker: core::marker::PhantomData<Self::Family>)
        ensures
            marker == core::marker::PhantomData::<Self::Family>,
    {
        core::marker::PhantomData
    }

    /// Every live identifier, once each, in the order of the family.
    fn ids(&self) -> (ids: Vec<Self::Id>)
        requires
            self.inv(),
        ensures
            ids@ == Self::Family::ids(self.layout()),
    ;

    /// Stores `value` under a fresh identifier and returns that identifier.
    fn insert(&mut self, value: T) -> (id: Self::Id)
        requires
            old(self).inv(),
        ensures
            final(self).inv(),
            id == Self::Family::next_id(old(self).layout()),
            !old(self).values().dom().contains(id),
            final(self).layout() == Self::Family::inserted(old(self).layout()),
            final(self).values() == old(self).values().insert(id, value),
    ;

    /// The value stored under `id`, if `id` is live.
    fn get(&self, id: Self::Id) -> (found: Option<&T>)
        requires
            self.inv(),
        ensures
            found == (if self.values().dom().contains(id) {
                Some(&self.values()[id])
            } else {
                None
            }),
    ;

    /// Exclusive access to the value stored under `id`, if `id` is live. What
    /// the caller writes through the reference is what the storage then holds
    /// under `id`; nothing else changes.
    fn get_mut(&mut self, id: Self::Id) -> (found: Option<&mut T>)
        requires
            old(self).inv(),
        ensures
            final(self).inv(),
            final(self).layout() == old(self).layout(),
            match found {
                Some(value) => old(self).values().dom().contains(id)
                    && *value == old(self).values()[id]
                    && final(self).values() == old(self).values().insert(id, *final(value)),
                None => !old(self).values().dom().contains(id)
                    && final(self).values() == old(self).values(),
            },
    ;

    /// Whether `remove` may be called with `id`: whether removing `id` stays
    /// within the limits of the machine.
    fn can_remove(&self, id: Self::Id) -> (allowed: bool)
        requires
            self.inv(),
        ensures
            allowed == Self::Family::removable(self.layout(), id),
    ;

    /// Removes the value stored under `id` and returns it, if `id` is live.
    /// The values that stay are found under the identifiers that the family's
    /// `origin` relates to their old ones. Where `id` is not live nothing
    /// changes.
    fn remove(&mut self, id: Self::Id) -> (taken: Option<T>)
        requires
            old(self).inv(),
            Self::Family::removable(old(self).layout(), id),
        ensures
            final(self).inv(),
            taken == (if old(self).values().dom().contains(id) {
                Some(old(self).values()[id])
            } else {
                None
            }),
            final(self).layout() == Self::Family::removed(old(self).layout(), id),
            forall|kept: Self::Id| #[trigger]
                final(self).values().dom().contains(kept) ==> {
                    let from = Self::Family::origin(old(self).layout(), id, kept);
                    old(self).values().dom().contains(from) && from != id
                        && final(self).values()[kept] == old(self).values()[from]
                },
            !old(self).values().dom().contains(id) ==> final(self).values() == old(
                self,
            ).values() && final(self).layout() == old(self).layout(),
    ;

    /// Every live identifier with a reference to its value, in the order of
    /// `ids`.
    fn iter(&self) -> (pairs: Vec<(Self::Id, &T)>)
        requires
            self.inv(),
        ensures
            pairs@.len() == Self::Family::ids(self.layout()).len(),
            forall|k: int|
                0 <= k < pairs@.len() ==> {
                    let id = Self::Family::ids(self.layout())[k];
                    (#[trigger] pairs@[k]).0 == id && *pairs@[k].1 == self.values()[id]
                },
    ;

    /// Every live identifier with exclusive access to its value, in the order
    /// of `ids`. What the caller writes through a reference is what the
    /// storage then holds under its identifier; nothing else changes.
    fn iter_mut(&mut self) -> (pairs: Vec<(Self::Id, &mut T)>)
        requires
            old(self).inv(),
        ensures
            final(self).inv(),
            final(self).layout() == old(self).layout(),
            final(self).values().dom() == old(self).values().dom(),
            pairs@.len() == Self::Family::ids(old(self).layout()).len(),
            forall|k: int|
                0 <= k < pairs@.len() ==> {
                    let id = Self::Family::ids(old(self).layout())[k];
                    (#[trigger] pairs@[k]).0 == id && *pairs@[k].1 == old(self).values()[id]
                        && final(self).values()[id] == *final(pairs@[k].1)
                },
    ;
}

} // verus!
