//! Entities whose fields are stored apart but identified together.
use crate::arena::{lemma_removed, ArenaFamily, ArenaStorage, Index};
use crate::storage::{Storage, StorageFamily, VecFamily};
use vstd::prelude::*;

verus! {

/// The value stored under `id`, if any.
pub open spec fn lookup<K, V>(entries: Map<K, V>, id: K) -> Option<V> {
    if entries.dom().contains(id) {
        Some(entries[id])
    } else {
        None
    }
}

/// A collection of components bundled together, or an entity type: one
/// storage per field, all of family `F`, behind a single identifier space.
pub trait Archetype<F: StorageFamily>: Sized + Default {
    /// The type of the entity stored as components.
    type Item;

    /// The occupancy that all the field storages share.
    spec fn layout(&self) -> F::Layout;

    /// The stored entities, by live identifier.
    spec fn entities(&self) -> Map<F::Id, Self::Item>;

    /// The internal consistency of the bundle: every field storage is
    /// consistent, and all have the same occupancy.
    spec fn inv(&self) -> bool;

    /// A consistent bundle has a well-formed layout, and its entities are
    /// stored under exactly the identifiers that the layout calls live.
    proof fn lemma_entities_follow_layout(&self)
        requires
            self.inv(),
        ensures
            F::wf(self.layout()),
            self.entities().dom() =~= F::ids(self.layout()).to_set(),
            F::ids(self.layout()).no_duplicates(),
    ;

    /// Whatever `Default::default` returns is a consistent, empty bundle.
    proof fn lemma_default_is_empty(fresh: Self)
        requires
            call_ensures(Self::default, (), fresh),
        ensures
            fresh.inv(),
            fresh.layout() == F::empty(),
            fresh.entities() =~= Map::<F::Id, Self::Item>::empty(),
    ;

    /// Every live identifier, once each, in the order of the family.
    fn ids(&self) -> (ids: Vec<F::Id>)
        requires
            self.inv(),
        ensures
            ids@ == F::ids(self.layout()),
    ;

    /// Stores every field of `value` under one fresh identifier and returns
    /// that identifier.
    fn insert(&mut self, value: Self::Item) -> (id: F::Id)
        requires
            old(self).inv(),
        ensures
            final(self).inv(),
            id == F::next_id(old(self).layout()),
            !old(self).entities().dom().contains(id),
            final(self).layout() == F::inserted(old(self).layout()),
            final(self).entities() == old(self).entities().insert(id, value),
    ;

    /// Whether `remove` may be called with `id`: whether removing `id` stays
    /// within the limits of the machine.
    fn can_remove(&self, id: F::Id) -> (allowed: bool)
        requires
            self.inv(),
        ensures
            allowed == F::removable(self.layout(), id),
    ;

    /// Removes every field of the entity `id` and returns the entity put
    /// together again, if `id` is live. The entities that stay are found
    /// under the identifiers that the family's `origin` relates to their old
    /// ones. Where `id` is not live nothing changes.
    fn remove(&mut self, id: F::Id) -> (taken: Option<Self::Item>)
        requires
            old(self).inv(),
            F::removable(old(self).layout(), id),
        ensures
            final(self).inv(),
            taken == lookup(old(self).entities(), id),
            final(self).layout() == F::removed(old(self).layout(), id),
            forall|kept: F::Id| #[trigger]
                final(self).entities().dom().contains(kept) ==> {
                    let from = F::origin(old(self).layout(), id, kept);
                    old(self).entities().dom().contains(from) && from != id
                        && final(self).entities()[kept] == old(self).entities()[from]
                },
            !old(self).entities().dom().contains(id) ==> final(self).entities() == old(
                self,
            ).entities() && final(self).layout() == old(self).layout(),
    ;
}

/// Round trip: an entity that was just inserted is what removing its
/// identifier returns.
pub proof fn lemma_round_trip<F: StorageFamily, C: Archetype<F>>(
    before: C,
    after: C,
    id: F::Id,
    entity: C::Item,
)
    requires
        after.entities() == before.entities().insert(id, entity),
    ensures
        lookup(after.entities(), id) == Some(entity),
{
}

/// Implemented for structs to split into components.
pub trait SplitFields<F: StorageFamily>: Sized {
    /// The [Archetype] for the structure.
    type StructOf: Archetype<F>;
}

/// Implemented for "T's of structs" to convert into "structs of T's".
pub trait StructOfAble {
    /// The structure which should be split into components.
    type Struct: SplitFields<Self::Family>;

    /// The storage family used to store the components.
    type Family: StorageFamily;
}

/// The views of a structure through references to its fields.
pub trait StructRef {
    /// Type that holds immutable references to the fields.
    type Ref<'a> where Self: 'a;

    /// Type that holds mutable references to the fields.
    type RefMut<'a> where Self: 'a;
}

/// The archetype of a pair: the first components in one storage, the second
/// components in another of the same family.
pub struct PairStructOf<A, B, SA: Storage<A>, SB: Storage<B, Family = SA::Family, Id = SA::Id>> {
    /// The storage of the first components.
    pub first: SA,
    /// The storage of the second components.
    pub second: SB,
    /// The types of the components.
    pub marker: core::marker::PhantomData<(A, B)>,
}

impl<A, B, SA: Storage<A>, SB: Storage<B, Family = SA::Family, Id = SA::Id>> Default for PairStructOf<
    A,
    B,
    SA,
    SB,
> {
    fn default() -> (bundle: Self)
        ensures
            bundle.inv(),
            bundle.layout() == <SA::Family as StorageFamily>::empty(),
            bundle.entities() == Map::<<SA::Family as StorageFamily>::Id, (A, B)>::empty(),
    {
        let first = SA::default();
        let second = SB::default();
        proof {
            SA::lemma_default_is_empty(first);
            SB::lemma_default_is_empty(second);
        }
        let bundle = PairStructOf { first, second, marker: core::marker::PhantomData };
        assert(bundle.entities() =~= Map::<<SA::Family as StorageFamily>::Id, (A, B)>::empty());
        bundle
    }
}

impl<
    A,
    B,
    SA: Storage<A> + Clone,
    SB: Storage<B, Family = SA::Family, Id = SA::Id> + Clone,
> Clone for PairStructOf<A, B, SA, SB> {
    /// A bundle of clones of the field storages.
    fn clone(&self) -> (copy: Self)
        ensures
            cloned(self.first, copy.first),
            cloned(self.second, copy.second),
    {
        PairStructOf {
            first: self.first.clone(),
            second: self.second.clone(),
            marker: core::marker::PhantomData,
        }
    }
}

impl<A, B, SA: Storage<A>, SB: Storage<B, Family = SA::Family, Id = SA::Id>> PairStructOf<A, B, SA, SB> {
    /// The central invariant at work: in a consistent bundle both field
    /// storages hold exactly the same identifiers, each once.
    pub proof fn lemma_fields_agree(&self)
        requires
            self.inv(),
        ensures
            <SA::Family as StorageFamily>::wf(self.layout()),
            self.first.values().dom() == self.entities().dom(),
            self.second.values().dom() == self.entities().dom(),
            self.entities().dom() == <SA::Family as StorageFamily>::ids(self.layout()).to_set(),
            <SA::Family as StorageFamily>::ids(self.layout()).no_duplicates(),
    {
        self.first.lemma_values_follow_layout();
        self.second.lemma_values_follow_layout();
    }

    /// References to both components of the entity `id`, if `id` is live.
    pub fn get(&self, id: <SA::Family as StorageFamily>::Id) -> (found: Option<(&A, &B)>)
        requires
            self.inv(),
        ensures
            match found {
                Some(fields) => lookup(self.entities(), id) == Some((*fields.0, *fields.1)),
                None => !self.entities().dom().contains(id),
            },
    {
        proof {
            self.lemma_fields_agree();
        }
        match (self.first.get(id), self.second.get(id)) {
            (Some(first), Some(second)) => Some((first, second)),
            _ => None,
        }
    }

    /// Exclusive access to both components of the entity `id`, if `id` is
    /// live. What the caller writes through the references is what the bundle
    /// then holds under `id`; nothing else changes.
    pub fn get_mut(&mut self, id: <SA::Family as StorageFamily>::Id) -> (found: Option<
        (&mut A, &mut B),
    >)
        requires
            old(self).inv(),
        ensures
            final(self).inv(),
            final(self).layout() == old(self).layout(),
            match found {
                Some(fields) => lookup(old(self).entities(), id) == Some((*fields.0, *fields.1))
                    && final(self).entities() == old(self).entities().insert(
                    id,
                    (*final(fields.0), *final(fields.1)),
                ),
                None => !old(self).entities().dom().contains(id) && final(self).entities() == old(
                    self,
                ).entities(),
            },
    {
        proof {
            self.lemma_fields_agree();
        }
        match (self.first.get_mut(id), self.second.get_mut(id)) {
            (Some(first), Some(second)) => Some((first, second)),
            _ => None,
        }
    }
}

impl<A, B, SA: Storage<A>, SB: Storage<B, Family = SA::Family, Id = SA::Id>> Archetype<
    SA::Family,
> for PairStructOf<A, B, SA, SB> {
    type Item = (A, B);

    open spec fn layout(&self) -> <SA::Family as StorageFamily>::Layout {
        self.first.layout()
    }

    open spec fn entities(&self) -> Map<<SA::Family as StorageFamily>::Id, (A, B)> {
        Map::new(
            |id: <SA::Family as StorageFamily>::Id| self.first.values().dom().contains(id),
            |id: <SA::Family as StorageFamily>::Id|
                (self.first.values()[id], self.second.values()[id]),
        )
    }

    open spec fn inv(&self) -> bool {
        &&& self.first.inv()
        &&& self.second.inv()
        &&& self.first.layout() == self.second.layout()
    }

    proof fn lemma_entities_follow_layout(&self) {
        self.lemma_fields_agree();
    }

    proof fn lemma_default_is_empty(fresh: Self) {
    }

    fn ids(&self) -> (ids: Vec<<SA::Family as StorageFamily>::Id>) {
        self.first.ids()
    }

    fn insert(&mut self, value: (A, B)) -> (id: <SA::Family as StorageFamily>::Id)
        ensures
            final(self).first.values() == old(self).first.values().insert(id, value.0),
            final(self).second.values() == old(self).second.values().insert(id, value.1),
    {
        proof {
            old(self).lemma_fields_agree();
        }
        let id = self.first.insert(value.0);
        let twin = self.second.insert(value.1);
        assert(twin == id);
        assert(self.entities() =~= old(self).entities().insert(id, value));
        id
    }

    fn can_remove(&self, id: <SA::Family as StorageFamily>::Id) -> (allowed: bool) {
        self.first.can_remove(id)
    }

    fn remove(&mut self, id: <SA::Family as StorageFamily>::Id) -> (taken: Option<(A, B)>)
        ensures
            final(self).first.values().dom() == final(self).second.values().dom(),
            final(self).first.layout() == <SA::Family as StorageFamily>::removed(
                old(self).layout(),
                id,
            ),
            final(self).second.layout() == <SA::Family as StorageFamily>::removed(
                old(self).layout(),
                id,
            ),
    {
        proof {
            old(self).lemma_fields_agree();
        }
        let first = self.first.remove(id);
        let second = self.second.remove(id);
        proof {
            self.lemma_fields_agree();
            if !old(self).entities().dom().contains(id) {
                assert(self.entities() =~= old(self).entities());
            }
        }
        // Both storages hold `id` or neither does: their layouts are equal.
        match (first, second) {
            (Some(first), Some(second)) => Some((first, second)),
            _ => None,
        }
    }
}

/// After an insertion into a bundle every field storage lists the new
/// identifier, once, and holds under it the field of the entity that belongs
/// there.
pub proof fn lemma_inserted_into_every_field<
    A,
    B,
    SA: Storage<A>,
    SB: Storage<B, Family = SA::Family, Id = SA::Id>,
>(
    before: PairStructOf<A, B, SA, SB>,
    after: PairStructOf<A, B, SA, SB>,
    id: <SA::Family as StorageFamily>::Id,
    entity: (A, B),
)
    requires
        after.inv(),
        after.first.values() == before.first.values().insert(id, entity.0),
        after.second.values() == before.second.values().insert(id, entity.1),
    ensures
        <SA::Family as StorageFamily>::ids(after.first.layout()).contains(id),
        <SA::Family as StorageFamily>::ids(after.second.layout()).contains(id),
        <SA::Family as StorageFamily>::ids(after.first.layout()).no_duplicates(),
        <SA::Family as StorageFamily>::ids(after.second.layout()).no_duplicates(),
        lookup(after.first.values(), id) == Some(entity.0),
        lookup(after.second.values(), id) == Some(entity.1),
{
    after.lemma_fields_agree();
    assert(after.first.values().dom().contains(id));
    assert(after.second.values().dom().contains(id));
}

/// After a removal from a bundle of generational storages the identifier is
/// live in none of the field storages.
pub proof fn lemma_removed_from_every_field<A, B>(
    before: PairStructOf<A, B, ArenaStorage<A>, ArenaStorage<B>>,
    after: PairStructOf<A, B, ArenaStorage<A>, ArenaStorage<B>>,
    id: Index,
)
    requires
        before.inv(),
        after.inv(),
        ArenaFamily::removable(before.layout(), id),
        after.layout() == before.layout().removed(id),
    ensures
        !after.first.values().dom().contains(id),
        !after.second.values().dom().contains(id),
        !after.entities().dom().contains(id),
{
    before.lemma_fields_agree();
    lemma_removed(before.layout(), id);
    after.first.lemma_live();
    after.second.lemma_live();
}

impl<A, B> SplitFields<VecFamily> for (A, B) {
    type StructOf = PairStructOf<A, B, Vec<A>, Vec<B>>;
}

impl<A, B> SplitFields<ArenaFamily> for (A, B) {
    type StructOf = PairStructOf<A, B, ArenaStorage<A>, ArenaStorage<B>>;
}

impl<T: SplitFields<VecFamily>> StructOfAble for Vec<T> {
    type Struct = T;

    type Family = VecFamily;
}

impl<T: SplitFields<ArenaFamily>> StructOfAble for ArenaStorage<T> {
    type Struct = T;

    type Family = ArenaFamily;
}

/// A wrapper around an [Archetype] for convenient usage in type definitions.
///
/// For example, `StructOf<Vec<(A, B)>>` uses
/// `PairStructOf<A, B, Vec<A>, Vec<B>>` underneath.
pub struct StructOf<S: StructOfAble> {
    pub inner: <S::Struct as SplitFields<S::Family>>::StructOf,
}

impl<S: StructOfAble> StructOf<S> {
    /// An empty bundle.
    pub fn new() -> (bundle: Self)
        ensures
            bundle.inv(),
            bundle.layout() == <S::Family as StorageFamily>::empty(),
            bundle.entities() == Map::<
                <S::Family as StorageFamily>::Id,
                <Self as Archetype<S::Family>>::Item,
            >::empty(),
    {
        Self::default()
    }
}

impl<S: StructOfAble> core::ops::Deref for StructOf<S> {
    type Target = <S::Struct as SplitFields<S::Family>>::StructOf;

    fn deref(&self) -> (inner: &Self::Target)
        ensures
            *inner == self.inner,
    {
        &self.inner
    }
}

impl<S: StructOfAble> core::ops::DerefMut for StructOf<S> {
    fn deref_mut(&mut self) -> (inner: &mut Self::Target)
        ensures
            *inner == old(self).inner,
            final(self).inner == *final(inner),
    {
        &mut self.inner
    }
}

impl<S: StructOfAble> Clone for StructOf<S> where
    <S::Struct as SplitFields<S::Family>>::StructOf: Clone,
 {
    fn clone(&self) -> (copy: Self)
        ensures
            cloned(self.inner, copy.inner),
    {
        StructOf { inner: self.inner.clone() }
    }
}

impl<S: StructOfAble> Default for StructOf<S> {
    fn default() -> (bundle: Self)
        ensures
            bundle.inv(),
            bundle.layout() == <S::Family as StorageFamily>::empty(),
            bundle.entities() == Map::<
                <S::Family as StorageFamily>::Id,
                <Self as Archetype<S::Family>>::Item,
            >::empty(),
    {
        let inner = <<S::Struct as SplitFields<S::Family>>::StructOf as Default>::default();
        proof {
            <<S::Struct as SplitFields<S::Family>>::StructOf as Archetype<
                S::Family,
            >>::lemma_default_is_empty(inner);
        }
        StructOf { inner }
    }
}

impl<S: StructOfAble> Archetype<S::Family> for StructOf<S> {
    type Item = <<S::Struct as SplitFields<S::Family>>::StructOf as Archetype<S::Family>>::Item;

    open spec fn layout(&self) -> <S::Family as StorageFamily>::Layout {
        self.inner.layout()
    }

    open spec fn entities(&self) -> Map<<S::Family as StorageFamily>::Id, Self::Item> {
        self.inner.entities()
    }

    open spec fn inv(&self) -> bool {
        self.inner.inv()
    }

    proof fn lemma_entities_follow_layout(&self) {
        self.inner.lemma_entities_follow_layout();
    }

    proof fn lemma_default_is_empty(fresh: Self) {
    }

    fn ids(&self) -> (ids: Vec<<S::Family as StorageFamily>::Id>) {
        self.inner.ids()
    }

    fn insert(&mut self, value: Self::Item) -> (id: <S::Family as StorageFamily>::Id) {
        self.inner.insert(value)
    }

    fn can_remove(&self, id: <S::Family as StorageFamily>::Id) -> (allowed: bool) {
        self.inner.can_remove(id)
    }

    fn remove(&mut self, id: <S::Family as StorageFamily>::Id) -> (taken: Option<Self::Item>) {
        self.inner.remove(id)
    }
}

} // verus!
