//! The generational backend: identifiers that are never handed out twice.
//!
//! A `generational_arena::Arena` hands out the identifiers and tells live ones
//! from stale ones; the values are kept beside it, one cell for each slot of
//! the arena.
use crate::storage::{Storage, StorageFamily};
use vstd::prelude::*;

verus! {

/// An identifier of the generational backend: a slot and the generation of the
/// value that was stored in it.
#[derive(Clone, Copy, Debug, PartialEq, Eq, PartialOrd, Ord, Hash, Structural)]
pub struct Index {
    pub index: usize,
    pub generation: u64,
}

impl Index {
    /// The identifier with slot `index` and generation `generation`.
    pub fn from_raw_parts(index: usize, generation: u64) -> (id: Index)
        ensures
            id.index == index,
            id.generation == generation,
    {
        Index { index, generation }
    }

    /// The slot and the generation of this identifier.
    pub fn into_raw_parts(self) -> (parts: (usize, u64))
        ensures
            parts.0 == self.index,
            parts.1 == self.generation,
    {
        (self.index, self.generation)
    }
}

/// Whether slot `id.index` exists and holds a value of generation
/// `id.generation`.
pub open spec fn occupied_by(slots: Seq<Option<u64>>, id: Index) -> bool {
    id.index < slots.len() && slots[id.index as int] == Some(id.generation)
}

/// The identifiers of the occupied slots, by ascending slot.
pub open spec fn occupants(slots: Seq<Option<u64>>) -> Seq<Index>
    decreases slots.len(),
{
    if slots.len() == 0 {
        Seq::empty()
    } else {
        let before = occupants(slots.drop_last());
        match slots.last() {
            Some(generation) => before.push(
                Index { index: (slots.len() - 1) as usize, generation },
            ),
            None => before,
        }
    }
}

/// The occupancy of a generational storage.
pub struct ArenaLayout {
    /// For each slot the generation of the value in it, or `None` for a free
    /// slot.
    pub slots: Seq<Option<u64>>,
    /// The free slots in the order in which insertions will fill them.
    pub free: Seq<usize>,
    /// The generation that the next inserted value gets. Every removal of a
    /// live identifier raises it by one.
    pub generation: u64,
}

impl ArenaLayout {
    /// Whether `id` is live.
    pub open spec fn live(self, id: Index) -> bool {
        occupied_by(self.slots, id)
    }

    /// Whether `id` is stale for good: it is not live, and its generation lies
    /// behind the one that new values get.
    pub open spec fn retired(self, id: Index) -> bool {
        !self.live(id) && id.generation < self.generation
    }

    /// The free list names free slots, each once; no value is younger than the
    /// current generation; and at least one slot exists.
    pub open spec fn wf(self) -> bool {
        &&& 0 < self.slots.len() <= usize::MAX
        &&& self.free.no_duplicates()
        &&& forall|k: int|
            0 <= k < self.free.len() ==> (#[trigger] self.free[k]) < self.slots.len()
                && self.slots[self.free[k] as int] is None
        &&& forall|i: int|
            0 <= i < self.slots.len() ==> ((#[trigger] self.slots[i]) matches Some(generation)
                ==> generation <= self.generation)
    }

    /// The layout of a new arena: four free slots, filled in ascending order.
    pub open spec fn fresh() -> ArenaLayout {
        ArenaLayout {
            slots: Seq::new(4, |i: int| None::<u64>),
            free: Seq::new(4, |i: int| i as usize),
            generation: 0,
        }
    }

    /// The identifier that the next insertion returns: the first free slot,
    /// or, where none is free, a new slot behind the last.
    pub open spec fn next_id(self) -> Index {
        Index {
            index: if self.free.len() > 0 {
                self.free[0]
            } else {
                self.slots.len() as usize
            },
            generation: self.generation,
        }
    }

    /// The layout after an insertion. Where no slot is free the number of
    /// slots doubles; the new slots behind the one that is filled are free, in
    /// ascending order.
    pub open spec fn inserted(self) -> ArenaLayout {
        if self.free.len() > 0 {
            ArenaLayout {
                slots: self.slots.update(self.free[0] as int, Some(self.generation)),
                free: self.free.drop_first(),
                generation: self.generation,
            }
        } else {
            let more = if self.slots.len() == 0 {
                0nat
            } else {
                (self.slots.len() - 1) as nat
            };
            ArenaLayout {
                slots: self.slots.push(Some(self.generation)) + Seq::new(
                    more,
                    |i: int| None::<u64>,
                ),
                free: Seq::new(more, |i: int| (self.slots.len() + 1 + i) as usize),
                generation: self.generation,
            }
        }
    }

    /// The layout after removing `id`. A live identifier frees its slot, which
    /// becomes the first to be filled again, and the generation rises by one.
    pub open spec fn removed(self, id: Index) -> ArenaLayout {
        if self.live(id) {
            ArenaLayout {
                slots: self.slots.update(id.index as int, None),
                free: seq![id.index] + self.free,
                generation: (self.generation + 1) as u64,
            }
        } else {
            self
        }
    }
}

/// What `occupants` lists: exactly the identifiers that occupy a slot, each
/// once, by ascending slot.
pub proof fn lemma_occupants(slots: Seq<Option<u64>>)
    requires
        slots.len() <= usize::MAX,
    ensures
        forall|id: Index| #[trigger] occupants(slots).contains(id) <==> occupied_by(slots, id),
        forall|i: int, j: int|
            0 <= i < j < occupants(slots).len() ==> (#[trigger] occupants(slots)[i]).index < (
            #[trigger] occupants(slots)[j]).index,
        occupants(slots).no_duplicates(),
    decreases slots.len(),
{
    if slots.len() > 0 {
        let head = slots.drop_last();
        let before = occupants(head);
        lemma_occupants(head);
        let last = (slots.len() - 1) as usize;
        assert forall|id: Index| #[trigger] occupants(slots).contains(id) <==> occupied_by(
            slots,
            id,
        ) by {
            if id.index < head.len() {
                assert(head[id.index as int] == slots[id.index as int]);
            }
            assert(before.contains(id) <==> occupied_by(head, id));
            match slots.last() {
                Some(generation) => {
                    let newest = Index { index: last, generation };
                    assert(occupants(slots) == before.push(newest));
                    if occupants(slots).contains(id) {
                        let k = choose|k: int|
                            0 <= k < occupants(slots).len() && occupants(slots)[k] == id;
                        if k < before.len() {
                            assert(before[k] == id);
                            assert(before.contains(id));
                        }
                    }
                    if occupied_by(slots, id) {
                        if id.index == last {
                            assert(occupants(slots)[before.len() as int] == id);
                        } else {
                            let k = choose|k: int| 0 <= k < before.len() && before[k] == id;
                            assert(occupants(slots)[k] == id);
                        }
                    }
                },
                None => {},
            }
        }
        assert forall|k: int| 0 <= k < before.len() implies (#[trigger] before[k]).index
            < last by {
            assert(before.contains(before[k]));
        }
    }
}

/// The contents of an arena, slot by slot: the generation of the value in an
/// occupied slot, `None` for a free slot.
pub uninterp spec fn arena_slots(arena: generational_arena::Arena<()>) -> Seq<Option<u64>>;

/// The free list of an arena, from its head.
pub uninterp spec fn arena_free(arena: generational_arena::Arena<()>) -> Seq<usize>;

/// The generation counter of an arena.
pub uninterp spec fn arena_generation(arena: generational_arena::Arena<()>) -> u64;

#[verifier::external_type_specification]
#[verifier::external_body]
#[verifier::reject_recursive_types(T)]
pub struct ExArena<T>(generational_arena::Arena<T>);

/// `generational_arena::Arena::new`: an arena of four free slots that are
/// chained in ascending order, with generation zero.
#[verifier::external_body]
fn arena_new() -> (arena: generational_arena::Arena<()>)
    ensures
        arena_slots(arena) == Seq::new(4, |i: int| None::<u64>),
        arena_free(arena) == Seq::new(4, |i: int| i as usize),
        arena_generation(arena) == 0,
{
    generational_arena::Arena::new()
}

/// `generational_arena::Arena::insert`: the value gets the current generation
/// and goes to the head of the free list. Where the free list is empty, the
/// arena first grows by as many slots as it has (by one where it has none) and
/// chains the new slots in ascending order, so the value goes to the first new
/// slot. The slots are the elements of a `Vec`, so their number fits a
/// `usize`. Running out of memory while growing is not modelled.
#[verifier::external_body]
fn arena_insert(arena: &mut generational_arena::Arena<()>) -> (id: Index)
    ensures
        id.generation == arena_generation(*old(arena)),
        arena_generation(*final(arena)) == arena_generation(*old(arena)),
        arena_slots(*final(arena)).len() <= usize::MAX,
        arena_free(*old(arena)).len() > 0 ==> {
            &&& id.index == arena_free(*old(arena))[0]
            &&& arena_slots(*final(arena)) == arena_slots(*old(arena)).update(
                id.index as int,
                Some(id.generation),
            )
            &&& arena_free(*final(arena)) == arena_free(*old(arena)).drop_first()
        },
        arena_free(*old(arena)).len() == 0 ==> {
            let slots = arena_slots(*old(arena));
            let more = if slots.len() == 0 {
                0nat
            } else {
                (slots.len() - 1) as nat
            };
            &&& id.index == slots.len()
            &&& arena_slots(*final(arena)) == slots.push(Some(id.generation)) + Seq::new(
                more,
                |i: int| None::<u64>,
            )
            &&& arena_free(*final(arena)) == Seq::new(
                more,
                |i: int| (slots.len() + 1 + i) as usize,
            )
        },
{
    let (index, generation) = arena.insert(()).into_raw_parts();
    Index { index, generation }
}

/// `generational_arena::Arena::remove`: where the slot of `id` holds a value
/// of the generation of `id`, the slot becomes the head of the free list and
/// the generation counter rises by one; otherwise nothing changes. The
/// counter must not overflow.
#[verifier::external_body]
fn arena_remove(arena: &mut generational_arena::Arena<()>, id: Index) -> (removed: Option<()>)
    requires
        occupied_by(arena_slots(*old(arena)), id) ==> arena_generation(*old(arena)) < u64::MAX,
    ensures
        removed is Some <==> occupied_by(arena_slots(*old(arena)), id),
        removed is Some ==> {
            &&& arena_slots(*final(arena)) == arena_slots(*old(arena)).update(
                id.index as int,
                None,
            )
            &&& arena_free(*final(arena)) == seq![id.index] + arena_free(*old(arena))
            &&& arena_generation(*final(arena)) == arena_generation(*old(arena)) + 1
        },
        removed is None ==> {
            &&& arena_slots(*final(arena)) == arena_slots(*old(arena))
            &&& arena_free(*final(arena)) == arena_free(*old(arena))
            &&& arena_generation(*final(arena)) == arena_generation(*old(arena))
        },
{
    arena.remove(generational_arena::Index::from_raw_parts(id.index, id.generation))
}

/// `generational_arena::Arena::contains`: whether the slot of `id` holds a
/// value of the generation of `id`.
#[verifier::external_body]
fn arena_contains(arena: &generational_arena::Arena<()>, id: Index) -> (live: bool)
    ensures
        live == occupied_by(arena_slots(*arena), id),
{
    arena.contains(generational_arena::Index::from_raw_parts(id.index, id.generation))
}

/// `generational_arena::Arena::iter`: the identifiers of the occupied slots,
/// by ascending slot.
#[verifier::external_body]
fn arena_ids(arena: &generational_arena::Arena<()>) -> (ids: Vec<Index>)
    ensures
        ids@ == occupants(arena_slots(*arena)),
{
    arena.iter().map(|(id, _)| id.into_raw_parts()).map(
        |(index, generation)| Index { index, generation },
    ).collect()
}

/// `Clone::clone` of `generational_arena::Arena`, which is derived: the copy
/// has the same slots, the same free list and the same generation counter.
#[verifier::external_body]
fn arena_clone(arena: &generational_arena::Arena<()>) -> (copy: generational_arena::Arena<()>)
    ensures
        arena_slots(copy) == arena_slots(*arena),
        arena_free(copy) == arena_free(*arena),
        arena_generation(copy) == arena_generation(*arena),
{
    arena.clone()
}

/// The family of generational storages. An identifier is a slot together with
/// the generation of the value in it. A freed slot is the first to be filled
/// again, by a value of a later generation, so an identifier that was removed
/// never comes back to life.
pub struct ArenaFamily;

impl StorageFamily for ArenaFamily {
    type Id = Index;

    type Layout = ArenaLayout;

    open spec fn wf(layout: ArenaLayout) -> bool {
        layout.wf()
    }

    open spec fn empty() -> ArenaLayout {
        ArenaLayout::fresh()
    }

    open spec fn ids(layout: ArenaLayout) -> Seq<Index> {
        occupants(layout.slots)
    }

    open spec fn next_id(layout: ArenaLayout) -> Index {
        layout.next_id()
    }

    open spec fn inserted(layout: ArenaLayout) -> ArenaLayout {
        layout.inserted()
    }

    open spec fn removable(layout: ArenaLayout, id: Index) -> bool {
        layout.live(id) ==> layout.generation < u64::MAX
    }

    open spec fn removed(layout: ArenaLayout, id: Index) -> ArenaLayout {
        layout.removed(id)
    }

    open spec fn origin(layout: ArenaLayout, removed: Index, id: Index) -> Index {
        id
    }

    proof fn lemma_removing_absent_is_idle(layout: ArenaLayout, id: Index) {
        lemma_occupants(layout.slots);
    }
}

/// An insertion keeps a layout well formed, and the identifier it returns was
/// not live before.
pub proof fn lemma_inserted(layout: ArenaLayout)
    requires
        layout.wf(),
        layout.inserted().slots.len() <= usize::MAX,
    ensures
        layout.inserted().wf(),
        !layout.live(layout.next_id()),
        layout.inserted().live(layout.next_id()),
        forall|id: Index|
            id != layout.next_id() ==> (#[trigger] layout.inserted().live(id) <==> layout.live(
                id,
            )),
{
    let after = layout.inserted();
    let next = layout.next_id();
    if layout.free.len() > 0 {
        assert(layout.free[0] < layout.slots.len() && layout.slots[layout.free[0] as int] is None);
        assert forall|k: int| 0 <= k < after.free.len() implies (#[trigger] after.free[k])
            < after.slots.len() && after.slots[after.free[k] as int] is None by {
            assert(after.free[k] == layout.free[k + 1]);
            assert(layout.free[k + 1] != layout.free[0]);
        }
        assert forall|i: int, j: int|
            0 <= i < after.free.len() && 0 <= j < after.free.len() && i != j implies after.free[i]
            != after.free[j] by {
            assert(after.free[i] == layout.free[i + 1] && after.free[j] == layout.free[j + 1]);
        }
    } else {
        assert(after.slots.len() == 2 * layout.slots.len());
    }
}

/// A removal keeps a layout well formed; the removed identifier is retired
/// afterwards, and no other identifier changes between live and not live.
pub proof fn lemma_removed(layout: ArenaLayout, id: Index)
    requires
        layout.wf(),
        layout.live(id) ==> layout.generation < u64::MAX,
    ensures
        layout.removed(id).wf(),
        !layout.removed(id).live(id),
        layout.live(id) ==> layout.removed(id).retired(id),
        forall|other: Index|
            other != id ==> (#[trigger] layout.removed(id).live(other) <==> layout.live(other)),
{
    let after = layout.removed(id);
    if layout.live(id) {
        assert forall|k: int| 0 <= k < after.free.len() implies (#[trigger] after.free[k])
            < after.slots.len() && after.slots[after.free[k] as int] is None by {
            if k > 0 {
                assert(after.free[k] == layout.free[k - 1]);
            }
        }
        assert forall|i: int, j: int|
            0 <= i < after.free.len() && 0 <= j < after.free.len() && i != j implies after.free[i]
            != after.free[j] by {
            if i > 0 {
                assert(after.free[i] == layout.free[i - 1]);
            }
            if j > 0 {
                assert(after.free[j] == layout.free[j - 1]);
            }
        }
        assert(layout.slots[id.index as int] == Some(id.generation));
    }
}

/// An identifier that was removed stays retired when a value is inserted,
/// also where the insertion fills its slot again: the identifier that the
/// insertion returns is another one.
pub proof fn lemma_retired_survives_insertion(layout: ArenaLayout, id: Index)
    requires
        layout.wf(),
        layout.retired(id),
    ensures
        layout.next_id() != id,
        layout.inserted().retired(id),
{
    if id.index < layout.slots.len() && layout.free.len() > 0 && id.index != layout.free[0] {
        assert(layout.inserted().slots[id.index as int] == layout.slots[id.index as int]);
    }
}

/// An identifier that was removed stays retired when any identifier is
/// removed.
pub proof fn lemma_retired_survives_removal(layout: ArenaLayout, id: Index, other: Index)
    requires
        layout.wf(),
        layout.retired(id),
        layout.live(other) ==> layout.generation < u64::MAX,
    ensures
        layout.removed(other).retired(id),
{
}

/// One change of a generational storage.
pub enum ArenaOp {
    /// A value is inserted.
    Insert,
    /// The identifier is removed.
    Remove(Index),
}

/// The layout after one change.
pub open spec fn step(layout: ArenaLayout, op: ArenaOp) -> ArenaLayout {
    match op {
        ArenaOp::Insert => layout.inserted(),
        ArenaOp::Remove(id) => layout.removed(id),
    }
}

/// Whether one change stays within the limits of the machine: the number of
/// slots fits a `usize`, and the generation counter does not overflow.
pub open spec fn feasible(layout: ArenaLayout, op: ArenaOp) -> bool {
    match op {
        ArenaOp::Insert => layout.inserted().slots.len() <= usize::MAX,
        ArenaOp::Remove(id) => layout.live(id) ==> layout.generation < u64::MAX,
    }
}

/// The layout after a sequence of changes.
pub open spec fn run(layout: ArenaLayout, ops: Seq<ArenaOp>) -> ArenaLayout
    decreases ops.len(),
{
    if ops.len() == 0 {
        layout
    } else {
        step(run(layout, ops.drop_last()), ops.last())
    }
}

/// Whether every change of a sequence stays within the limits of the machine.
pub open spec fn all_feasible(layout: ArenaLayout, ops: Seq<ArenaOp>) -> bool
    decreases ops.len(),
{
    ops.len() > 0 ==> all_feasible(layout, ops.drop_last()) && feasible(
        run(layout, ops.drop_last()),
        ops.last(),
    )
}

/// Non-aliasing: an identifier that was removed is never live again, whatever
/// is inserted and removed afterwards.
pub proof fn lemma_retired_forever(layout: ArenaLayout, id: Index, ops: Seq<ArenaOp>)
    requires
        layout.wf(),
        layout.retired(id),
        all_feasible(layout, ops),
    ensures
        run(layout, ops).wf(),
        run(layout, ops).retired(id),
        !run(layout, ops).live(id),
    decreases ops.len(),
{
    if ops.len() > 0 {
        let before = run(layout, ops.drop_last());
        lemma_retired_forever(layout, id, ops.drop_last());
        match ops.last() {
            ArenaOp::Insert => {
                lemma_inserted(before);
                lemma_retired_survives_insertion(before, id);
            },
            ArenaOp::Remove(other) => {
                lemma_removed(before, other);
                lemma_retired_survives_removal(before, id, other);
            },
        }
    }
}

/// Reuse: the slot of a removed identifier is the next to be filled, by a
/// value of a later generation.
pub proof fn lemma_freed_slot_is_next(layout: ArenaLayout, id: Index)
    requires
        layout.wf(),
        layout.live(id),
        layout.generation < u64::MAX,
    ensures
        layout.removed(id).next_id().index == id.index,
        layout.removed(id).next_id().generation > id.generation,
{
    assert(layout.removed(id).free[0] == id.index);
    assert(layout.slots[id.index as int] == Some(id.generation));
}

/// Reuse, from the start: a value that is inserted right after another was
/// inserted and removed gets the slot of that other value and a later
/// generation.
pub proof fn lemma_insert_remove_insert(layout: ArenaLayout)
    requires
        layout.wf(),
        layout.inserted().slots.len() <= usize::MAX,
        layout.generation < u64::MAX,
    ensures
        ({
            let first = layout.next_id();
            let second = layout.inserted().removed(first).next_id();
            second.index == first.index && second.generation > first.generation
        }),
{
    lemma_inserted(layout);
    lemma_freed_slot_is_next(layout.inserted(), layout.next_id());
}

/// Removing the same identifier twice: after the first removal the identifier
/// is not live, so the second removal changes nothing.
pub proof fn lemma_removed_twice(layout: ArenaLayout, id: Index)
    requires
        layout.wf(),
        layout.live(id) ==> layout.generation < u64::MAX,
    ensures
        !layout.removed(id).live(id),
        layout.removed(id).removed(id) == layout.removed(id),
{
    lemma_removed(layout, id);
}

/// A storage of the generational family.
pub struct ArenaStorage<T> {
    /// Hands out the identifiers and knows which are live.
    slots: generational_arena::Arena<()>,
    /// The value of each occupied slot, at the position of the slot.
    values: Vec<Option<T>>,
    /// The generation counter of `slots`.
    generation: u64,
}

impl<T> ArenaStorage<T> {
    /// An empty storage.
    pub fn new() -> (arena: Self)
        ensures
            arena.inv(),
            arena.layout() == ArenaLayout::fresh(),
            arena.values() == Map::<Index, T>::empty(),
    {
        let arena = ArenaStorage { slots: arena_new(), values: Vec::new(), generation: 0 };
        assert(arena.values() =~= Map::<Index, T>::empty());
        arena
    }

    /// The identifiers under which values are stored are those that the
    /// layout calls live: those that `ids` lists.
    pub proof fn lemma_live(&self)
        requires
            self.inv(),
        ensures
            self.layout().wf(),
            forall|id: Index| #[trigger] self.values().dom().contains(id) <==> self.layout().live(id),
            forall|id: Index| #[trigger]
                occupants(self.layout().slots).contains(id) <==> self.layout().live(id),
            occupants(self.layout().slots).no_duplicates(),
    {
        lemma_occupants(self.layout().slots);
    }
}

impl<T: Clone> Clone for ArenaStorage<T> {
    /// A storage with the same identifiers, each for a clone of its value.
    fn clone(&self) -> (copy: Self)
        ensures
            copy.layout() == self.layout(),
            self.inv() ==> copy.inv(),
            copy.values().dom() == self.values().dom(),
            self.inv() ==> forall|id: Index| #[trigger]
                self.values().dom().contains(id) ==> cloned(
                    self.values()[id],
                    copy.values()[id],
                ),
    {
        let copy = ArenaStorage {
            slots: arena_clone(&self.slots),
            values: self.values.clone(),
            generation: self.generation,
        };
        assert(copy.values().dom() =~= self.values().dom());
        copy
    }
}

impl<T> Default for ArenaStorage<T> {
    fn default() -> (arena: Self)
        ensures
            arena.inv(),
            arena.layout() == ArenaLayout::fresh(),
            arena.values() == Map::<Index, T>::empty(),
    {
        ArenaStorage::new()
    }
}

impl<T> Storage<T> for ArenaStorage<T> {
    type Family = ArenaFamily;

    type Id = Index;

    closed spec fn layout(&self) -> ArenaLayout {
        ArenaLayout {
            slots: arena_slots(self.slots),
            free: arena_free(self.slots),
            generation: arena_generation(self.slots),
        }
    }

    closed spec fn values(&self) -> Map<Index, T> {
        Map::new(
            |id: Index| self.layout().live(id),
            |id: Index| self.values@[id.index as int]->0,
        )
    }

    closed spec fn inv(&self) -> bool {
        &&& self.layout().wf()
        &&& self.generation == self.layout().generation
        &&& forall|i: int|
            0 <= i < self.layout().slots.len() && (#[trigger] self.layout().slots[i]) is Some ==> i
                < self.values@.len() && self.values@[i] is Some
    }

    proof fn lemma_values_follow_layout(&self) {
        self.lemma_live();
    }

    proof fn lemma_default_is_empty(fresh: Self) {
    }

    fn ids(&self) -> (ids: Vec<Index>) {
        arena_ids(&self.slots)
    }

    fn insert(&mut self, value: T) -> (id: Index)
        ensures
            forall|stale: Index| #[trigger]
                old(self).layout().retired(stale) ==> stale != id && final(self).layout().retired(
                    stale,
                ),
    {
        let ghost before = self.layout();
        let id = arena_insert(&mut self.slots);
        assert(self.layout() == before.inserted());
        proof {
            lemma_inserted(before);
            assert forall|stale: Index| #[trigger] before.retired(stale) implies stale != id
                && before.inserted().retired(stale) by {
                lemma_retired_survives_insertion(before, stale);
            }
        }
        while self.values.len() <= id.index
            invariant
                self.layout() == before.inserted(),
                self.generation == old(self).generation,
                self.values@.len() >= old(self).values@.len(),
                forall|i: int|
                    0 <= i < old(self).values@.len() ==> self.values@[i] == old(self).values@[i],
            decreases id.index + 1 - self.values@.len(),
        {
            self.values.push(None);
        }
        self.values[id.index] = Some(value);
        assert(self.values() =~= old(self).values().insert(id, value));
        id
    }

    fn get(&self, id: Index) -> (found: Option<&T>)
        ensures
            found is Some <==> self.layout().live(id),
    {
        if arena_contains(&self.slots, id) {
            self.values[id.index].as_ref()
        } else {
            None
        }
    }

    fn get_mut(&mut self, id: Index) -> (found: Option<&mut T>) {
        if arena_contains(&self.slots, id) {
            self.values[id.index].as_mut()
        } else {
            None
        }
    }

    fn can_remove(&self, id: Index) -> (allowed: bool) {
        !arena_contains(&self.slots, id) || self.generation < u64::MAX
    }

    fn remove(&mut self, id: Index) -> (taken: Option<T>)
        ensures
            taken is Some <==> old(self).layout().live(id),
            !final(self).layout().live(id),
            taken is Some ==> final(self).layout().retired(id),
            forall|stale: Index| #[trigger]
                old(self).layout().retired(stale) ==> final(self).layout().retired(stale),
    {
        proof {
            lemma_removed(self.layout(), id);
        }
        match arena_remove(&mut self.slots, id) {
            Some(()) => {
                self.generation = self.generation + 1;
                self.values[id.index].take()
            },
            None => None,
        }
    }

    fn iter(&self) -> (pairs: Vec<(Index, &T)>) {
        let ids = arena_ids(&self.slots);
        proof {
            lemma_occupants(self.layout().slots);
        }
        let mut pairs: Vec<(Index, &T)> = Vec::new();
        let mut next: usize = 0;
        while next < ids.len()
            invariant
                next <= ids@.len(),
                self.inv(),
                ids@ == occupants(self.layout().slots),
                forall|id: Index| #[trigger]
                    ids@.contains(id) <==> self.layout().live(id),
                pairs@.len() == next,
                forall|k: int|
                    0 <= k < next ==> (#[trigger] pairs@[k]).0 == ids@[k] && *pairs@[k].1
                        == self.values()[ids@[k]],
            decreases ids@.len() - next,
        {
            let id = ids[next];
            assert(ids@.contains(id));
            match self.values[id.index].as_ref() {
                Some(value) => {
                    pairs.push((id, value));
                },
                None => {},
            }
            next = next + 1;
        }
        pairs
    }

    fn iter_mut(&mut self) -> (pairs: Vec<(Index, &mut T)>) {
        let ids = arena_ids(&self.slots);
        let ghost layout = self.layout();
        let ghost before = self.values@;
        proof {
            lemma_occupants(layout.slots);
            assert forall|k: int| 0 <= k < ids@.len() implies layout.live(#[trigger] ids@[k]) by {
                assert(ids@.contains(ids@[k]));
            }
        }
        let cells: usize = self.values.len();
        let mut rest: &mut [Option<T>] = self.values.as_mut_slice();
        let ghost end = final(rest)@;
        let mut pairs: Vec<(Index, &mut T)> = Vec::new();
        let mut at: usize = 0;
        let mut next: usize = 0;
        while next < ids.len()
            invariant
                next <= ids@.len(),
                ids@ == occupants(layout.slots),
                forall|i: int, j: int|
                    0 <= i < j < ids@.len() ==> (#[trigger] ids@[i]).index < (#[trigger] ids@[j]).index,
                forall|k: int|
                    0 <= k < ids@.len() ==> (#[trigger] ids@[k]).index < before.len()
                        && before[ids@[k].index as int] is Some,
                before.len() == cells,
                at <= before.len(),
                rest@ == before.subrange(at as int, before.len() as int),
                forall|k: int| next <= k < ids@.len() ==> at <= (#[trigger] ids@[k]).index,
                pairs@.len() == next,
                forall|k: int|
                    0 <= k < next ==> (#[trigger] pairs@[k]).0 == ids@[k] && *pairs@[k].1
                        == before[ids@[k].index as int]->0,
                end.len() == at + final(rest)@.len(),
                forall|i: int| at <= i < end.len() ==> end[i] == final(rest)@[i - at],
                forall|k: int|
                    0 <= k < next ==> ids@[k].index < at && end[ids@[k].index as int] == Some(
                        *final((#[trigger] pairs@[k]).1),
                    ),
            decreases ids@.len() - next,
        {
            let id = ids[next];
            let whole = rest;
            let (skipped, tail) = whole.split_at_mut(id.index - at);
            let (cell, after) = tail.split_at_mut(1);
            match cell.first_mut() {
                Some(slot) => {
                    match slot.as_mut() {
                        Some(value) => {
                            pairs.push((id, value));
                        },
                        None => {},
                    }
                },
                None => {},
            }
            rest = after;
            at = id.index + 1;
            next = next + 1;
        }
        proof {
            assert forall|k: int| 0 <= k < ids@.len() implies layout.live(#[trigger] ids@[k]) by {
                assert(ids@.contains(ids@[k]));
            }
            assert forall|i: int|
                0 <= i < layout.slots.len() && (#[trigger] layout.slots[i]) is Some implies i
                < end.len() && end[i] is Some by {
                let id = Index { index: i as usize, generation: layout.slots[i]->0 };
                assert(layout.live(id));
                assert(ids@.contains(id));
                let k = choose|k: int| 0 <= k < ids@.len() && ids@[k] == id;
                assert(end[ids@[k].index as int] == Some(*final(pairs@[k].1)));
            }
        }
        pairs
    }
}

} // verus!
