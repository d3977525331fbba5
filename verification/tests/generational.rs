use component_storage::{ArenaFamily, ArenaStorage, Index, Storage};

#[test]
fn index_keeps_its_raw_parts() {
    let id = Index::from_raw_parts(3, 17);
    assert_eq!(id.index, 3);
    assert_eq!(id.generation, 17);
    assert_eq!(id.into_raw_parts(), (3, 17));
    assert_eq!(id, Index { index: 3, generation: 17 });
    assert_ne!(id, Index { index: 3, generation: 18 });
}

#[test]
fn new_storage_is_empty() {
    let storage: ArenaStorage<u8> = ArenaStorage::new();
    assert!(storage.ids().is_empty());
    assert!(storage.iter().is_empty());
    assert_eq!(storage.get(Index::from_raw_parts(0, 0)), None);
    let other: ArenaStorage<u8> = Default::default();
    assert!(other.ids().is_empty());
}

#[test]
fn slots_are_filled_in_ascending_order() {
    let mut storage: ArenaStorage<usize> = ArenaStorage::new();
    for slot in 0..4usize {
        assert_eq!(storage.insert(slot), Index::from_raw_parts(slot, 0));
    }
}

#[test]
fn storage_grows_behind_the_last_slot() {
    let mut storage: ArenaStorage<usize> = ArenaStorage::new();
    for slot in 0..20usize {
        assert_eq!(storage.insert(slot * 10), Index::from_raw_parts(slot, 0));
    }
    for slot in 0..20usize {
        assert_eq!(storage.get(Index::from_raw_parts(slot, 0)), Some(&(slot * 10)));
    }
    assert_eq!(storage.ids().len(), 20);
}

#[test]
fn removed_identifier_never_resolves_again() {
    let mut storage: ArenaStorage<&str> = ArenaStorage::new();
    let stale = storage.insert("first");
    assert_eq!(storage.remove(stale), Some("first"));
    assert_eq!(storage.get(stale), None);
    let mut reused = Vec::new();
    for round in 0..10 {
        let id = storage.insert("later");
        assert_ne!(id, stale);
        assert_eq!(storage.get(stale), None);
        assert!(storage.get_mut(stale).is_none());
        if round % 2 == 0 {
            assert_eq!(storage.remove(id), Some("later"));
            assert_eq!(storage.get(stale), None);
        } else {
            reused.push(id);
        }
    }
    assert!(reused.as_slice().iter().any(|id| id.index == stale.index));
    assert!(!storage.ids().contains(&stale));
}

#[test]
fn freed_slot_is_reused_with_a_later_generation() {
    let mut storage: ArenaStorage<char> = ArenaStorage::new();
    let a = storage.insert('A');
    assert_eq!(storage.remove(a), Some('A'));
    let b = storage.insert('B');
    assert_eq!(b.index, a.index);
    assert!(b.generation > a.generation);
    assert_eq!(a, Index::from_raw_parts(0, 0));
    assert_eq!(b, Index::from_raw_parts(0, 1));
    assert_eq!(storage.get(b), Some(&'B'));
    assert_eq!(storage.get(a), None);
}

#[test]
fn most_recently_freed_slot_is_filled_first() {
    let mut storage: ArenaStorage<u8> = ArenaStorage::new();
    let ids: Vec<Index> = (0..4u8).map(|value| storage.insert(value)).collect();
    assert_eq!(storage.remove(ids[1]), Some(1));
    assert_eq!(storage.remove(ids[3]), Some(3));
    assert_eq!(storage.insert(30), Index::from_raw_parts(3, 2));
    assert_eq!(storage.insert(10), Index::from_raw_parts(1, 2));
    assert_eq!(storage.insert(40), Index::from_raw_parts(4, 2));
}

#[test]
fn ids_are_listed_by_slot_not_by_insertion() {
    let mut storage: ArenaStorage<u8> = ArenaStorage::new();
    let a = storage.insert(1);
    let b = storage.insert(2);
    let c = storage.insert(3);
    assert_eq!(storage.remove(a), Some(1));
    let d = storage.insert(4);
    assert_eq!(d, Index::from_raw_parts(0, 1));
    assert_eq!(storage.ids(), vec![d, b, c]);
    assert_eq!(storage.iter(), vec![(d, &4), (b, &2), (c, &3)]);
}

#[test]
fn identifiers_of_unknown_slots_or_generations_are_absent() {
    let mut storage: ArenaStorage<u8> = ArenaStorage::new();
    let a = storage.insert(1);
    assert_eq!(storage.get(Index::from_raw_parts(a.index, a.generation + 1)), None);
    assert_eq!(storage.get(Index::from_raw_parts(1, 0)), None);
    assert_eq!(storage.get(Index::from_raw_parts(1000, 0)), None);
    assert_eq!(storage.remove(Index::from_raw_parts(1000, 0)), None);
    assert_eq!(storage.remove(Index::from_raw_parts(a.index, 5)), None);
    assert_eq!(storage.ids(), vec![a]);
    assert_eq!(storage.get(a), Some(&1));
}

#[test]
fn second_removal_finds_nothing_and_changes_nothing() {
    let mut storage: ArenaStorage<u8> = ArenaStorage::new();
    let a = storage.insert(1);
    let b = storage.insert(2);
    assert_eq!(storage.remove(a), Some(1));
    assert_eq!(storage.remove(a), None);
    assert_eq!(storage.ids(), vec![b]);
    assert_eq!(storage.get(b), Some(&2));
    assert_eq!(storage.insert(3), Index::from_raw_parts(0, 1));
}

#[test]
fn get_mut_writes_through() {
    let mut storage: ArenaStorage<String> = ArenaStorage::new();
    let a = storage.insert(String::from("a"));
    let b = storage.insert(String::from("b"));
    match storage.get_mut(b) {
        Some(value) => value.push('!'),
        None => panic!("the identifier is live"),
    }
    assert_eq!(storage.get(a), Some(&String::from("a")));
    assert_eq!(storage.get(b), Some(&String::from("b!")));
}

#[test]
fn iter_mut_writes_through() {
    let mut storage: ArenaStorage<u32> = ArenaStorage::new();
    let ids: Vec<Index> = (0..6u32).map(|value| storage.insert(value)).collect();
    assert_eq!(storage.remove(ids[0]), Some(0));
    assert_eq!(storage.remove(ids[4]), Some(4));
    let mut seen = Vec::new();
    for (id, value) in storage.iter_mut() {
        seen.push(id);
        *value += 100;
    }
    assert_eq!(seen, vec![ids[1], ids[2], ids[3], ids[5]]);
    assert_eq!(storage.get(ids[1]), Some(&101));
    assert_eq!(storage.get(ids[2]), Some(&102));
    assert_eq!(storage.get(ids[3]), Some(&103));
    assert_eq!(storage.get(ids[5]), Some(&105));
    assert_eq!(storage.get(ids[0]), None);
    assert_eq!(storage.get(ids[4]), None);
}

#[test]
fn identifiers_are_those_of_the_arena() {
    let mut storage: ArenaStorage<u32> = ArenaStorage::new();
    let mut arena: generational_arena::Arena<u32> = generational_arena::Arena::new();
    let mut live: Vec<(Index, generational_arena::Index)> = Vec::new();
    for round in 0..60u32 {
        if round % 3 == 2 {
            let (mine, theirs) = live.remove((round as usize * 7) % live.len());
            assert_eq!(storage.remove(mine), arena.remove(theirs));
        } else {
            let mine = storage.insert(round);
            let theirs = arena.insert(round);
            assert_eq!(mine.into_raw_parts(), theirs.into_raw_parts());
            live.push((mine, theirs));
        }
        let listed: Vec<(usize, u64)> = storage.ids().into_iter().map(Index::into_raw_parts).collect();
        let expected: Vec<(usize, u64)> = arena.iter().map(|(id, _)| id.into_raw_parts()).collect();
        assert_eq!(listed, expected);
    }
    for (mine, theirs) in live {
        assert_eq!(storage.get(mine), arena.get(theirs));
    }
}

#[test]
fn clone_keeps_identifiers_and_values() {
    let mut storage: ArenaStorage<u8> = ArenaStorage::new();
    let a = storage.insert(1);
    let b = storage.insert(2);
    assert_eq!(storage.remove(a), Some(1));
    let mut copy = storage.clone();
    assert_eq!(copy.ids(), vec![b]);
    assert_eq!(copy.get(b), Some(&2));
    assert_eq!(copy.insert(3), Index::from_raw_parts(0, 1));
    assert_eq!(storage.ids(), vec![b]);
    assert_eq!(storage.insert(4), Index::from_raw_parts(0, 1));
    assert_eq!(copy.get(Index::from_raw_parts(0, 1)), Some(&3));
}

#[test]
fn can_remove_live_and_stale_identifiers() {
    let mut storage: ArenaStorage<u8> = ArenaStorage::new();
    let a = storage.insert(1);
    assert!(storage.can_remove(a));
    assert_eq!(storage.remove(a), Some(1));
    assert!(storage.can_remove(a));
}

#[test]
fn phantom_data_names_the_family() {
    let storage: ArenaStorage<u8> = ArenaStorage::new();
    let marker: std::marker::PhantomData<ArenaFamily> = storage.phantom_data();
    assert_eq!(marker, std::marker::PhantomData);
}
