use component_storage::{Storage, VecFamily};

#[test]
fn dense_insert_returns_the_length_before() {
    let mut storage: Vec<&str> = Vec::new();
    assert_eq!(Storage::insert(&mut storage, "a"), 0);
    assert_eq!(Storage::insert(&mut storage, "b"), 1);
    assert_eq!(Storage::insert(&mut storage, "c"), 2);
    assert_eq!(storage, vec!["a", "b", "c"]);
}

#[test]
fn dense_ids_are_contiguous_in_every_state() {
    let mut storage: Vec<u32> = Vec::new();
    assert_eq!(Storage::ids(&storage), Vec::<usize>::new());
    for value in 0..7u32 {
        Storage::insert(&mut storage, value);
        let expected: Vec<usize> = (0..storage.len()).collect();
        assert_eq!(Storage::ids(&storage), expected);
    }
    for id in [3usize, 0, 4, 9, 0] {
        Storage::remove(&mut storage, id);
        let expected: Vec<usize> = (0..storage.len()).collect();
        assert_eq!(Storage::ids(&storage), expected);
    }
    assert_eq!(Storage::ids(&storage), vec![0, 1, 2]);
}

#[test]
fn dense_removal_reassigns_the_last_identifier() {
    let mut storage: Vec<char> = Vec::new();
    assert_eq!(Storage::insert(&mut storage, 'A'), 0);
    assert_eq!(Storage::insert(&mut storage, 'B'), 1);
    assert_eq!(Storage::insert(&mut storage, 'C'), 2);
    assert_eq!(Storage::remove(&mut storage, 0), Some('A'));
    assert_eq!(Storage::ids(&storage), vec![0, 1]);
    assert_eq!(Storage::get(&storage, 0), Some(&'C'));
    assert_eq!(Storage::get(&storage, 1), Some(&'B'));
    assert_eq!(Storage::get(&storage, 2), None);
}

#[test]
fn dense_removal_of_the_last_identifier_moves_nothing() {
    let mut storage: Vec<char> = vec!['A', 'B', 'C'];
    assert_eq!(Storage::remove(&mut storage, 2), Some('C'));
    assert_eq!(storage, vec!['A', 'B']);
}

#[test]
fn dense_removal_out_of_range_changes_nothing() {
    let mut storage: Vec<char> = vec!['A', 'B'];
    assert_eq!(Storage::remove(&mut storage, 2), None);
    assert_eq!(Storage::remove(&mut storage, usize::MAX), None);
    assert_eq!(storage, vec!['A', 'B']);
    let mut empty: Vec<char> = Vec::new();
    assert_eq!(Storage::remove(&mut empty, 0), None);
    assert!(empty.is_empty());
}

#[test]
fn dense_second_removal_of_the_last_identifier_finds_nothing() {
    let mut storage: Vec<char> = vec!['A', 'B', 'C'];
    assert_eq!(Storage::remove(&mut storage, 2), Some('C'));
    assert_eq!(Storage::remove(&mut storage, 2), None);
    assert_eq!(storage, vec!['A', 'B']);
}

#[test]
fn dense_second_removal_of_a_reassigned_identifier_takes_the_moved_value() {
    let mut storage: Vec<char> = vec!['A', 'B', 'C'];
    assert_eq!(Storage::remove(&mut storage, 0), Some('A'));
    assert_eq!(Storage::remove(&mut storage, 0), Some('C'));
    assert_eq!(storage, vec!['B']);
}

#[test]
fn dense_get_is_absent_beyond_the_length() {
    let storage: Vec<u8> = vec![7, 8];
    assert_eq!(Storage::get(&storage, 0), Some(&7));
    assert_eq!(Storage::get(&storage, 1), Some(&8));
    assert_eq!(Storage::get(&storage, 2), None);
}

#[test]
fn dense_get_mut_writes_through() {
    let mut storage: Vec<u8> = vec![7, 8];
    match Storage::get_mut(&mut storage, 1) {
        Some(value) => *value = 80,
        None => panic!("identifier 1 is live"),
    }
    assert!(Storage::get_mut(&mut storage, 2).is_none());
    assert_eq!(storage, vec![7, 80]);
}

#[test]
fn dense_iter_pairs_identifiers_with_values() {
    let storage: Vec<char> = vec!['x', 'y', 'z'];
    assert_eq!(Storage::iter(&storage), vec![(0, &'x'), (1, &'y'), (2, &'z')]);
    let empty: Vec<char> = Vec::new();
    assert!(Storage::iter(&empty).is_empty());
}

#[test]
fn dense_iter_mut_writes_through() {
    let mut storage: Vec<u32> = vec![10, 20, 30];
    for (id, value) in Storage::iter_mut(&mut storage) {
        *value += id as u32;
    }
    assert_eq!(storage, vec![10, 21, 32]);
}

#[test]
fn dense_can_always_remove() {
    let storage: Vec<u8> = vec![1];
    assert!(Storage::can_remove(&storage, 0));
    assert!(Storage::can_remove(&storage, 5));
}

#[test]
fn dense_phantom_data_names_the_family() {
    let storage: Vec<u8> = Vec::new();
    let marker: std::marker::PhantomData<VecFamily> = Storage::phantom_data(&storage);
    assert_eq!(marker, std::marker::PhantomData);
}
