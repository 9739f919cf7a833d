use tci::hash_ref::{hash_key, DetState, HashRef, HashRefSlot};

fn pairs(table: &HashRef<&'static str>) -> Vec<(u32, &'static str)> {
    let mut iter = table.iter();
    let mut all = Vec::new();
    while let Some((key, value)) = iter.next() {
        all.push((*key, *value));
    }
    all.sort();
    all
}

#[test]
fn a_table_maps_its_keys() {
    let table = HashRef::new(8, vec![(3, "three"), (11, "eleven"), (0, "zero"), (u32::MAX, "max")]);
    assert_eq!(table.len(), 4);
    assert_eq!(table.capacity(), 8);
    assert_eq!(table.get(&3), Some(&"three"));
    assert_eq!(table.get(&11), Some(&"eleven"));
    assert_eq!(table.get(&0), Some(&"zero"));
    assert_eq!(table.get(&u32::MAX), Some(&"max"));
    assert_eq!(table.get(&4), None);
    assert_eq!(table.get(&19), None);
    assert_eq!(pairs(&table), vec![(0, "zero"), (3, "three"), (11, "eleven"), (u32::MAX, "max")]);
}

#[test]
fn the_last_value_of_a_key_stays() {
    let table = HashRef::new(3, vec![(7, "a"), (9, "b"), (7, "c"), (7, "d"), (9, "e")]);
    assert_eq!(table.len(), 2);
    assert_eq!(table.get(&7), Some(&"d"));
    assert_eq!(table.get(&9), Some(&"e"));
    assert_eq!(pairs(&table), vec![(7, "d"), (9, "e")]);
}

#[test]
fn an_empty_table_holds_nothing() {
    let table: HashRef<&'static str> = HashRef::new(1, Vec::new());
    assert_eq!((table.len(), table.capacity()), (0, 1));
    assert_eq!(table.get(&0), None);
    assert!(table.iter().next().is_none());
    assert!(matches!(table.slots[0], HashRefSlot::Empty));
}

#[test]
fn a_table_that_is_nearly_full_finds_every_key() {
    let data: Vec<(u32, u32)> = (0..199).map(|i| (i * 7919, i)).collect();
    let table = HashRef::new(200, data);
    assert_eq!(table.len(), 199);
    for i in 0..199 {
        assert_eq!(table.get(&(i * 7919)), Some(&i));
    }
    for i in 0..500 {
        if i % 7919 != 0 {
            assert_eq!(table.get(&i), None);
        }
    }
    let mut iter = table.iter();
    let mut count = 0;
    while let Some((key, value)) = iter.next() {
        assert_eq!(*key, value * 7919);
        count += 1;
    }
    assert_eq!(count, 199);
    assert_eq!(iter.slot_idx, 200);
}

#[test]
fn a_key_has_one_hash() {
    let state = DetState;
    assert_eq!(hash_key(&state, 5), hash_key(&DetState, 5));
    assert_ne!(hash_key(&state, 5), hash_key(&state, 6));
    assert_ne!(hash_key(&state, 5), 5);
    // A key is found at its home or after it.
    let table = HashRef::new(16, vec![(5, 'x')]);
    let home = (hash_key(&state, 5) % 16) as usize;
    assert!(matches!(table.slots[home], HashRefSlot::Full(5, 'x')));
}
