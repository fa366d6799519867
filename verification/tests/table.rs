use iuro_server::table::IdMap;

#[test]
fn a_table_keeps_one_entry_per_id_in_the_order_of_arrival() {
    let mut table: IdMap<u8> = IdMap::new();
    assert!(table.is_empty());
    assert_eq!(table.insert(3, 30), None);
    assert_eq!(table.insert(1, 10), None);
    assert_eq!(table.insert(2, 20), None);
    assert_eq!(table.keys(), vec![3, 1, 2]);
    // storing under an id that is there keeps its place
    assert_eq!(table.insert(1, 11), Some(10));
    assert_eq!(table.keys(), vec![3, 1, 2]);
    assert_eq!(table.len(), 3);
    assert_eq!(table.get(1), Some(&11));
    assert_eq!(table.get(4), None);
    assert_eq!(table.position(2), Some(2));
    assert_eq!(table.position(4), None);
    assert!(table.contains_key(3));
    assert!(!table.contains_key(0));
    assert_eq!(table.key_at(0), 3);
    assert_eq!(*table.value_at(0), 30);
}

#[test]
fn taking_an_id_out_keeps_the_order_of_the_others() {
    let mut table: IdMap<u8> = IdMap::new();
    table.insert(3, 30);
    table.insert(1, 10);
    table.insert(2, 20);
    assert_eq!(table.remove(1), Some(10));
    assert_eq!(table.remove(1), None);
    assert_eq!(table.keys(), vec![3, 2]);
    *table.value_mut(1) = 21;
    assert_eq!(table.get(2), Some(&21));
    table.clear();
    assert!(table.is_empty());
    assert_eq!(table.keys(), Vec::<usize>::new());
}
