use backrun::table::Table;

#[test]
fn table_keeps_the_last_value_of_a_key_at_its_first_place() {
    let mut table: Table<String, u32> = Table::new();
    table.insert("a".to_string(), 1);
    table.insert("b".to_string(), 2);
    table.insert("a".to_string(), 3);
    assert_eq!(table.len(), 2);
    assert_eq!(table.get(&"a".to_string()), Some(&3));
    assert_eq!(table.get(&"c".to_string()), None);
    assert!(table.contains_key(&"b".to_string()));
    assert!(!table.contains_key(&"c".to_string()));
    assert_eq!(table.key_at(0), "a");
    assert_eq!(*table.value_at(1), 2);
}

#[test]
fn lists_of_a_table_grow_at_the_end() {
    let mut table: Table<String, Vec<u32>> = Table::new();
    table.open_list("x".to_string());
    assert_eq!(table.get(&"x".to_string()), Some(&vec![]));
    table.push_to("x".to_string(), 1);
    table.push_to("y".to_string(), 5);
    table.push_to("x".to_string(), 2);
    table.open_list("x".to_string());
    assert_eq!(table.get(&"x".to_string()), Some(&vec![1, 2]));
    assert_eq!(table.get(&"y".to_string()), Some(&vec![5]));
}
