use twitch_data::table::Table;

fn rows(table: &Table) -> Vec<(String, String)> {
    (0..table.len()).map(|i| (table.key(i).clone(), table.value(i).clone())).collect()
}

#[test]
fn table_keeps_the_order_of_its_keys() {
    let mut table = Table::new();
    assert_eq!(table.len(), 0);
    for (key, value) in [("b", "1"), ("a", "2"), ("b", "3"), ("", "4")] {
        table.insert(key.to_string(), value.to_string());
    }
    let expected: Vec<(String, String)> = [("b", "3"), ("a", "2"), ("", "4")]
        .iter()
        .map(|(key, value)| (key.to_string(), value.to_string()))
        .collect();
    assert_eq!(rows(&table), expected);
    assert_eq!(table.position(&"a".to_string()), Some(1));
    assert_eq!(table.position(&"c".to_string()), None);
}
