use commust::meta::{MetaAction, MetaStore, MetaWrite};

fn get(store: &MetaStore, id: i32, key: &str) -> Option<String> {
    store.get(id, key).cloned()
}

#[test]
fn new_store_holds_nothing() {
    let store = MetaStore::new();
    assert_eq!(get(&store, 1, "_sku"), None);
}

#[test]
fn upsert_inserts_then_updates() {
    let mut store = MetaStore::new();
    store.upsert(1, "_sku", "A-1".to_string());
    assert_eq!(get(&store, 1, "_sku"), Some("A-1".to_string()));
    store.upsert(1, "_sku", "B-2".to_string());
    assert_eq!(get(&store, 1, "_sku"), Some("B-2".to_string()));
}

#[test]
fn upsert_keeps_products_and_keys_apart() {
    let mut store = MetaStore::new();
    store.upsert(1, "_sku", "one".to_string());
    store.upsert(2, "_sku", "two".to_string());
    store.upsert(1, "_stock", "3".to_string());
    assert_eq!(get(&store, 1, "_sku"), Some("one".to_string()));
    assert_eq!(get(&store, 2, "_sku"), Some("two".to_string()));
    assert_eq!(get(&store, 1, "_stock"), Some("3".to_string()));
    assert_eq!(get(&store, 2, "_stock"), None);
}

#[test]
fn delete_removes_the_entry_only() {
    let mut store = MetaStore::new();
    store.upsert(1, "_sku", "one".to_string());
    store.upsert(1, "_stock", "3".to_string());
    store.upsert(2, "_stock", "4".to_string());
    store.delete(1, "_stock");
    assert_eq!(get(&store, 1, "_stock"), None);
    assert_eq!(get(&store, 1, "_sku"), Some("one".to_string()));
    assert_eq!(get(&store, 2, "_stock"), Some("4".to_string()));
}

#[test]
fn delete_of_a_missing_entry_changes_nothing() {
    let mut store = MetaStore::new();
    store.upsert(1, "_sku", "one".to_string());
    store.delete(1, "_stock");
    store.delete(9, "_sku");
    assert_eq!(get(&store, 1, "_sku"), Some("one".to_string()));
}

#[test]
fn upsert_after_delete_inserts_again() {
    let mut store = MetaStore::new();
    store.upsert(1, "_stock", "3".to_string());
    store.delete(1, "_stock");
    store.upsert(1, "_stock", "8".to_string());
    assert_eq!(get(&store, 1, "_stock"), Some("8".to_string()));
}

#[test]
fn apply_all_makes_the_writes_in_order() {
    let mut store = MetaStore::new();
    let writes = vec![
        MetaWrite::Upsert { key: "a".to_string(), value: "1".to_string() },
        MetaWrite::Upsert { key: "b".to_string(), value: "2".to_string() },
        MetaWrite::Upsert { key: "a".to_string(), value: "3".to_string() },
        MetaWrite::Delete { key: "b".to_string() },
    ];
    store.apply_all(5, &writes);
    assert_eq!(get(&store, 5, "a"), Some("3".to_string()));
    assert_eq!(get(&store, 5, "b"), None);
    assert_eq!(writes[0].key(), "a");
    assert_eq!(writes[3].key(), "b");
}

#[test]
fn resolve_turns_writes_into_actions() {
    let upsert = || MetaWrite::Upsert { key: "k".to_string(), value: "v".to_string() };
    let delete = || MetaWrite::Delete { key: "k".to_string() };
    match upsert().resolve(Some(12)) {
        MetaAction::Update { row, value } => assert_eq!((row, value.as_str()), (12, "v")),
        _ => panic!("no update"),
    }
    match upsert().resolve(None) {
        MetaAction::Insert { key, value } => assert_eq!((key.as_str(), value.as_str()), ("k", "v")),
        _ => panic!("no insert"),
    }
    match delete().resolve(Some(12)) {
        MetaAction::Remove { row } => assert_eq!(row, 12),
        _ => panic!("no remove"),
    }
    assert!(matches!(delete().resolve(None), MetaAction::Nothing));
}

#[test]
fn entries_of_lists_one_product() {
    let mut store = MetaStore::new();
    store.upsert(1, "_sku", "one".to_string());
    store.upsert(2, "_sku", "two".to_string());
    store.upsert(1, "_stock", "3".to_string());
    store.upsert(1, "_sku", "uno".to_string());
    let mut entries: Vec<(i32, String, String)> = store
        .entries_of(1)
        .into_iter()
        .map(|e| (e.product_id, e.meta_key, e.meta_value))
        .collect();
    entries.sort();
    assert_eq!(
        entries,
        vec![(1, "_sku".to_string(), "uno".to_string()), (1, "_stock".to_string(), "3".to_string())]
    );
    assert!(store.entries_of(3).is_empty());
}
