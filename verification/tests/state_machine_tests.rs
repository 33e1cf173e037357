use raft::state_machine::{KeyValueStore, StateMachine};

#[test]
fn test_key_value_store() {
    let mut store = KeyValueStore::new();
    store.apply("SET key1 value1").unwrap();
}

#[test]
fn test_key_value_store_get() {
    let mut store = KeyValueStore::new();
    store.apply("SET key1 value1").unwrap();
    let value = store.get_key("key1").unwrap();
    assert_eq!(value, "value1");
}

#[test]
fn test_multiple_commands() {
    let mut store = KeyValueStore::new();
    store.apply("SET key1 value1").unwrap();
    store.apply("SET key2 value2").unwrap();
    let value = store.get_key("key1").unwrap();
    assert_eq!(value, "value1");
    let value = store.get_key("key2").unwrap();
    assert_eq!(value, "value2");
}

#[test]
fn update_key_value() {
    let mut store = KeyValueStore::new();
    store.apply("SET key1 value1").unwrap();
    let value = store.get_key("key1").unwrap();
    assert_eq!(value, "value1");
    store.apply("SET key1 value2").unwrap();
    let value = store.get_key("key1").unwrap();
    assert_eq!(value, "value2");
}

#[test]
fn kv_refuses_short_command() {
    let mut store = KeyValueStore::new();
    assert_eq!(store.apply("SET").unwrap_err(), "Invalid command");
    assert_eq!(store.apply("").unwrap_err(), "Invalid command");
    assert!(store.get_key("SET").is_none());
}

#[test]
fn kv_refuses_set_with_wrong_arity() {
    let mut store = KeyValueStore::new();
    assert_eq!(store.apply("SET a").unwrap_err(), "SET requires key and value");
    assert_eq!(store.apply("SET a b c").unwrap_err(), "SET requires key and value");
    assert!(store.get_key("a").is_none());
}

#[test]
fn kv_get_checks_arity_and_changes_nothing() {
    let mut store = KeyValueStore::new();
    store.apply("SET a 1").unwrap();
    assert!(store.apply("GET a").is_ok());
    assert_eq!(store.apply("GET a b").unwrap_err(), "GET requires key");
    assert_eq!(store.get_key("a").unwrap(), "1");
}

#[test]
fn kv_refuses_unknown_command() {
    let mut store = KeyValueStore::new();
    assert_eq!(store.apply("DEL a").unwrap_err(), "Unknown command");
    assert_eq!(store.apply("set a b").unwrap_err(), "Unknown command");
}

#[test]
fn kv_splits_on_any_white_space() {
    let mut store = KeyValueStore::new();
    store.apply("  SET\tkey\u{3000}val\n").unwrap();
    assert_eq!(store.get_key("key").unwrap(), "val");
}

#[test]
fn kv_state_counts_entries() {
    let mut store = KeyValueStore::new();
    assert_eq!(store.get_state().unwrap(), "KeyValueStore with 0 entries");
    store.apply("SET a 1").unwrap();
    store.apply("SET b 2").unwrap();
    store.apply("SET a 3").unwrap();
    assert_eq!(store.get_state().unwrap(), "KeyValueStore with 2 entries");
}

#[test]
fn kv_keeps_the_last_set_of_each_key() {
    let mut store = KeyValueStore::new();
    let cmds = ["SET a 1", "SET b 2", "GET a", "SET a", "SET a 3 4", "DEL a", "SET a 5", "SET c 6"];
    for c in cmds.iter() {
        let _ = store.apply(c);
    }
    assert_eq!(store.get_key("a").unwrap(), "5");
    assert_eq!(store.get_key("b").unwrap(), "2");
    assert_eq!(store.get_key("c").unwrap(), "6");
    assert!(store.get_key("d").is_none());
}
