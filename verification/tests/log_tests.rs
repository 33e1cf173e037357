use raft::log::{Log, LogEntry};

fn entry(term: u64, index: u64, command: &str) -> LogEntry {
    LogEntry { term, index, command: command.to_string() }
}

#[test]
fn new_log_is_empty() {
    let log = Log::new();
    assert_eq!(log.last_index(), 0);
    assert_eq!(log.len(), 0);
    assert!(log.get(0).is_none());
    assert!(log.get(1).is_none());
    assert_eq!(log.get_term(1), None);
}

#[test]
fn append_then_get_returns_the_entry() {
    let mut log = Log::new();
    log.append(entry(1, 1, "SET a 1")).unwrap();
    log.append(entry(2, 2, "SET b 2")).unwrap();
    assert_eq!(log.last_index(), 2);
    assert_eq!(log.len(), 2);
    assert_eq!(log.get(1), Some(&entry(1, 1, "SET a 1")));
    assert_eq!(log.get(2), Some(&entry(2, 2, "SET b 2")));
    assert_eq!(log.get_term(2), Some(2));
    assert!(log.get(3).is_none());
}

#[test]
fn append_refuses_a_gap() {
    let mut log = Log::new();
    log.append(entry(1, 1, "a")).unwrap();
    let err = log.append(entry(1, 3, "c")).unwrap_err();
    assert_eq!(err, "Invalid log index: 3");
    assert_eq!(log.last_index(), 1);
    assert_eq!(log.len(), 1);
    let err = log.append(entry(1, 1, "again")).unwrap_err();
    assert_eq!(err, "Invalid log index: 1");
}

#[test]
fn truncate_drops_the_tail() {
    let mut log = Log::new();
    for i in 1..=5u64 {
        log.append(entry(1, i, "x")).unwrap();
    }
    log.truncate(3);
    assert_eq!(log.last_index(), 2);
    assert_eq!(log.len(), 2);
    assert!(log.get(3).is_none());
    assert_eq!(log.get_term(2), Some(1));
    log.append(entry(4, 3, "y")).unwrap();
    assert_eq!(log.get_term(3), Some(4));
}

#[test]
fn truncate_out_of_range_does_nothing() {
    let mut log = Log::new();
    log.append(entry(1, 1, "x")).unwrap();
    log.truncate(0);
    log.truncate(2);
    assert_eq!(log.last_index(), 1);
    assert_eq!(log.len(), 1);
    log.truncate(1);
    assert_eq!(log.last_index(), 0);
    assert_eq!(log.len(), 0);
}

#[test]
fn get_follows_last_index_on_an_irregular_log() {
    let log = Log { entries: vec![entry(1, 1, "a"), entry(1, 2, "b")], last_index: 1 };
    assert_eq!(log.get(1), Some(&entry(1, 1, "a")));
    assert!(log.get(2).is_none());
    let log = Log { entries: vec![], last_index: 3 };
    assert!(log.get(2).is_none());
    assert_eq!(log.get_term(2), None);
}

#[test]
fn append_then_truncate_restores_the_log() {
    let mut log = Log::new();
    log.append(entry(1, 1, "a")).unwrap();
    log.append(entry(1, 2, "b")).unwrap();
    let before = log.clone();
    log.append(entry(2, 3, "c")).unwrap();
    assert_eq!(log.len(), 3);
    log.truncate(3);
    assert_eq!(log, before);
    log.truncate(0);
    log.truncate(log.last_index() + 1);
    assert_eq!(log, before);
    assert_eq!(log.len() as u64, log.last_index());
    assert_eq!(log.get(log.last_index()), log.entries.last());
    assert!(log.get(log.last_index() + 1).is_none());
}
