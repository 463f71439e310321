use std::cell::RefCell;
use std::collections::HashSet;
use std::rc::Rc;

use url_shortener::storage::in_memory::MAX_KEY_ATTEMPTS;
use url_shortener::storage::persisted::{
    extract_data, load_store, log_record, parse_log_line, split_log_text, PersistedKeyValueStore,
    VecLog, WriterLog,
};
use url_shortener::storage::{InMemoryKeyValueStore, KeyValueStore, StoreError, KEY_LENGTH};

fn pair(k: &str, v: &str) -> (String, String) {
    (k.to_string(), v.to_string())
}

fn is_key(k: &str) -> bool {
    k.chars().count() == KEY_LENGTH && k.chars().all(|c| c.is_ascii_alphanumeric())
}

#[test]
fn get_returns_inserted_value() {
    let mut store = InMemoryKeyValueStore::new();
    let key = store.insert("https://example.com/".to_string()).unwrap();
    assert!(is_key(&key));
    assert_eq!(store.get(&key), Some("https://example.com/".to_string()));
}

#[test]
fn get_of_unreturned_key_is_absent() {
    let mut store = InMemoryKeyValueStore::new();
    let key = store.insert("v".to_string()).unwrap();
    assert_eq!(store.get("doesnotexist"), None);
    assert_eq!(store.get(""), None);
    let other = if key == "aaaaaaa" { "bbbbbbb" } else { "aaaaaaa" };
    assert_eq!(store.get(other), None);
}

#[test]
fn inserts_give_distinct_keys() {
    let mut store = InMemoryKeyValueStore::new();
    let mut keys = HashSet::new();
    for i in 0..1000 {
        let key = store.insert(format!("value {}", i)).unwrap();
        assert!(is_key(&key));
        assert!(keys.insert(key));
    }
    assert_eq!(keys.len(), 1000);
    for (i, key) in keys.iter().enumerate() {
        assert!(store.get(key).is_some(), "key {} of {}", i, keys.len());
    }
}

#[test]
fn same_value_twice_gives_two_keys() {
    let mut store = InMemoryKeyValueStore::new();
    let a = store.insert("same".to_string()).unwrap();
    let b = store.insert("same".to_string()).unwrap();
    assert_ne!(a, b);
    assert_eq!(store.get(&a), Some("same".to_string()));
    assert_eq!(store.get(&b), Some("same".to_string()));
}

#[test]
fn initial_data_last_occurrence_wins() {
    let store = InMemoryKeyValueStore::with_initial_data(vec![
        pair("abc", "first"),
        pair("def", "other"),
        pair("abc", "second"),
    ]);
    assert_eq!(store.get("abc"), Some("second".to_string()));
    assert_eq!(store.get("def"), Some("other".to_string()));
    assert_eq!(store.get("ghi"), None);
}

#[test]
fn insert_with_key_takes_only_fresh_well_formed_keys() {
    let mut store = InMemoryKeyValueStore::with_initial_data(vec![pair("Abc1234", "x")]);
    assert!(!store.insert_with_key("Abc1234".to_string(), "y".to_string()));
    assert_eq!(store.get("Abc1234"), Some("x".to_string()));
    assert!(!store.insert_with_key("short".to_string(), "y".to_string()));
    assert!(!store.insert_with_key("abc 123".to_string(), "y".to_string()));
    assert!(!store.insert_with_key("abcdéfg".to_string(), "y".to_string()));
    assert_eq!(store.get("short"), None);
    assert!(store.insert_with_key("Zz09aB7".to_string(), "y".to_string()));
    assert_eq!(store.get("Zz09aB7"), Some("y".to_string()));
}

#[test]
fn well_formed_keys() {
    assert!(InMemoryKeyValueStore::is_well_formed_key("aZ09bY8"));
    assert!(!InMemoryKeyValueStore::is_well_formed_key("aZ09bY"));
    assert!(!InMemoryKeyValueStore::is_well_formed_key("aZ09bY8c"));
    assert!(!InMemoryKeyValueStore::is_well_formed_key("aZ-9bY8"));
}

#[test]
fn generated_key_is_unused() {
    let store = InMemoryKeyValueStore::with_initial_data(vec![pair("abcdefg", "x")]);
    let key = store.generate_unused_random_key().unwrap();
    assert!(is_key(&key));
    assert!(!store.contains_key(&key));
    assert!(store.contains_key("abcdefg"));
    assert!(MAX_KEY_ATTEMPTS > 0);
}

#[test]
fn store_error_variants_differ() {
    assert_ne!(StoreError::KeyspaceExhausted, StoreError::Io);
}

#[test]
fn parse_log_line_splits_at_first_space() {
    assert_eq!(parse_log_line("abc def ghi"), Some(pair("abc", "def ghi")));
    assert_eq!(parse_log_line("abcdefg https://example.com/"), Some(pair("abcdefg", "https://example.com/")));
    assert_eq!(parse_log_line(" value"), Some(pair("", "value")));
    assert_eq!(parse_log_line("key "), Some(pair("key", "")));
    assert_eq!(parse_log_line("ké y"), Some(pair("ké", "y")));
    assert_eq!(parse_log_line("nospace"), None);
    assert_eq!(parse_log_line(""), None);
}

#[test]
fn log_record_has_key_space_value() {
    assert_eq!(log_record("abcdefg", "https://example.com/a b"), "abcdefg https://example.com/a b");
}

#[test]
fn extract_data_skips_malformed_lines() {
    let lines = vec!["abc def".to_string(), "broken".to_string(), "ghi jkl mno".to_string()];
    assert_eq!(extract_data(&lines), vec![pair("abc", "def"), pair("ghi", "jkl mno")]);
}

#[test]
fn malformed_line_is_skipped_on_load() {
    let lines = vec!["abcdefg https://example.com/".to_string(), "partialline".to_string()];
    let store = load_store(&lines);
    assert_eq!(store.get("abcdefg"), Some("https://example.com/".to_string()));
    assert_eq!(store.get("partialline"), None);
    assert_eq!(store.get(""), None);
}

#[test]
fn persisted_round_trip() {
    let mut lines = vec!["aaaaaaa https://one.example/".to_string()];
    let mut store = load_store(&lines);
    let key = store.insert("https://two.example/ x".to_string()).unwrap();
    lines.push(log_record(&key, "https://two.example/ x"));
    let reloaded = load_store(&lines);
    assert_eq!(reloaded.get(&key), Some("https://two.example/ x".to_string()));
    assert_eq!(reloaded.get("aaaaaaa"), Some("https://one.example/".to_string()));
}

#[test]
fn duplicate_key_in_log_last_wins() {
    let lines = vec!["abcdefg one".to_string(), "abcdefg two".to_string()];
    assert_eq!(load_store(&lines).get("abcdefg"), Some("two".to_string()));
}

fn refusing_writer(_line: &str) -> bool {
    false
}

#[test]
fn persisted_store_reloads_what_it_stored() {
    let initial = vec!["aaaaaaa https://one.example/".to_string(), "garbage".to_string()];
    let mut store = PersistedKeyValueStore::new(&initial, VecLog::new());
    assert_eq!(store.get("aaaaaaa"), Some("https://one.example/".to_string()));
    let key = store.insert("https://two.example/".to_string()).unwrap();
    assert!(is_key(&key));
    assert_eq!(store.get(&key), Some("https://two.example/".to_string()));

    let mut lines = initial.clone();
    lines.extend(store_lines(&store));
    let reloaded = PersistedKeyValueStore::new(&lines, VecLog::new());
    assert_eq!(reloaded.get(&key), Some("https://two.example/".to_string()));
    assert_eq!(reloaded.get("aaaaaaa"), Some("https://one.example/".to_string()));
    assert_eq!(reloaded.get("garbage"), None);
}

fn store_lines(store: &PersistedKeyValueStore<VecLog>) -> Vec<String> {
    store.log().lines().clone()
}

#[test]
fn persisted_store_appends_one_record_per_insert() {
    let mut store = PersistedKeyValueStore::new(&Vec::new(), VecLog::new());
    let a = store.insert("first value".to_string()).unwrap();
    let b = store.insert("second".to_string()).unwrap();
    assert_eq!(store.log().lines(), &vec![format!("{} first value", a), format!("{} second", b)]);
}

#[test]
fn persisted_store_keeps_nothing_when_the_write_fails() {
    let mut store = PersistedKeyValueStore::new(&Vec::new(), WriterLog::new(refusing_writer));
    assert_eq!(store.insert("v".to_string()), Err(StoreError::Io));
    assert_eq!(store.get("v"), None);
}

#[test]
fn split_log_text_drops_unterminated_rest() {
    let (lines, rest) = split_log_text("abcdefg one\nbroken\nhijklmn two thr");
    assert_eq!(lines, vec!["abcdefg one".to_string(), "broken".to_string()]);
    assert_eq!(rest, "hijklmn two thr");
    let (lines, rest) = split_log_text("a b\n\nc d\r\ne\rf\r\r\n");
    assert_eq!(lines, vec!["a b".to_string(), String::new(), "c d".to_string(), "e\rf\r".to_string()]);
    assert_eq!(rest, "");
    let (lines, rest) = split_log_text("");
    assert!(lines.is_empty() && rest.is_empty());
}

#[test]
fn cut_off_record_is_not_loaded() {
    let (lines, _) = split_log_text("abcdefg https://example.com/\nhijklmn https://exa");
    let store = load_store(&lines);
    assert_eq!(store.get("abcdefg"), Some("https://example.com/".to_string()));
    assert_eq!(store.get("hijklmn"), None);
}

#[test]
fn text_round_trip_through_vec_log() {
    let text = "aaaaaaa https://one.example/\n".to_string();
    let (lines, _) = split_log_text(&text);
    let mut store = PersistedKeyValueStore::new(&lines, VecLog::new());
    let key = store.insert("https://two.example/ with space".to_string()).unwrap();
    assert_eq!(store.log().lines(), &vec![format!("{} https://two.example/ with space", key)]);
    let mut text = text;
    for line in store.log().lines() {
        text.push_str(line);
        text.push('\n');
    }
    let (lines, rest) = split_log_text(&text);
    assert!(rest.is_empty());
    let reloaded = load_store(&lines);
    assert_eq!(reloaded.get(&key), Some("https://two.example/ with space".to_string()));
    assert_eq!(reloaded.get("aaaaaaa"), Some("https://one.example/".to_string()));
}

#[test]
fn key_if_unused_takes_fresh_well_formed_keys() {
    let store = InMemoryKeyValueStore::with_initial_data(vec![pair("Abc1234", "x")]);
    assert_eq!(store.key_if_unused("Abc1234".to_string()), None);
    assert_eq!(store.key_if_unused("abc 123".to_string()), None);
    assert_eq!(store.key_if_unused("Zz09aB7".to_string()), Some("Zz09aB7".to_string()));
}

#[test]
fn insert_on_fresh_store_takes_any_value() {
    for value in ["", " ", "a b", "line\nbreak"] {
        let mut store = InMemoryKeyValueStore::new();
        let key = store.insert(value.to_string()).unwrap();
        assert_eq!(store.get(&key), Some(value.to_string()));
    }
}

#[test]
fn writer_log_hands_over_the_record() {
    let seen: Rc<RefCell<Vec<String>>> = Rc::new(RefCell::new(Vec::new()));
    let sink = seen.clone();
    let mut store = PersistedKeyValueStore::new(
        &Vec::new(),
        WriterLog::new(move |line: &str| {
            sink.borrow_mut().push(line.to_string());
            true
        }),
    );
    let key = store.insert("https://example.com/".to_string()).unwrap();
    assert_eq!(*seen.borrow(), vec![format!("{} https://example.com/", key)]);
}

#[test]
fn unterminated_rest_keeps_its_carriage_return() {
    let (lines, rest) = split_log_text("a b\r\nc d\r");
    assert_eq!(lines, vec!["a b".to_string()]);
    assert_eq!(rest, "c d\r");
}
