use cred_man::keyorder::key_cmp;
use cred_man::location::{get_db_path, join_path, locate, DbLocation, PathKind};
use cred_man::strmap::StrMap;
use cred_man::time::{backup_stamp, parse_record_time, record_time_text, Timestamp};

#[test]
fn key_cmp_orders_like_str() {
    assert_eq!(key_cmp("a", "b"), -1);
    assert_eq!(key_cmp("b", "a"), 1);
    assert_eq!(key_cmp("abc", "abc"), 0);
    assert_eq!(key_cmp("", "a"), -1);
    assert_eq!(key_cmp("ab", "a"), 1);
    assert_eq!(key_cmp("Z", "a"), -1);
    assert_eq!(key_cmp("z", "é"), -1);
    assert_eq!(key_cmp("é", "ê"), -1);
}

#[test]
fn map_keeps_keys_sorted_and_unique() {
    let mut m: StrMap<String> = StrMap::new();
    assert_eq!(m.len(), 0);
    assert_eq!(m.insert("b".to_string(), "2".to_string()), None);
    assert_eq!(m.insert("a".to_string(), "1".to_string()), None);
    assert_eq!(m.insert("c".to_string(), "3".to_string()), None);
    assert_eq!(m.insert("b".to_string(), "two".to_string()), Some("2".to_string()));
    assert_eq!(m.len(), 3);
    let keys: Vec<&str> = (0..m.len()).map(|i| m.key_at(i).as_str()).collect();
    assert_eq!(keys, vec!["a", "b", "c"]);
    assert_eq!(m.get("b"), Some(&"two".to_string()));
    assert_eq!(m.value_at(1), &"two".to_string());
    assert!(m.contains_key("c"));
    assert!(!m.contains_key("d"));
    assert_eq!(m.get("d"), None);
}

#[test]
fn map_remove() {
    let mut m: StrMap<u32> = StrMap::new();
    m.insert("x".to_string(), 1);
    m.insert("y".to_string(), 2);
    assert_eq!(m.remove("x"), Some(1));
    assert_eq!(m.remove("x"), None);
    assert_eq!(m.len(), 1);
    assert_eq!(m.get("y"), Some(&2));
}

#[test]
fn map_pairs_in_key_order() {
    let mut m: StrMap<String> = StrMap::new();
    m.insert("user".to_string(), "alice".to_string());
    m.insert("pass".to_string(), "s3cret".to_string());
    assert_eq!(
        m.pairs(),
        vec![("pass".to_string(), "s3cret".to_string()), ("user".to_string(), "alice".to_string())]
    );
}

#[test]
fn join_path_adds_one_separator() {
    assert_eq!(join_path("/tmp/x", "keys.db"), "/tmp/x/keys.db");
    assert_eq!(join_path("/tmp/x/", "keys.db"), "/tmp/x/keys.db");
    assert_eq!(join_path("", "keys.db"), "keys.db");
}

#[test]
fn file_names_in_a_given_directory() {
    let loc = DbLocation::SpecifiedDirectory("/data/store".to_string());
    assert_eq!(get_db_path(PathKind::Main, &loc, "/home/u", "x"), "/data/store/keys.db");
    assert_eq!(get_db_path(PathKind::Temp, &loc, "/home/u", "x"), "/data/store/keys.tmp.db");
    assert_eq!(
        get_db_path(PathKind::Backup, &loc, "/home/u", "20240102_030405"),
        "/data/store/keys.backup.20240102_030405.db"
    );
    assert_eq!(locate(PathKind::Main, &loc, "x"), Some("/data/store/keys.db".to_string()));
}

#[test]
fn default_location_is_under_home() {
    let loc = DbLocation::DotLocal;
    assert_eq!(get_db_path(PathKind::Main, &loc, "/home/u", ""), "/home/u/.local/share/cred-man/keys.db");
    if let Some(p) = locate(PathKind::Temp, &loc, "") {
        assert!(p.ends_with("/.local/share/cred-man/keys.tmp.db"));
    }
}

fn ts(year: u32, month: u32, day: u32, hour: u32, minute: u32, second: u32) -> Timestamp {
    Timestamp { year, month, day, hour, minute, second }
}

#[test]
fn time_stamps_are_written_and_read() {
    let t = ts(2024, 1, 2, 3, 4, 5);
    assert_eq!(record_time_text(&t), "2024-01-02T03:04:05");
    assert_eq!(backup_stamp(&t), "20240102_030405");
    assert_eq!(parse_record_time("2024-01-02T03:04:05"), Some(t));
    assert_eq!(record_time_text(&ts(7, 12, 31, 23, 59, 59)), "0007-12-31T23:59:59");
    assert_eq!(parse_record_time("0007-12-31T23:59:59"), Some(ts(7, 12, 31, 23, 59, 59)));
}

#[test]
fn bad_time_stamps_are_refused() {
    assert_eq!(parse_record_time("2024-01-02 03:04:05"), None);
    assert_eq!(parse_record_time("2024-02-30T00:00:00"), None);
    assert_eq!(parse_record_time("2023-02-29T00:00:00"), None);
    assert_eq!(parse_record_time("2024-13-01T00:00:00"), None);
    assert_eq!(parse_record_time("2024-01-01T24:00:00"), None);
    assert_eq!(parse_record_time("2024-01-01T00:60:00"), None);
    assert_eq!(parse_record_time("2024-1-01T00:00:00"), None);
    assert_eq!(parse_record_time(""), None);
}

#[test]
fn leap_years() {
    assert_eq!(parse_record_time("2024-02-29T12:00:00"), Some(ts(2024, 2, 29, 12, 0, 0)));
    assert_eq!(parse_record_time("2000-02-29T12:00:00"), Some(ts(2000, 2, 29, 12, 0, 0)));
    assert_eq!(parse_record_time("1900-02-29T12:00:00"), None);
    assert!(ts(2024, 2, 29, 0, 0, 0).is_valid());
    assert!(!ts(10000, 1, 1, 0, 0, 0).is_valid());
    assert!(!ts(2024, 4, 31, 0, 0, 0).is_valid());
}

#[test]
fn time_stamps_order_by_time() {
    assert!(ts(2024, 1, 2, 3, 4, 5) < ts(2024, 1, 2, 3, 4, 6));
    assert!(ts(2023, 12, 31, 23, 59, 59) < ts(2024, 1, 1, 0, 0, 0));
}
