use cred_man::error::StoreError;
use cred_man::location::{get_db_path, DbLocation, PathKind};
use cred_man::container::{encode_container, parse_container};
use cred_man::crypto::{decrypt, encrypt};
use cred_man::store::{
    attrs_from_pairs, plan_steps, open_store, unseal, Db, DbRecord, DbRecordDto, EditOp, EditOutcome, FsAction, OpenStep, RenameOutcome,
};
use cred_man::strmap::StrMap;
use cred_man::time::Timestamp;
use serde_json::Value;

fn when(h: u32) -> Timestamp {
    Timestamp { year: 2023, month: 12, day: 31, hour: h, minute: 0, second: 0 }
}

fn record(key: &str, attrs: &[(&str, &str)]) -> DbRecord {
    let mut value = StrMap::new();
    for (n, v) in attrs {
        value.insert(n.to_string(), v.to_string());
    }
    DbRecord { key: key.to_string(), timestamp: when(10), value }
}

fn location() -> DbLocation {
    DbLocation::SpecifiedDirectory("/srv/creds".to_string())
}

fn to_json(dtos: &[DbRecordDto]) -> String {
    let mut list = Vec::new();
    for d in dtos {
        let mut attrs = serde_json::Map::new();
        for (n, v) in &d.value {
            attrs.insert(n.clone(), Value::String(v.clone()));
        }
        let mut obj = serde_json::Map::new();
        obj.insert("key".to_string(), Value::String(d.key.clone()));
        obj.insert("timestamp".to_string(), Value::String(d.timestamp.clone()));
        obj.insert("value".to_string(), Value::Object(attrs));
        list.push(Value::Object(obj));
    }
    serde_json::to_string(&Value::Array(list)).unwrap()
}

fn from_json(text: &str) -> Vec<DbRecordDto> {
    let v: Value = serde_json::from_str(text).unwrap();
    let mut out = Vec::new();
    for r in v.as_array().unwrap() {
        let mut value = Vec::new();
        for (n, x) in r["value"].as_object().unwrap() {
            value.push((n.clone(), x.as_str().unwrap().to_string()));
        }
        out.push(DbRecordDto {
            key: r["key"].as_str().unwrap().to_string(),
            timestamp: r["timestamp"].as_str().unwrap().to_string(),
            value,
        });
    }
    out
}

/// Saves as the save steps say, starting from the main file's bytes, and returns the new main file.
fn save(db: &Db, main: Option<Vec<u8>>) -> (Vec<u8>, Vec<FsAction>) {
    let json = to_json(&db.to_dtos());
    let main_path = get_db_path(PathKind::Main, db.location(), "", "");
    let temp_path = get_db_path(PathKind::Temp, db.location(), "", "");
    let backup_path = get_db_path(PathKind::Backup, db.location(), "", "20240101_000000");
    let acts = db.save_plan(main.is_some(), false, main_path, temp_path, backup_path, &json).unwrap();
    let bytes = acts
        .iter()
        .find_map(|a| match a {
            FsAction::Write { bytes, .. } => Some(bytes.clone()),
            _ => None,
        })
        .unwrap();
    (bytes, acts)
}

fn open(file: &[u8], password: &str) -> Option<Db> {
    let text = unseal(file, password).unwrap()?;
    Some(Db::from_dtos(password.to_string(), location(), &from_json(&text)).unwrap())
}

#[test]
fn new_store_is_empty() {
    let db = Db::new("pw".to_string(), location());
    assert_eq!(db.records().len(), 0);
    assert!(db.get("anything").is_none());
    assert_eq!(db.location(), &location());
}

#[test]
fn insert_get_remove() {
    let mut db = Db::new("pw".to_string(), location());
    assert!(db.insert(record("mail", &[("user", "a")])).is_none());
    assert!(db.insert(record("bank", &[("user", "b")])).is_none());
    let old = db.insert(record("mail", &[("user", "c")])).unwrap();
    assert_eq!(old.value.get("user"), Some(&"a".to_string()));
    assert_eq!(db.get("mail").unwrap().value.get("user"), Some(&"c".to_string()));
    assert_eq!(db.records().key_at(0), "bank");
    assert!(db.remove("bank").is_some());
    assert!(db.remove("bank").is_none());
    assert_eq!(db.records().len(), 1);
}

#[test]
fn rename_record() {
    let mut db = Db::new("pw".to_string(), location());
    db.insert(record("old", &[("user", "a")]));
    db.insert(record("taken", &[]));
    assert_eq!(db.rename("old", "taken".to_string(), when(11)), RenameOutcome::TargetExists);
    assert_eq!(db.rename("missing", "free".to_string(), when(11)), RenameOutcome::NotFound);
    assert_eq!(db.rename("old", "new".to_string(), when(11)), RenameOutcome::Renamed);
    assert!(db.get("old").is_none());
    let r = db.get("new").unwrap();
    assert_eq!(r.key, "new");
    assert_eq!(r.timestamp, when(11));
    assert_eq!(r.value.get("user"), Some(&"a".to_string()));
}

#[test]
fn edit_attributes() {
    let mut db = Db::new("pw".to_string(), location());
    db.insert(record("k", &[("user", "a")]));
    assert_eq!(db.edit("nope", EditOp::Del("user".to_string())), EditOutcome::NoEntry);
    assert_eq!(db.edit("k", EditOp::Add("user".to_string(), "b".to_string())), EditOutcome::SubkeyExists);
    assert_eq!(db.edit("k", EditOp::Add("pin".to_string(), "1234".to_string())), EditOutcome::Done);
    assert_eq!(db.edit("k", EditOp::Update("pin".to_string(), "9999".to_string())), EditOutcome::Done);
    assert_eq!(db.edit("k", EditOp::Update("none".to_string(), "x".to_string())), EditOutcome::NoSubkey);
    assert_eq!(db.edit("k", EditOp::Rename("user".to_string(), "login".to_string())), EditOutcome::Done);
    assert_eq!(db.edit("k", EditOp::Rename("user".to_string(), "x".to_string())), EditOutcome::NoSubkey);
    assert_eq!(db.edit("k", EditOp::Del("none".to_string())), EditOutcome::NoSubkey);
    let v = &db.get("k").unwrap().value;
    assert_eq!(v.get("pin"), Some(&"9999".to_string()));
    assert_eq!(v.get("login"), Some(&"a".to_string()));
    assert_eq!(v.get("user"), None);
    assert_eq!(db.edit("k", EditOp::Del("pin".to_string())), EditOutcome::Done);
    assert_eq!(db.get("k").unwrap().value.len(), 1);
    assert_eq!(db.get("k").unwrap().timestamp, when(10));
}

#[test]
fn to_dtos_lists_records_in_key_order() {
    let mut db = Db::new("pw".to_string(), location());
    db.insert(record("zeta", &[("b", "2"), ("a", "1")]));
    db.insert(record("alpha", &[]));
    let dtos = db.to_dtos();
    assert_eq!(dtos.len(), 2);
    assert_eq!(dtos[0].key, "alpha");
    assert_eq!(dtos[1].key, "zeta");
    assert_eq!(dtos[1].timestamp, "2023-12-31T10:00:00");
    assert_eq!(dtos[1].value, vec![("a".to_string(), "1".to_string()), ("b".to_string(), "2".to_string())]);
}

#[test]
fn from_dtos_rebuilds_the_records() {
    let dtos = vec![
        DbRecordDto {
            key: "k".to_string(),
            timestamp: "2020-05-06T07:08:09".to_string(),
            value: vec![("u".to_string(), "1".to_string())],
        },
        DbRecordDto { key: "k".to_string(), timestamp: "2021-05-06T07:08:09".to_string(), value: vec![] },
    ];
    let db = Db::from_dtos("pw".to_string(), location(), &dtos).unwrap();
    assert_eq!(db.records().len(), 1);
    let r = db.get("k").unwrap();
    assert_eq!(r.value.len(), 0);
    assert_eq!(r.timestamp, Timestamp { year: 2021, month: 5, day: 6, hour: 7, minute: 8, second: 9 });
}

#[test]
fn bad_timestamp_is_invalid_record_data() {
    let dtos = vec![DbRecordDto { key: "k".to_string(), timestamp: "yesterday".to_string(), value: vec![] }];
    assert!(matches!(
        Db::from_dtos("pw".to_string(), location(), &dtos),
        Err(StoreError::InvalidRecordDataError)
    ));
}

#[test]
fn attrs_from_pairs_later_pair_wins() {
    let m = attrs_from_pairs(&vec![("a".to_string(), "1".to_string()), ("a".to_string(), "2".to_string())]);
    assert_eq!(m.len(), 1);
    assert_eq!(m.get("a"), Some(&"2".to_string()));
}

#[test]
fn first_save_makes_no_backup() {
    let db = Db::new("pw".to_string(), location());
    let (_, acts) = save(&db, None);
    assert_eq!(acts.len(), 2);
    assert!(!acts.iter().any(|a| matches!(a, FsAction::Copy { .. })));
    assert!(matches!(&acts[0], FsAction::Write { path, .. } if path == "/srv/creds/keys.tmp.db"));
    assert!(matches!(&acts[1], FsAction::Rename { from, to } if from == "/srv/creds/keys.tmp.db" && to == "/srv/creds/keys.db"));
}

#[test]
fn later_save_makes_one_backup_first() {
    let db = Db::new("pw".to_string(), location());
    let (first, _) = save(&db, None);
    let (_, acts) = save(&db, Some(first));
    assert_eq!(acts.len(), 3);
    assert_eq!(acts.iter().filter(|a| matches!(a, FsAction::Copy { .. })).count(), 1);
    assert!(matches!(&acts[0], FsAction::Copy { from, to }
        if from == "/srv/creds/keys.db" && to == "/srv/creds/keys.backup.20240101_000000.db"));
}

#[test]
fn save_then_load_keeps_the_record() {
    let mut db = Db::new("pw".to_string(), location());
    db.insert(record("email", &[("user", "a@example.com")]));
    let (file, _) = save(&db, None);
    let back = open(&file, "pw").unwrap();
    assert_eq!(back.records().len(), 1);
    let r = back.get("email").unwrap();
    assert_eq!(r.value.len(), 1);
    assert_eq!(r.value.get("user"), Some(&"a@example.com".to_string()));
    assert_eq!(r.timestamp, when(10));
}

#[test]
fn reopen_with_right_and_wrong_password() {
    let mut db = Db::new("hunter2".to_string(), location());
    db.insert(record("bank", &[("user", "alice")]));
    let (file, _) = save(&db, None);
    let back = open(&file, "hunter2").unwrap();
    assert_eq!(back.get("bank").unwrap().value.get("user"), Some(&"alice".to_string()));
    assert_eq!(unseal(&file, "hunter3").unwrap(), None);
    assert!(open(&file, "wrong").is_none());
}

#[test]
fn unseal_refuses_what_is_no_container() {
    assert!(matches!(unseal(b"not a store at all, just some bytes long enough to pass 55", "pw"), Err(StoreError::FormatError)));
}

#[test]
fn opening_without_a_main_file_gives_an_empty_store() {
    match open_store(location(), "pw", None) {
        Ok(OpenStep::Fresh(db)) => {
            assert_eq!(db.records().len(), 0);
            assert_eq!(db.location(), &location());
        }
        _ => panic!("expected a fresh store"),
    }
}

#[test]
fn opening_an_existing_main_file() {
    let mut db = Db::new("pw".to_string(), location());
    db.insert(record("bank", &[("user", "alice")]));
    let (file, _) = save(&db, None);
    assert!(matches!(open_store(location(), "nope", Some(&file)), Ok(OpenStep::WrongPassword)));
    match open_store(location(), "pw", Some(&file)) {
        Ok(OpenStep::Records(text)) => assert_eq!(from_json(&text)[0].key, "bank"),
        _ => panic!("expected the record list"),
    }
    assert!(matches!(open_store(location(), "pw", Some(&file[..20])), Err(StoreError::FormatError)));
}

#[test]
fn plan_steps_lays_out_the_save() {
    let data = encrypt("[]", "pw").unwrap();
    let acts = plan_steps(&data, true, "m".to_string(), "t".to_string(), "b".to_string());
    assert_eq!(acts.len(), 3);
    assert!(matches!(&acts[0], FsAction::Copy { from, to } if from == "m" && to == "b"));
    match &acts[1] {
        FsAction::Write { path, bytes } => {
            assert_eq!(path, "t");
            assert_eq!(bytes, &encode_container(&data));
            assert_eq!(decrypt(&parse_container(bytes).unwrap(), "pw").as_deref(), Some("[]"));
        }
        _ => panic!("expected a write"),
    }
    assert!(matches!(&acts[2], FsAction::Rename { from, to } if from == "t" && to == "m"));
    let acts = plan_steps(&data, false, "m".to_string(), "t".to_string(), "b".to_string());
    assert_eq!(acts.len(), 2);
    assert!(matches!(&acts[0], FsAction::Write { .. }));
}

#[test]
fn an_existing_backup_is_never_overwritten() {
    let db = Db::new("pw".to_string(), location());
    let r = db.save_plan(true, true, "m".to_string(), "t".to_string(), "b".to_string(), "[]");
    assert!(matches!(r, Err(StoreError::BackupExists)));
    let r = db.save_plan(false, true, "m".to_string(), "t".to_string(), "b".to_string(), "[]");
    assert!(matches!(r, Ok(ref acts) if acts.len() == 2));
}

#[test]
fn saved_record_list_holds_the_time_stamp_text() {
    let mut db = Db::new("pw".to_string(), location());
    db.insert(record("bank", &[("user", "alice")]));
    let json = to_json(&db.to_dtos());
    assert!(json.contains("\"timestamp\":\"2023-12-31T10:00:00\""));
}
