use rsedis::database::{clamp_millis, millis_since_epoch, mstime, Config, Database};
use rsedis::value::{Value, ValueString};

fn string(s: &[u8]) -> Value {
    Value::String(ValueString { data: s.to_vec() })
}

fn read(db: &Database, index: usize, key: &[u8], now: i64) -> Option<Vec<u8>> {
    db.get_at(index, key, now).map(|v| v.get().unwrap())
}

#[test]
fn new_database_is_empty() {
    let db = Database::new(Config { databases: 3 });
    assert_eq!(db.config.databases, 3);
    for i in 0..3 {
        assert_eq!(db.dbsize(i), 0);
        assert_eq!(db.db_expire_size(i), 0);
    }
    assert!(db.start_mstime > 0);
    assert!(db.uptime() >= 0);
}

#[test]
fn put_then_get() {
    let mut db = Database::new(Config { databases: 2 });
    db.put(0, b"k".to_vec(), string(b"v"));
    assert_eq!(read(&db, 0, b"k", 10), Some(b"v".to_vec()));
    assert!(db.get(0, b"k").is_some());
    assert!(db.get(1, b"k").is_none());
    assert_eq!(db.dbsize(0), 1);
    db.put(0, b"k".to_vec(), string(b"w"));
    assert_eq!(read(&db, 0, b"k", 10), Some(b"w".to_vec()));
    assert_eq!(db.dbsize(0), 1);
}

#[test]
fn get_mut_changes_in_place() {
    let mut db = Database::new(Config { databases: 1 });
    db.put(0, b"k".to_vec(), string(b"a"));
    db.get_mut(0, b"k").unwrap().append(b"b".to_vec()).unwrap();
    assert_eq!(read(&db, 0, b"k", 0), Some(b"ab".to_vec()));
    db.get_mut_at(0, b"k", 0).unwrap().append(b"c".to_vec()).unwrap();
    assert_eq!(read(&db, 0, b"k", 0), Some(b"abc".to_vec()));
    assert!(db.get_mut(0, b"missing").is_none());
}

#[test]
fn remove_takes_the_value() {
    let mut db = Database::new(Config { databases: 1 });
    db.put(0, b"k".to_vec(), string(b"v"));
    let v = db.remove(0, b"k").unwrap();
    assert_eq!(v.get().unwrap(), b"v".to_vec());
    assert!(db.get(0, b"k").is_none());
    assert!(db.remove(0, b"k").is_none());
}

#[test]
fn expirations() {
    let mut db = Database::new(Config { databases: 1 });
    db.put(0, b"k".to_vec(), string(b"v"));
    db.set_msexpiration(0, b"k".to_vec(), 100);
    assert_eq!(db.get_msexpiration(0, b"k"), Some(&100));
    assert_eq!(db.db_expire_size(0), 1);
    assert!(!db.is_expired_at(0, b"k", 99));
    assert!(db.is_expired_at(0, b"k", 100));
    assert_eq!(read(&db, 0, b"k", 99), Some(b"v".to_vec()));
    assert_eq!(read(&db, 0, b"k", 100), None);
    assert!(db.get(0, b"k").is_none());
    assert_eq!(db.remove_msexpiration(0, b"k"), Some(100));
    assert_eq!(read(&db, 0, b"k", 1000), Some(b"v".to_vec()));
}

#[test]
fn expired_value_is_not_removed_as_live() {
    let mut db = Database::new(Config { databases: 1 });
    db.put(0, b"k".to_vec(), string(b"v"));
    db.set_msexpiration(0, b"k".to_vec(), 5);
    assert!(db.remove_at(0, b"k", 10).is_none());
    assert_eq!(db.dbsize(0), 0);
    assert_eq!(db.db_expire_size(0), 0);
}

#[test]
fn take_or_create_gives_nil_for_new_keys() {
    let mut db = Database::new(Config { databases: 1 });
    let v = db.take_or_create_at(0, b"k", 0);
    assert!(v.is_nil());
    db.put(0, b"k".to_vec(), string(b"v"));
    let v = db.take_or_create_at(0, b"k", 0);
    assert_eq!(v.get().unwrap(), b"v".to_vec());
    assert_eq!(db.dbsize(0), 0);
    assert!(db.take_at(0, b"k", 0).is_none());
}

#[test]
fn clear_and_clearall() {
    let mut db = Database::new(Config { databases: 2 });
    db.put(0, b"a".to_vec(), string(b"1"));
    db.put(1, b"b".to_vec(), string(b"2"));
    db.set_msexpiration(1, b"b".to_vec(), 50);
    db.clear(0);
    assert_eq!(db.dbsize(0), 0);
    assert_eq!(db.dbsize(1), 1);
    db.clearall();
    assert_eq!(db.dbsize(1), 0);
    assert_eq!(db.db_expire_size(1), 0);
}

#[test]
fn uptime_from_start() {
    let db = Database::new(Config { databases: 1 });
    assert_eq!(db.uptime_at(db.start_mstime + 250), 250);
    assert_eq!(db.uptime_at(i64::MIN), i64::MIN);
    assert!(mstime() >= db.start_mstime);
}

#[test]
fn remove_counts_keys() {
    let mut db = Database::new(Config { databases: 1 });
    db.put(0, b"a".to_vec(), string(b"1"));
    db.put(0, b"b".to_vec(), string(b"2"));
    assert_eq!(db.dbsize(0), 2);
    assert!(db.remove(0, b"a").is_some());
    assert_eq!(db.dbsize(0), 1);
    assert!(db.remove(0, b"a").is_none());
    assert_eq!(db.dbsize(0), 1);
    db.set_msexpiration(0, b"b".to_vec(), 1);
    assert!(db.remove_at(0, b"b", 5).is_none());
    assert_eq!(db.dbsize(0), 0);
}

#[test]
fn clock_milliseconds() {
    assert_eq!(clamp_millis(1234), 1234);
    assert_eq!(clamp_millis(u128::MAX), i64::MAX);
    assert_eq!(clamp_millis(9223372036854775808), i64::MAX);
    assert_eq!(millis_since_epoch(None), 0);
    assert_eq!(millis_since_epoch(Some(42)), 42);
}
