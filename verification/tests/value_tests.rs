use rsedis::errors::OperationError;
use rsedis::list::ValueList;
use rsedis::value::{Value, ValueSet, ValueString};

fn string(s: &[u8]) -> Value {
    Value::String(ValueString { data: s.to_vec() })
}

fn list(items: &[&[u8]]) -> Value {
    let mut l = ValueList::new();
    for i in items {
        l.push(i.to_vec(), true);
    }
    Value::List(l)
}

fn items(v: &Value) -> Vec<Vec<u8>> {
    v.lrange(0, -1).unwrap().iter().map(|s| s.to_vec()).collect()
}

#[test]
fn kinds_of_values() {
    assert!(Value::Nil.is_nil());
    assert!(string(b"x").is_string());
    assert!(!list(&[]).is_string());
    assert!(Value::UnorderedSet(ValueSet { members: vec![] }).is_set());
    assert!(!Value::Nil.is_set());
}

#[test]
fn set_get_strlen_append() {
    let mut v = Value::Nil;
    assert_eq!(v.strlen().unwrap(), 0);
    v.set(b"abc".to_vec()).unwrap();
    assert_eq!(v.get().unwrap(), b"abc".to_vec());
    assert_eq!(v.append(b"de".to_vec()).unwrap(), 5);
    assert_eq!(v.get().unwrap(), b"abcde".to_vec());
    assert_eq!(v.strlen().unwrap(), 5);
    let mut l = list(&[b"a"]);
    assert!(matches!(l.get(), Err(OperationError::WrongTypeError)));
    assert!(matches!(l.append(b"x".to_vec()), Err(OperationError::WrongTypeError)));
    l.set(b"now a string".to_vec()).unwrap();
    assert_eq!(l.get().unwrap(), b"now a string".to_vec());
}

#[test]
fn incr_numbers() {
    let mut v = Value::Nil;
    assert_eq!(v.incr(5).unwrap(), 5);
    assert_eq!(v.incr(-7).unwrap(), -2);
    assert_eq!(v.get().unwrap(), b"-2".to_vec());
    let mut s = string(b"12x");
    assert!(matches!(s.incr(1), Err(OperationError::NotANumberError)));
    let mut m = string(b"-9223372036854775808");
    assert!(matches!(m.incr(-1), Err(OperationError::OverflowError)));
    assert_eq!(m.get().unwrap(), b"-9223372036854775808".to_vec());
}

#[test]
fn getrange_and_setrange() {
    let mut v = string(b"This is a string");
    assert_eq!(v.getrange(0, 3).unwrap(), b"This".to_vec());
    assert_eq!(v.getrange(-3, -1).unwrap(), b"ing".to_vec());
    assert_eq!(v.getrange(0, -1).unwrap(), b"This is a string".to_vec());
    assert_eq!(v.getrange(10, 100).unwrap(), b"string".to_vec());
    assert_eq!(v.getrange(5, 3).unwrap(), b"".to_vec());
    assert_eq!(v.setrange(10, b"STRING".to_vec()).unwrap(), 16);
    assert_eq!(v.get().unwrap(), b"This is a STRING".to_vec());
    assert_eq!(v.getrange(10, 15).unwrap(), b"STRING".to_vec());
    let mut n = Value::Nil;
    assert_eq!(n.getrange(0, 10).unwrap(), b"".to_vec());
    assert_eq!(n.setrange(2, b"x".to_vec()).unwrap(), 3);
    assert_eq!(n.get().unwrap(), b"\0\0x".to_vec());
}

#[test]
fn bits() {
    let mut v = Value::Nil;
    assert!(!v.setbit(9, true).unwrap());
    assert_eq!(v.get().unwrap(), vec![0u8, 0x40]);
    assert!(v.getbit(9).unwrap());
    assert!(!v.getbit(8).unwrap());
    assert!(!v.getbit(1000).unwrap());
    assert!(v.setbit(9, false).unwrap());
    assert_eq!(v.get().unwrap(), vec![0u8, 0]);
}

#[test]
fn list_push_pop_index() {
    let mut v = Value::Nil;
    assert_eq!(v.push(b"b".to_vec(), true).unwrap(), 1);
    assert_eq!(v.push(b"a".to_vec(), false).unwrap(), 2);
    assert_eq!(v.push(b"c".to_vec(), true).unwrap(), 3);
    assert_eq!(v.llen().unwrap(), 3);
    assert_eq!(v.lindex(0).unwrap(), Some(&b"a"[..]));
    assert_eq!(v.lindex(-1).unwrap(), Some(&b"c"[..]));
    assert_eq!(v.lindex(3).unwrap(), None);
    assert_eq!(v.pop(false).unwrap(), Some(b"a".to_vec()));
    assert_eq!(v.pop(true).unwrap(), Some(b"c".to_vec()));
    assert_eq!(v.pop(true).unwrap(), Some(b"b".to_vec()));
    assert_eq!(v.pop(true).unwrap(), None);
    assert!(matches!(string(b"x").llen(), Err(OperationError::WrongTypeError)));
}

#[test]
fn list_insert() {
    let mut v = list(&[b"a", b"b", b"a"]);
    assert_eq!(v.linsert(true, b"a".to_vec(), b"x".to_vec()).unwrap(), Some(4));
    assert_eq!(items(&v), vec![b"x".to_vec(), b"a".to_vec(), b"b".to_vec(), b"a".to_vec()]);
    assert_eq!(v.linsert(false, b"b".to_vec(), b"y".to_vec()).unwrap(), Some(5));
    assert_eq!(
        items(&v),
        vec![b"x".to_vec(), b"a".to_vec(), b"b".to_vec(), b"y".to_vec(), b"a".to_vec()]
    );
    assert_eq!(v.linsert(true, b"zz".to_vec(), b"q".to_vec()).unwrap(), None);
}

#[test]
fn list_range() {
    let v = list(&[b"one", b"two", b"three"]);
    assert_eq!(v.lrange(0, 0).unwrap(), vec![&b"one"[..]]);
    assert_eq!(v.lrange(-3, 2).unwrap(), vec![&b"one"[..], &b"two"[..], &b"three"[..]]);
    assert_eq!(v.lrange(-100, 100).unwrap().len(), 3);
    assert!(v.lrange(5, 10).unwrap().is_empty());
    assert!(v.lrange(2, 1).unwrap().is_empty());
}

#[test]
fn list_remove() {
    let mut v = list(&[b"a", b"b", b"a", b"c", b"a"]);
    assert_eq!(v.lrem(true, 2, b"a".to_vec()).unwrap(), 2);
    assert_eq!(items(&v), vec![b"b".to_vec(), b"c".to_vec(), b"a".to_vec()]);
    let mut w = list(&[b"a", b"b", b"a", b"c", b"a"]);
    assert_eq!(w.lrem(false, 1, b"a".to_vec()).unwrap(), 1);
    assert_eq!(items(&w), vec![b"a".to_vec(), b"b".to_vec(), b"a".to_vec(), b"c".to_vec()]);
    assert_eq!(w.lrem(true, 0, b"a".to_vec()).unwrap(), 2);
    assert_eq!(items(&w), vec![b"b".to_vec(), b"c".to_vec()]);
    assert_eq!(w.lrem(true, 0, b"zz".to_vec()).unwrap(), 0);
}

#[test]
fn list_set_and_trim() {
    let mut v = list(&[b"a", b"b", b"c", b"d"]);
    v.lset(1, b"B".to_vec()).unwrap();
    v.lset(-1, b"D".to_vec()).unwrap();
    assert!(matches!(v.lset(4, b"x".to_vec()), Err(OperationError::OutOfBoundsError)));
    assert_eq!(items(&v), vec![b"a".to_vec(), b"B".to_vec(), b"c".to_vec(), b"D".to_vec()]);
    v.ltrim(1, -2).unwrap();
    assert_eq!(items(&v), vec![b"B".to_vec(), b"c".to_vec()]);
    v.ltrim(5, 10).unwrap();
    assert_eq!(v.llen().unwrap(), 0);
}

#[test]
fn hyperloglog_as_exact_set() {
    let mut v = Value::Nil;
    assert!(v.pfadd(vec![b"a".to_vec(), b"b".to_vec(), b"a".to_vec()]).unwrap());
    assert_eq!(v.pfcount().unwrap(), 2);
    assert!(!v.pfadd(vec![b"b".to_vec()]).unwrap());
    assert!(v.pfadd(vec![b"c".to_vec()]).unwrap());
    assert_eq!(v.pfcount().unwrap(), 3);
    let mut other = Value::Nil;
    other.pfadd(vec![b"c".to_vec(), b"d".to_vec()]).unwrap();
    let mut merged = Value::Nil;
    merged.pfmerge(vec![&v, &other]).unwrap();
    assert_eq!(merged.pfcount().unwrap(), 4);
    assert_eq!(Value::Nil.pfcount().unwrap(), 0);
    assert!(matches!(string(b"x").pfcount(), Err(OperationError::WrongTypeError)));
}

#[test]
fn dump_forms() {
    let mut out = Vec::new();
    assert_eq!(string(b"hi").dump(&mut out), 6);
    assert_eq!(out, vec![0u8, 2, b'h', b'i', 6, 0]);
    let mut out = Vec::new();
    assert_eq!(list(&[b"a", b"bc"]).dump(&mut out), 9);
    assert_eq!(out, vec![1u8, 2, 1, b'a', 2, b'b', b'c', 6, 0]);
    let mut out = Vec::new();
    assert_eq!(Value::Nil.dump(&mut out), 0);
    assert!(out.is_empty());
}

#[test]
fn debug_object_lines() {
    assert_eq!(
        list(&[b"a"]).debug_object(),
        "Value at:0x0000000000 refcount:1 encoding:linkedlist serializedlength:6 lru:0 lru_seconds_idle:0"
    );
    let mut l = ValueList::default();
    l.push(b"a".to_vec(), true);
    assert_eq!(
        l.debug_object(),
        "Value at:0x0000000000 refcount:1 encoding:linkedlist serializedlength:6 lru:0 lru_seconds_idle:0"
    );
}

#[test]
fn operation_error_messages() {
    assert_eq!(OperationError::OverflowError.message(), "ERR increment or decrement would overflow");
    assert_eq!(OperationError::OutOfBoundsError.message(), "ERR index out of range");
    assert_eq!(OperationError::ValueError("custom".to_owned()).message(), "custom");
    let e: OperationError = "x".parse::<i64>().unwrap_err().into();
    assert!(matches!(e, OperationError::NotANumberError));
    let io = std::io::Error::new(std::io::ErrorKind::Other, "disk");
    let e: OperationError = io.into();
    assert!(matches!(e, OperationError::IOError(_)));
}

#[test]
fn list_length_after_history() {
    let mut l = ValueList::new();
    l.push(b"a".to_vec(), true);
    l.push(b"b".to_vec(), false);
    assert!(l.pop(true).is_some());
    l.push(b"c".to_vec(), true);
    assert!(l.pop(false).is_some());
    assert!(l.pop(false).is_some());
    assert!(l.pop(true).is_none());
    l.push(b"d".to_vec(), true);
    assert_eq!(l.llen(), 4 - 3);
    assert_eq!(l.llen(), l.lrange(0, -1).len());
}
