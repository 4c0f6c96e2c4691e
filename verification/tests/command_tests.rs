use rsedis::command::{command, generic_incr};
use rsedis::database::{Config, Database};
use rsedis::parser::parse;
use rsedis::response::{Response, ResponseError};

const NOW: i64 = 1_000_000;

fn wire(args: &[&[u8]]) -> Vec<u8> {
    let mut out = format!("*{}\r\n", args.len()).into_bytes();
    for a in args {
        out.extend_from_slice(format!("${}\r\n", a.len()).as_bytes());
        out.extend_from_slice(a);
        out.extend_from_slice(b"\r\n");
    }
    out
}

fn run_at(db: &mut Database, args: &[&[u8]], now: i64) -> Response {
    let bytes = wire(args);
    let (cmd, n) = parse(&bytes).unwrap();
    assert_eq!(n, bytes.len());
    match command(&cmd, db, 0, now) {
        Ok(r) => r,
        Err(_) => panic!("no reply"),
    }
}

fn run(db: &mut Database, args: &[&[u8]]) -> Response {
    run_at(db, args, NOW)
}

fn new_db() -> Database {
    Database::new(Config { databases: 2 })
}

fn data(s: &[u8]) -> Response {
    Response::Data(s.to_vec())
}

fn err(s: &str) -> Response {
    Response::Error(s.to_owned())
}

fn wrongtype() -> Response {
    err("WRONGTYPE Operation against a key holding the wrong kind of value")
}

fn ok() -> Response {
    Response::Status("OK".to_owned())
}

#[test]
fn set_then_get() {
    let mut db = new_db();
    assert_eq!(run(&mut db, &[b"SET", b"key", b"value"]), ok());
    assert_eq!(run(&mut db, &[b"get", b"key"]), data(b"value"));
    assert_eq!(run(&mut db, &[b"get", b"other"]), Response::Nil);
}

#[test]
fn set_nx_and_xx() {
    let mut db = new_db();
    assert_eq!(run(&mut db, &[b"set", b"k", b"1", b"xx"]), Response::Nil);
    assert_eq!(run(&mut db, &[b"get", b"k"]), Response::Nil);
    assert_eq!(run(&mut db, &[b"set", b"k", b"1", b"NX"]), ok());
    assert_eq!(run(&mut db, &[b"set", b"k", b"2", b"nx"]), Response::Nil);
    assert_eq!(run(&mut db, &[b"get", b"k"]), data(b"1"));
    assert_eq!(run(&mut db, &[b"set", b"k", b"3", b"xx"]), ok());
    assert_eq!(run(&mut db, &[b"get", b"k"]), data(b"3"));
}

#[test]
fn set_with_expiration() {
    let mut db = new_db();
    assert_eq!(run(&mut db, &[b"set", b"k", b"v", b"px", b"1000100"]), ok());
    assert_eq!(run_at(&mut db, &[b"pttl", b"k"], NOW), Response::Integer(100));
    assert_eq!(run_at(&mut db, &[b"get", b"k"], NOW + 99), data(b"v"));
    assert_eq!(run_at(&mut db, &[b"get", b"k"], NOW + 100), Response::Nil);
    assert_eq!(run(&mut db, &[b"set", b"s", b"v", b"ex", b"2000"]), ok());
    assert_eq!(run(&mut db, &[b"ttl", b"s"]), Response::Integer(1000));
    assert_eq!(run(&mut db, &[b"pttl", b"s"]), Response::Integer(1_000_000));
}

#[test]
fn set_expiration_is_a_moment() {
    let mut db = new_db();
    assert_eq!(run(&mut db, &[b"set", b"k", b"v", b"ex", b"10"]), ok());
    assert_eq!(run_at(&mut db, &[b"get", b"k"], 9_999), data(b"v"));
    assert_eq!(run_at(&mut db, &[b"get", b"k"], 10_000), Response::Nil);
    assert_eq!(run(&mut db, &[b"get", b"k"]), Response::Nil);
}

#[test]
fn set_syntax_errors() {
    let mut db = new_db();
    assert_eq!(run(&mut db, &[b"set", b"k", b"v", b"zz"]), err("ERR syntax error"));
    assert_eq!(run(&mut db, &[b"set", b"k", b"v", b"px"]), err("ERR syntax error"));
    assert_eq!(run(&mut db, &[b"set", b"k", b"v", b"px", b"abc"]), err("ERR syntax error"));
    assert_eq!(run(&mut db, &[b"set", b"w", b"v", b"ex", b"9223372036854775807"]), ok());
    assert_eq!(run(&mut db, &[b"get", b"w"]), Response::Nil);
    assert_eq!(
        run(&mut db, &[b"set", b"k", b"v", b"px", b"9223372036854775807", b"keep"]),
        err("ERR syntax error")
    );
    assert_eq!(
        run(&mut db, &[b"set", b"k"]),
        err("ERR wrong number of arguments for 'set' command")
    );
}

#[test]
fn setnx_setex_psetex() {
    let mut db = new_db();
    assert_eq!(run(&mut db, &[b"setnx", b"k", b"a"]), Response::Integer(1));
    assert_eq!(run(&mut db, &[b"setnx", b"k", b"b"]), Response::Integer(0));
    assert_eq!(run(&mut db, &[b"get", b"k"]), data(b"a"));
    assert_eq!(run(&mut db, &[b"setex", b"e", b"2000", b"v"]), ok());
    assert_eq!(run(&mut db, &[b"ttl", b"e"]), Response::Integer(1000));
    assert_eq!(run(&mut db, &[b"psetex", b"p", b"1001500", b"v"]), ok());
    assert_eq!(run(&mut db, &[b"pttl", b"p"]), Response::Integer(1500));
    assert_eq!(run(&mut db, &[b"setex", b"old", b"10", b"v"]), ok());
    assert_eq!(run(&mut db, &[b"exists", b"old"]), Response::Integer(0));
    assert_eq!(run(&mut db, &[b"setex", b"e", b"-1", b"v"]), err("ERR invalid expire time"));
    assert_eq!(run(&mut db, &[b"setex", b"e", b"x", b"v"]), err("ERR syntax error"));
}

#[test]
fn mget_mixes_values() {
    let mut db = new_db();
    run(&mut db, &[b"set", b"a", b"1"]);
    run(&mut db, &[b"rpush", b"l", b"x"]);
    assert_eq!(
        run(&mut db, &[b"mget", b"a", b"b", b"l"]),
        Response::Array(vec![data(b"1"), Response::Nil, Response::Nil])
    );
    assert_eq!(run(&mut db, &[b"mget"]), err("ERR wrong number of parameters"));
}

#[test]
fn exists_and_del() {
    let mut db = new_db();
    run(&mut db, &[b"set", b"a", b"1"]);
    run(&mut db, &[b"set", b"b", b"2"]);
    assert_eq!(run(&mut db, &[b"exists", b"a"]), Response::Integer(1));
    assert_eq!(run(&mut db, &[b"del", b"a", b"b", b"c"]), Response::Integer(2));
    assert_eq!(run(&mut db, &[b"exists", b"a"]), Response::Integer(0));
    assert_eq!(run(&mut db, &[b"del", b"a"]), Response::Integer(0));
    assert_eq!(run(&mut db, &[b"del"]), err("ERR wrong number of parameters"));
}

#[test]
fn expire_ttl_persist() {
    let mut db = new_db();
    assert_eq!(run(&mut db, &[b"expire", b"k", b"5"]), Response::Integer(0));
    run(&mut db, &[b"set", b"k", b"v"]);
    assert_eq!(run(&mut db, &[b"ttl", b"k"]), Response::Integer(-1));
    assert_eq!(run(&mut db, &[b"ttl", b"missing"]), Response::Integer(-2));
    assert_eq!(run(&mut db, &[b"expire", b"k", b"5"]), Response::Integer(1));
    assert_eq!(run(&mut db, &[b"ttl", b"k"]), Response::Integer(5));
    assert_eq!(run(&mut db, &[b"persist", b"k"]), Response::Integer(1));
    assert_eq!(run(&mut db, &[b"persist", b"k"]), Response::Integer(0));
    assert_eq!(run(&mut db, &[b"ttl", b"k"]), Response::Integer(-1));
    assert_eq!(run(&mut db, &[b"expire", b"k", b"x"]), err("Invalid expiration"));
    assert_eq!(run(&mut db, &[b"expire", b"k", b"0"]), Response::Integer(1));
    assert_eq!(run(&mut db, &[b"get", b"k"]), Response::Nil);
}

#[test]
fn dbsize_flushdb_flushall() {
    let mut db = new_db();
    run(&mut db, &[b"set", b"a", b"1"]);
    run(&mut db, &[b"set", b"b", b"2"]);
    assert_eq!(run(&mut db, &[b"dbsize"]), Response::Integer(2));
    assert_eq!(run(&mut db, &[b"flushdb", b"x", b"y"]), ok());
    assert_eq!(run(&mut db, &[b"dbsize"]), Response::Integer(0));
    run(&mut db, &[b"set", b"a", b"1"]);
    assert_eq!(run(&mut db, &[b"flushall"]), ok());
    assert_eq!(run(&mut db, &[b"get", b"a"]), Response::Nil);
    assert_eq!(
        run(&mut db, &[b"dbsize", b"extra"]),
        err("ERR wrong number of arguments for 'dbsize' command")
    );
}

#[test]
fn type_of_values() {
    let mut db = new_db();
    run(&mut db, &[b"set", b"s", b"1"]);
    run(&mut db, &[b"lpush", b"l", b"1"]);
    assert_eq!(run(&mut db, &[b"type", b"s"]), data(b"string"));
    assert_eq!(run(&mut db, &[b"type", b"l"]), data(b"list"));
    assert_eq!(run(&mut db, &[b"type", b"none"]), data(b"none"));
}

#[test]
fn append_strlen_getrange() {
    let mut db = new_db();
    assert_eq!(run(&mut db, &[b"append", b"k", b"Hello"]), Response::Integer(5));
    assert_eq!(run(&mut db, &[b"append", b"k", b" World"]), Response::Integer(11));
    assert_eq!(run(&mut db, &[b"strlen", b"k"]), Response::Integer(11));
    assert_eq!(run(&mut db, &[b"strlen", b"missing"]), Response::Integer(0));
    assert_eq!(run(&mut db, &[b"getrange", b"k", b"0", b"4"]), data(b"Hello"));
    assert_eq!(run(&mut db, &[b"getrange", b"k", b"-5", b"-1"]), data(b"World"));
    assert_eq!(run(&mut db, &[b"getrange", b"k", b"5", b"2"]), data(b""));
    assert_eq!(run(&mut db, &[b"getrange", b"k", b"0", b"100"]), data(b"Hello World"));
}

#[test]
fn setrange_pads_with_zeros() {
    let mut db = new_db();
    assert_eq!(run(&mut db, &[b"setrange", b"k", b"3", b"ab"]), Response::Integer(5));
    assert_eq!(run(&mut db, &[b"get", b"k"]), data(b"\0\0\0ab"));
    assert_eq!(run(&mut db, &[b"setrange", b"k", b"0", b"XY"]), Response::Integer(5));
    assert_eq!(run(&mut db, &[b"get", b"k"]), data(b"XY\0ab"));
    assert_eq!(run(&mut db, &[b"setrange", b"n", b"0", b""]), Response::Integer(0));
    assert_eq!(run(&mut db, &[b"exists", b"n"]), Response::Integer(0));
    assert_eq!(run(&mut db, &[b"setrange", b"k", b"-1", b"a"]), err("ERR offset is out of range"));
}

#[test]
fn setbit_reports_old_bit() {
    let mut db = new_db();
    assert_eq!(run(&mut db, &[b"setbit", b"k", b"7", b"1"]), Response::Integer(0));
    assert_eq!(run(&mut db, &[b"get", b"k"]), data(b"\x01"));
    assert_eq!(run(&mut db, &[b"setbit", b"k", b"7", b"0"]), Response::Integer(1));
    assert_eq!(run(&mut db, &[b"setbit", b"k", b"0", b"1"]), Response::Integer(0));
    assert_eq!(run(&mut db, &[b"get", b"k"]), data(b"\x80"));
    assert_eq!(
        run(&mut db, &[b"setbit", b"k", b"0", b"2"]),
        err("ERR bit is not an integer or out of range")
    );
    assert_eq!(
        run(&mut db, &[b"setbit", b"k", b"-1", b"1"]),
        err("ERR bit offset is not an integer or out of range")
    );
}

#[test]
fn incr_decr_family() {
    let mut db = new_db();
    assert_eq!(run(&mut db, &[b"incr", b"n"]), Response::Integer(1));
    assert_eq!(run(&mut db, &[b"incrby", b"n", b"10"]), Response::Integer(11));
    assert_eq!(run(&mut db, &[b"decr", b"n"]), Response::Integer(10));
    assert_eq!(run(&mut db, &[b"decrby", b"n", b"15"]), Response::Integer(-5));
    assert_eq!(run(&mut db, &[b"get", b"n"]), data(b"-5"));
    run(&mut db, &[b"set", b"s", b"abc"]);
    assert_eq!(run(&mut db, &[b"incr", b"s"]), err("ERR value is not an integer or out of range"));
    run(&mut db, &[b"set", b"m", b"9223372036854775807"]);
    assert_eq!(run(&mut db, &[b"incr", b"m"]), err("ERR increment or decrement would overflow"));
    assert_eq!(run(&mut db, &[b"incrby", b"n", b"x"]), err("Invalid increment"));
    assert_eq!(
        run(&mut db, &[b"decrby", b"n", b"-9223372036854775808"]),
        err("ERR increment or decrement would overflow")
    );
    run(&mut db, &[b"set", b"five", b"5"]);
    assert_eq!(
        run(&mut db, &[b"decrby", b"five", b"-9223372036854775808"]),
        Response::Integer(-9223372036854775803)
    );
    run(&mut db, &[b"set", b"e", b"v"]);
    assert_eq!(run(&mut db, &[b"expire", b"e", b"9223372036854775807"]), Response::Integer(1));
    assert_eq!(run(&mut db, &[b"get", b"e"]), Response::Nil);
}

#[test]
fn wrong_type_errors() {
    let mut db = new_db();
    run(&mut db, &[b"rpush", b"l", b"a"]);
    assert_eq!(run(&mut db, &[b"get", b"l"]), wrongtype());
    assert_eq!(run(&mut db, &[b"append", b"l", b"x"]), wrongtype());
    assert_eq!(run(&mut db, &[b"incr", b"l"]), wrongtype());
    run(&mut db, &[b"set", b"s", b"v"]);
    assert_eq!(run(&mut db, &[b"lpush", b"s", b"x"]), wrongtype());
    assert_eq!(run(&mut db, &[b"lpop", b"s"]), wrongtype());
}

#[test]
fn push_and_pop_both_ends() {
    let mut db = new_db();
    assert_eq!(run(&mut db, &[b"rpush", b"l", b"a", b"b"]), Response::Integer(2));
    assert_eq!(run(&mut db, &[b"lpush", b"l", b"z"]), Response::Integer(3));
    assert_eq!(run(&mut db, &[b"lpop", b"l"]), data(b"z"));
    assert_eq!(run(&mut db, &[b"rpop", b"l"]), data(b"b"));
    assert_eq!(run(&mut db, &[b"rpop", b"l"]), data(b"a"));
    assert_eq!(run(&mut db, &[b"rpop", b"l"]), Response::Nil);
    assert_eq!(run(&mut db, &[b"lpop", b"missing"]), Response::Nil);
    assert_eq!(run(&mut db, &[b"rpush", b"l"]), err("Wrong number of parameters"));
}

#[test]
fn pushx_needs_existing_list() {
    let mut db = new_db();
    assert_eq!(run(&mut db, &[b"lpushx", b"l", b"a"]), Response::Integer(0));
    assert_eq!(run(&mut db, &[b"exists", b"l"]), Response::Integer(0));
    run(&mut db, &[b"rpush", b"l", b"a"]);
    assert_eq!(run(&mut db, &[b"rpushx", b"l", b"b"]), Response::Integer(2));
    assert_eq!(run(&mut db, &[b"lpushx", b"l", b"c"]), Response::Integer(3));
    assert_eq!(run(&mut db, &[b"lpop", b"l"]), data(b"c"));
    assert_eq!(run(&mut db, &[b"rpop", b"l"]), data(b"b"));
}

#[test]
fn rpoplpush_moves_tail() {
    let mut db = new_db();
    run(&mut db, &[b"rpush", b"src", b"a", b"b", b"c"]);
    assert_eq!(run(&mut db, &[b"rpoplpush", b"src", b"dst"]), data(b"c"));
    assert_eq!(run(&mut db, &[b"rpoplpush", b"src", b"dst"]), data(b"b"));
    assert_eq!(run(&mut db, &[b"lpop", b"dst"]), data(b"b"));
    assert_eq!(run(&mut db, &[b"rpoplpush", b"missing", b"dst"]), Response::Nil);
    run(&mut db, &[b"set", b"s", b"v"]);
    assert_eq!(
        run(&mut db, &[b"rpoplpush", b"src", b"s"]),
        err("WRONGTYPE Operation against a key holding the wrong kind of value")
    );
    assert_eq!(run(&mut db, &[b"rpoplpush", b"src", b"src"]), data(b"a"));
    assert_eq!(run(&mut db, &[b"lpop", b"src"]), data(b"a"));
}

#[test]
fn dump_and_debug_object() {
    let mut db = new_db();
    run(&mut db, &[b"set", b"k", b"ab"]);
    assert_eq!(run(&mut db, &[b"dump", b"k"]), data(&[0u8, 2, b'a', b'b', 6, 0]));
    assert_eq!(run(&mut db, &[b"dump", b"missing"]), Response::Nil);
    assert_eq!(
        run(&mut db, &[b"debug", b"object", b"k"]),
        Response::Status(
            "Value at:0x0000000000 refcount:1 encoding:raw serializedlength:6 lru:0 lru_seconds_idle:0"
                .to_owned()
        )
    );
    assert_eq!(run(&mut db, &[b"debug", b"object", b"missing"]), err("no such key"));
    assert_eq!(run(&mut db, &[b"debug", b"other", b"k"]), err("Invalid debug command"));
}

#[test]
fn unknown_and_empty_commands() {
    let mut db = new_db();
    assert_eq!(run(&mut db, &[b"NOPE", b"x"]), err("ERR unknown command 'NOPE'"));
    let (cmd, _) = parse(b"*0\r\n").unwrap();
    assert!(matches!(command(&cmd, &mut db, 0, NOW), Err(ResponseError::NoReply)));
}

#[test]
fn databases_are_separate() {
    let mut db = new_db();
    run(&mut db, &[b"set", b"k", b"zero"]);
    let bytes = wire(&[b"get", b"k"]);
    let (cmd, _) = parse(&bytes).unwrap();
    assert_eq!(command(&cmd, &mut db, 1, NOW).unwrap(), Response::Nil);
    assert_eq!(command(&cmd, &mut db, 0, NOW).unwrap(), data(b"zero"));
}

#[test]
fn incr_without_key_is_invalid() {
    let mut db = new_db();
    let bytes = wire(&[b"incr"]);
    let (cmd, _) = parse(&bytes).unwrap();
    assert_eq!(generic_incr(&cmd, &mut db, 0, 1, NOW), err("Invalid key"));
    assert_eq!(
        run(&mut db, &[b"incr"]),
        err("ERR wrong number of arguments for 'incr' command")
    );
}

#[test]
fn flushall_keeps_settings() {
    let mut db = new_db();
    let start = db.start_mstime;
    run(&mut db, &[b"set", b"a", b"1"]);
    assert_eq!(run(&mut db, &[b"flushall"]), ok());
    assert_eq!(db.start_mstime, start);
    assert_eq!(db.config.databases, 2);
}
