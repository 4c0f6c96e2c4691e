use vstd::prelude::*;
use vstd::string::*;
use vstd::utf8::{decode_utf8, encode_utf8_decode_utf8};

use crate::bytes::ascii_lowercase;

use crate::command::{
    expiration_from, push_values, seconds_to_ms, spec_expire, spec_flushdb, spec_generic_push,
    spec_generic_ttl,
};
use crate::database::{db_current, db_lookup, db_remove, db_store, is_live, DbModel};
use crate::decimal::spec_parse_i64;
use crate::laws::{has_database, law_store_keeps_other_keys, law_store_then_lookup};
use crate::list::{normalize, range_window};
use crate::response::ResponseModel;
use crate::command::{count_reply, named, spec_command, spec_generic_rpoplpush, spec_append, spec_dbsize, spec_dbtype, spec_debug, spec_del, spec_dump_command, spec_exists, spec_flushall, spec_generic_pop, spec_get, spec_getrange, spec_incr_by_one, spec_incrby, spec_mget, spec_persist, spec_rpoplpush, spec_set, spec_setbit, spec_setex, spec_setnx, spec_setrange, spec_strlen, spec_ttl, unknown_command};
use crate::value::{op_push, ValueModel};

verus! {

/// `FLUSHDB` on database `index` answers `OK`, empties that database and its expirations,
/// and leaves every other database, and its expirations, as it was.
pub proof fn law_flushdb_clears_one_database(args: Seq<Seq<u8>>, m: DbModel, index: int, other: int)
    requires
        args.len() == 3,
        has_database(m, index),
        has_database(m, other),
        other != index,
    ensures
        spec_flushdb(args, m, index).0 == ResponseModel::Status("OK"@),
        spec_flushdb(args, m, index).1.data[index].dom().len() == 0,
        spec_flushdb(args, m, index).1.expirations[index].dom().len() == 0,
        spec_flushdb(args, m, index).1.data[other] == m.data[other],
        spec_flushdb(args, m, index).1.expirations[other] == m.expirations[other],
        spec_flushdb(args, m, index).1.data.len() == m.data.len(),
{
    let m2 = spec_flushdb(args, m, index).1;
    assert(m2.data[index].dom() =~= Set::<Seq<u8>>::empty());
    assert(m2.expirations[index].dom() =~= Set::<Seq<u8>>::empty());
}

/// A negative start counts from the tail: for a list of `len` elements, the start `p` with
/// `-len <= p < 0` selects the same elements as the start `p + len`.
pub proof fn law_range_negative_start(start: int, stop: int, len: nat)
    requires
        -(len as int) <= start < 0,
    ensures
        range_window(start, stop, len) == range_window(start + len, stop, len),
{
}

/// A negative stop counts from the tail: for a list of `len` elements, the stop `p` with
/// `-len <= p < 0` selects the same elements as the stop `p + len`.
pub proof fn law_range_negative_stop(start: int, stop: int, len: nat)
    requires
        -(len as int) <= stop < 0,
    ensures
        range_window(start, stop, len) == range_window(start, stop + len, len),
{
}

/// With positions inside the list, the selection is exactly the elements from `start` to
/// `stop`, both included; it is empty when `start` comes after `stop`.
pub proof fn law_range_inside(start: int, stop: int, len: nat)
    requires
        0 <= start < len,
        0 <= stop < len,
    ensures
        range_window(start, stop, len) == (if start <= stop { (start, stop + 1) } else { (0int, 0int) }),
{
}

/// A stop past the tail selects up to the last element; a start past the tail selects
/// nothing.
pub proof fn law_range_past_the_end(start: int, stop: int, len: nat)
    requires
        0 <= start,
    ensures
        stop >= len ==> range_window(start, stop, len) == range_window(start, len - 1, len),
        start >= len ==> range_window(start, stop, len) == (0int, 0int),
{
}

/// A negative position counts from the tail for single elements too: `p` with
/// `-len <= p < 0` names the element at `p + len`.
pub proof fn law_position_from_tail(position: int, len: nat)
    requires
        -(len as int) <= position < 0,
    ensures
        normalize(position, len) == Ok::<nat, nat>((position + len) as nat),
        normalize(position + len, len) == normalize(position, len),
{
}

/// `EXPIRE key seconds` on a live key answers 1 and gives the key the expiration moment
/// `now + seconds * 1000` (in wrapping `i64` arithmetic), whatever expiration it had; the
/// values and every other key's expiration stay as they were. On a key that is not live it
/// answers 0 and changes nothing.
pub proof fn law_expire_replaces_expiration(args: Seq<Seq<u8>>, m: DbModel, index: int, now: i64, secs: i64, other: Seq<u8>)
    requires
        args.len() == 3,
        spec_parse_i64(args[2]) == Some(secs),
        has_database(m, index),
        other != args[1],
    ensures
        ({
            let (reply, m2) = spec_expire(args, m, index, now as int);
            if is_live(m, index, args[1], now as int) {
                &&& reply == ResponseModel::Integer(1)
                &&& m2.expirations[index].contains_key(args[1])
                &&& m2.expirations[index][args[1]] == expiration_from(now, seconds_to_ms(secs))
                &&& m2.data == m.data
                &&& m2.expirations[index].contains_key(other) == m.expirations[index].contains_key(other)
                &&& m2.expirations[index][other] == m.expirations[index][other]
            } else {
                reply == ResponseModel::Integer(0) && m2 == m
            }
        }),
{
}

/// The time to live read at once after `EXPIRE key seconds` on a live key is `seconds`,
/// whatever expiration the key had, when `now + seconds * 1000` fits in an `i64`.
pub proof fn law_ttl_after_expire(args: Seq<Seq<u8>>, m: DbModel, index: int, now: i64, secs: i64)
    requires
        args.len() == 3,
        spec_parse_i64(args[2]) == Some(secs),
        has_database(m, index),
        is_live(m, index, args[1], now as int),
        secs > 0,
        0 <= now,
        now + secs * 1000 <= i64::MAX,
    ensures
        spec_generic_ttl(spec_expire(args, m, index, now as int).1, index, args[1], 1000, now as int)
            == ResponseModel::Integer(secs),
{
    assert(seconds_to_ms(secs) == secs * 1000) by {
        assert(0 < secs * 1000 <= i64::MAX);
        assert((secs * 1000) % 0x1_0000_0000_0000_0000 == secs * 1000);
    }
    assert(expiration_from(now, seconds_to_ms(secs)) == now + secs * 1000);
    assert((now + secs * 1000 - now) / 1000 == secs);
}

/// The elements of a list value (none for anything else).
pub open spec fn list_elements(v: ValueModel) -> Seq<Seq<u8>> {
    match v {
        ValueModel::List(l) => l,
        _ => Seq::empty(),
    }
}

/// The list `l` once each of `vals` has been pushed in turn, at the tail (`right`) or at the
/// head: at the tail the values follow `l` in order; at the head they stand in front of it
/// in reverse order.
pub open spec fn pushed_all(l: Seq<Seq<u8>>, vals: Seq<Seq<u8>>, right: bool) -> Seq<Seq<u8>> {
    if right {
        l + vals
    } else {
        vals.reverse() + l
    }
}

proof fn lemma_reverse_cons(v: Seq<u8>, rest: Seq<Seq<u8>>)
    ensures
        (seq![v] + rest).reverse() == rest.reverse() + seq![v],
{
    let s = seq![v] + rest;
    assert(s.reverse() =~= rest.reverse() + seq![v]);
}

proof fn lemma_push_values(
    args: Seq<Seq<u8>>,
    j: int,
    m: DbModel,
    index: int,
    key: Seq<u8>,
    right: bool,
    create: bool,
    now: int,
    r: ResponseModel,
    other_index: int,
    other: Seq<u8>,
    t: int,
)
    requires
        has_database(m, index),
        has_database(m, other_index),
        other_index != index || other != key,
        0 <= j <= args.len(),
        create || is_live(m, index, key, now),
        db_current(m, index, key, now) is List || db_current(m, index, key, now) is Nil,
        list_elements(db_current(m, index, key, now)).len() + args.len() - j <= usize::MAX,
        list_elements(db_current(m, index, key, now)).len() + args.len() - j <= i64::MAX,
    ensures
        ({
            let l0 = list_elements(db_current(m, index, key, now));
            let vals = args.subrange(j, args.len() as int);
            let (resp, m2) = push_values(args, j, m, index, key, right, create, now, r);
            &&& vals.len() == 0 ==> resp == r && m2 == m
            &&& vals.len() > 0 ==> db_lookup(m2, index, key, now) == Some(ValueModel::List(pushed_all(l0, vals, right)))
                && resp == ResponseModel::Integer((l0.len() + vals.len()) as i64)
            &&& db_lookup(m2, other_index, other, t) == db_lookup(m, other_index, other, t)
            &&& has_database(m2, index) && has_database(m2, other_index)
        }),
    decreases args.len() - j,
{
    let l0 = list_elements(db_current(m, index, key, now));
    let vals = args.subrange(j, args.len() as int);
    if j < args.len() {
        let v = args[j];
        let l1 = if right { l0.push(v) } else { seq![v] + l0 };
        assert(op_push(db_current(m, index, key, now), v, right).1 == ValueModel::List(l1)) by {
            if db_current(m, index, key, now) is Nil {
                assert(Seq::<Seq<u8>>::empty().push(v) =~= seq![v]);
                assert(seq![v] + Seq::<Seq<u8>>::empty() =~= seq![v]);
            }
        }
        let m1 = db_store(m, index, key, now, ValueModel::List(l1));
        law_store_then_lookup(m, index, key, now, ValueModel::List(l1));
        law_store_keeps_other_keys(m, index, key, now, ValueModel::List(l1), other_index, other, t);
        assert(has_database(m1, index) && has_database(m1, other_index));
        let rest = args.subrange(j + 1, args.len() as int);
        assert(vals =~= seq![v] + rest);
        lemma_push_values(args, j + 1, m1, index, key, right, create, now,
            count_reply(op_push(db_current(m, index, key, now), v, right).0), other_index, other, t);
        if right {
            assert(l1 + rest =~= l0 + vals);
            if rest.len() == 0 {
                assert(vals =~= seq![v]);
                assert(l1 =~= l0 + vals);
            }
        } else {
            lemma_reverse_cons(v, rest);
            assert(rest.reverse() + l1 =~= vals.reverse() + l0);
            if rest.len() == 0 {
                assert(rest.reverse() =~= Seq::<Seq<u8>>::empty());
                assert(l1 =~= vals.reverse() + l0);
            }
        }
    }
}

/// `LPUSH`, `RPUSH` (and `LPUSHX`, `RPUSHX` on a live key) `key v1 ... vn` push every value,
/// in argument order: the key then holds the old list (nothing when it was not live) with
/// `v1 ... vn` after it (`right`), or with `vn ... v1` in front of it; the answer is the new
/// length. Every other key is left as it was.
pub proof fn law_push_all_values(
    args: Seq<Seq<u8>>,
    m: DbModel,
    index: int,
    right: bool,
    create: bool,
    now: int,
    other_index: int,
    other: Seq<u8>,
    t: int,
)
    requires
        args.len() >= 3,
        has_database(m, index),
        has_database(m, other_index),
        other_index != index || other != args[1],
        create || is_live(m, index, args[1], now),
        db_current(m, index, args[1], now) is List || db_current(m, index, args[1], now) is Nil,
        list_elements(db_current(m, index, args[1], now)).len() + args.len() <= usize::MAX,
        list_elements(db_current(m, index, args[1], now)).len() + args.len() <= i64::MAX,
    ensures
        ({
            let l0 = list_elements(db_current(m, index, args[1], now));
            let vals = args.subrange(2, args.len() as int);
            let (resp, m2) = spec_generic_push(args, m, index, right, create, now);
            &&& resp == ResponseModel::Integer((l0.len() + args.len() - 2) as i64)
            &&& db_lookup(m2, index, args[1], now) == Some(ValueModel::List(pushed_all(l0, vals, right)))
            &&& pushed_all(l0, vals, right).len() == l0.len() + args.len() - 2
            &&& db_lookup(m2, other_index, other, t) == db_lookup(m, other_index, other, t)
        }),
{
    lemma_push_values(args, 2, m, index, args[1], right, create, now, ResponseModel::Nil, other_index, other, t);
}

/// `LPUSHX` and `RPUSHX` on a key that holds no live value answer 0, push nothing and leave
/// the key absent (an expired value under it is removed).
pub proof fn law_pushx_needs_live_key(args: Seq<Seq<u8>>, m: DbModel, index: int, right: bool, now: int)
    requires
        args.len() >= 3,
        has_database(m, index),
        !is_live(m, index, args[1], now),
    ensures
        spec_generic_push(args, m, index, right, false, now).0 == ResponseModel::Integer(0),
        spec_generic_push(args, m, index, right, false, now).1 == db_remove(m, index, args[1]),
        !spec_generic_push(args, m, index, right, false, now).1.data[index].contains_key(args[1]),
{
}

proof fn lemma_named_text(args: Seq<Seq<u8>>, w: &str)
    ensures
        named(args, w) ==> decode_utf8(ascii_lowercase(args[0])) == w@,
{
    encode_utf8_decode_utf8(w@);
}

/// The dispatcher runs, for each command name (read in any ASCII case), exactly that
/// command's handler against database `index` at `now`: the reply and the keyspace
/// afterwards are the handler's. A command whose name is none of these is answered with the
/// unknown-command error and changes nothing, and an empty command has no reply.
pub proof fn law_dispatch(args: Seq<Seq<u8>>, m: DbModel, index: int, now: int)
    ensures
        named(args, "set") ==> spec_command(args, m, index, now) == Some(spec_set(args, m, index, now)),
        named(args, "setnx") ==> spec_command(args, m, index, now) == Some(spec_setnx(args, m, index, now)),
        named(args, "setex") ==> spec_command(args, m, index, now) == Some(spec_setex(args, m, index, now, false)),
        named(args, "psetex") ==> spec_command(args, m, index, now) == Some(spec_setex(args, m, index, now, true)),
        named(args, "get") ==> spec_command(args, m, index, now) == Some((spec_get(args, m, index, now), m)),
        named(args, "mget") ==> spec_command(args, m, index, now) == Some((spec_mget(args, m, index, now), m)),
        named(args, "exists") ==> spec_command(args, m, index, now) == Some((spec_exists(args, m, index, now), m)),
        named(args, "del") ==> spec_command(args, m, index, now) == Some(spec_del(args, m, index, now)),
        named(args, "debug") ==> spec_command(args, m, index, now) == Some((spec_debug(args, m, index, now), m)),
        named(args, "dbsize") ==> spec_command(args, m, index, now) == Some((spec_dbsize(args, m, index), m)),
        named(args, "dump") ==> spec_command(args, m, index, now) == Some((spec_dump_command(args, m, index, now), m)),
        named(args, "expire") ==> spec_command(args, m, index, now) == Some(spec_expire(args, m, index, now)),
        named(args, "flushdb") ==> spec_command(args, m, index, now) == Some(spec_flushdb(args, m, index)),
        named(args, "ttl") ==> spec_command(args, m, index, now) == Some((spec_ttl(args, m, index, 1000, now), m)),
        named(args, "pttl") ==> spec_command(args, m, index, now) == Some((spec_ttl(args, m, index, 1, now), m)),
        named(args, "persist") ==> spec_command(args, m, index, now) == Some(spec_persist(args, m, index)),
        named(args, "type") ==> spec_command(args, m, index, now) == Some((spec_dbtype(args, m, index, now), m)),
        named(args, "flushall") ==> spec_command(args, m, index, now) == Some(spec_flushall(args, m)),
        named(args, "append") ==> spec_command(args, m, index, now) == Some(spec_append(args, m, index, now)),
        named(args, "getrange") ==> spec_command(args, m, index, now) == Some((spec_getrange(args, m, index, now), m)),
        named(args, "setrange") ==> spec_command(args, m, index, now) == Some(spec_setrange(args, m, index, now)),
        named(args, "setbit") ==> spec_command(args, m, index, now) == Some(spec_setbit(args, m, index, now)),
        named(args, "strlen") ==> spec_command(args, m, index, now) == Some((spec_strlen(args, m, index, now), m)),
        named(args, "incr") ==> spec_command(args, m, index, now) == Some(spec_incr_by_one(args, m, index, 1, now)),
        named(args, "decr") ==> spec_command(args, m, index, now) == Some(spec_incr_by_one(args, m, index, -1i64, now)),
        named(args, "incrby") ==> spec_command(args, m, index, now) == Some(spec_incrby(args, m, index, false, now)),
        named(args, "decrby") ==> spec_command(args, m, index, now) == Some(spec_incrby(args, m, index, true, now)),
        named(args, "lpush") ==> spec_command(args, m, index, now) == Some(spec_generic_push(args, m, index, false, true, now)),
        named(args, "rpush") ==> spec_command(args, m, index, now) == Some(spec_generic_push(args, m, index, true, true, now)),
        named(args, "lpushx") ==> spec_command(args, m, index, now) == Some(spec_generic_push(args, m, index, false, false, now)),
        named(args, "rpushx") ==> spec_command(args, m, index, now) == Some(spec_generic_push(args, m, index, true, false, now)),
        named(args, "lpop") ==> spec_command(args, m, index, now) == Some(spec_generic_pop(args, m, index, false, now)),
        named(args, "rpop") ==> spec_command(args, m, index, now) == Some(spec_generic_pop(args, m, index, true, now)),
        named(args, "rpoplpush") ==> spec_command(args, m, index, now) == Some(spec_rpoplpush(args, m, index, now)),
        args.len() > 0 && !(named(args, "set") || named(args, "setnx") || named(args, "setex") || named(args, "psetex") || named(args, "get") || named(args, "mget") || named(args, "exists") || named(args, "del") || named(args, "debug") || named(args, "dbsize") || named(args, "dump") || named(args, "expire") || named(args, "flushdb") || named(args, "ttl") || named(args, "pttl") || named(args, "persist") || named(args, "type") || named(args, "flushall") || named(args, "append") || named(args, "getrange") || named(args, "setrange") || named(args, "setbit") || named(args, "strlen") || named(args, "incr") || named(args, "decr") || named(args, "incrby") || named(args, "decrby") || named(args, "lpush") || named(args, "rpush") || named(args, "lpushx") || named(args, "rpushx") || named(args, "lpop") || named(args, "rpop") || named(args, "rpoplpush")) ==> spec_command(args, m, index, now) == Some((unknown_command(args), m)),
        args.len() == 0 ==> spec_command(args, m, index, now) is None,
{
    reveal(spec_command);
    reveal_strlit("set");
    reveal_strlit("setnx");
    reveal_strlit("setex");
    reveal_strlit("psetex");
    reveal_strlit("get");
    reveal_strlit("mget");
    reveal_strlit("exists");
    reveal_strlit("del");
    reveal_strlit("debug");
    reveal_strlit("dbsize");
    reveal_strlit("dump");
    reveal_strlit("expire");
    reveal_strlit("flushdb");
    reveal_strlit("ttl");
    reveal_strlit("pttl");
    reveal_strlit("persist");
    reveal_strlit("type");
    reveal_strlit("flushall");
    reveal_strlit("append");
    reveal_strlit("getrange");
    reveal_strlit("setrange");
    reveal_strlit("setbit");
    reveal_strlit("strlen");
    reveal_strlit("incr");
    reveal_strlit("decr");
    reveal_strlit("incrby");
    reveal_strlit("decrby");
    reveal_strlit("lpush");
    reveal_strlit("rpush");
    reveal_strlit("lpushx");
    reveal_strlit("rpushx");
    reveal_strlit("lpop");
    reveal_strlit("rpop");
    reveal_strlit("rpoplpush");
    lemma_named_text(args, "set");
    lemma_named_text(args, "setnx");
    lemma_named_text(args, "setex");
    lemma_named_text(args, "psetex");
    lemma_named_text(args, "get");
    lemma_named_text(args, "mget");
    lemma_named_text(args, "exists");
    lemma_named_text(args, "del");
    lemma_named_text(args, "debug");
    lemma_named_text(args, "dbsize");
    lemma_named_text(args, "dump");
    lemma_named_text(args, "expire");
    lemma_named_text(args, "flushdb");
    lemma_named_text(args, "ttl");
    lemma_named_text(args, "pttl");
    lemma_named_text(args, "persist");
    lemma_named_text(args, "type");
    lemma_named_text(args, "flushall");
    lemma_named_text(args, "append");
    lemma_named_text(args, "getrange");
    lemma_named_text(args, "setrange");
    lemma_named_text(args, "setbit");
    lemma_named_text(args, "strlen");
    lemma_named_text(args, "incr");
    lemma_named_text(args, "decr");
    lemma_named_text(args, "incrby");
    lemma_named_text(args, "decrby");
    lemma_named_text(args, "lpush");
    lemma_named_text(args, "rpush");
    lemma_named_text(args, "lpushx");
    lemma_named_text(args, "rpushx");
    lemma_named_text(args, "lpop");
    lemma_named_text(args, "rpop");
    lemma_named_text(args, "rpoplpush");
    if named(args, "setex") {
        assert("setex"@[3] != "setnx"@[3]);
    }
    if named(args, "get") {
        assert("get"@[0] != "set"@[0]);
    }
    if named(args, "exists") {
        assert("exists"@[0] != "psetex"@[0]);
    }
    if named(args, "del") {
        assert("del"@[0] != "set"@[0]);
        assert("del"@[0] != "get"@[0]);
    }
    if named(args, "debug") {
        assert("debug"@[0] != "setnx"@[0]);
        assert("debug"@[0] != "setex"@[0]);
    }
    if named(args, "dbsize") {
        assert("dbsize"@[0] != "psetex"@[0]);
        assert("dbsize"@[0] != "exists"@[0]);
    }
    if named(args, "dump") {
        assert("dump"@[0] != "mget"@[0]);
    }
    if named(args, "expire") {
        assert("expire"@[0] != "psetex"@[0]);
        assert("expire"@[2] != "exists"@[2]);
        assert("expire"@[0] != "dbsize"@[0]);
    }
    if named(args, "ttl") {
        assert("ttl"@[0] != "set"@[0]);
        assert("ttl"@[0] != "get"@[0]);
        assert("ttl"@[0] != "del"@[0]);
    }
    if named(args, "pttl") {
        assert("pttl"@[0] != "mget"@[0]);
        assert("pttl"@[0] != "dump"@[0]);
    }
    if named(args, "persist") {
        assert("persist"@[0] != "flushdb"@[0]);
    }
    if named(args, "type") {
        assert("type"@[0] != "mget"@[0]);
        assert("type"@[0] != "dump"@[0]);
        assert("type"@[0] != "pttl"@[0]);
    }
    if named(args, "append") {
        assert("append"@[0] != "psetex"@[0]);
        assert("append"@[0] != "exists"@[0]);
        assert("append"@[0] != "dbsize"@[0]);
        assert("append"@[0] != "expire"@[0]);
    }
    if named(args, "getrange") {
        assert("getrange"@[0] != "flushall"@[0]);
    }
    if named(args, "setrange") {
        assert("setrange"@[0] != "flushall"@[0]);
        assert("setrange"@[0] != "getrange"@[0]);
    }
    if named(args, "setbit") {
        assert("setbit"@[0] != "psetex"@[0]);
        assert("setbit"@[0] != "exists"@[0]);
        assert("setbit"@[0] != "dbsize"@[0]);
        assert("setbit"@[0] != "expire"@[0]);
        assert("setbit"@[0] != "append"@[0]);
    }
    if named(args, "strlen") {
        assert("strlen"@[0] != "psetex"@[0]);
        assert("strlen"@[0] != "exists"@[0]);
        assert("strlen"@[0] != "dbsize"@[0]);
        assert("strlen"@[0] != "expire"@[0]);
        assert("strlen"@[0] != "append"@[0]);
        assert("strlen"@[1] != "setbit"@[1]);
    }
    if named(args, "incr") {
        assert("incr"@[0] != "mget"@[0]);
        assert("incr"@[0] != "dump"@[0]);
        assert("incr"@[0] != "pttl"@[0]);
        assert("incr"@[0] != "type"@[0]);
    }
    if named(args, "decr") {
        assert("decr"@[0] != "mget"@[0]);
        assert("decr"@[1] != "dump"@[1]);
        assert("decr"@[0] != "pttl"@[0]);
        assert("decr"@[0] != "type"@[0]);
        assert("decr"@[0] != "incr"@[0]);
    }
    if named(args, "incrby") {
        assert("incrby"@[0] != "psetex"@[0]);
        assert("incrby"@[0] != "exists"@[0]);
        assert("incrby"@[0] != "dbsize"@[0]);
        assert("incrby"@[0] != "expire"@[0]);
        assert("incrby"@[0] != "append"@[0]);
        assert("incrby"@[0] != "setbit"@[0]);
        assert("incrby"@[0] != "strlen"@[0]);
    }
    if named(args, "decrby") {
        assert("decrby"@[0] != "psetex"@[0]);
        assert("decrby"@[0] != "exists"@[0]);
        assert("decrby"@[1] != "dbsize"@[1]);
        assert("decrby"@[0] != "expire"@[0]);
        assert("decrby"@[0] != "append"@[0]);
        assert("decrby"@[0] != "setbit"@[0]);
        assert("decrby"@[0] != "strlen"@[0]);
        assert("decrby"@[0] != "incrby"@[0]);
    }
    if named(args, "lpush") {
        assert("lpush"@[0] != "setnx"@[0]);
        assert("lpush"@[0] != "setex"@[0]);
        assert("lpush"@[0] != "debug"@[0]);
    }
    if named(args, "rpush") {
        assert("rpush"@[0] != "setnx"@[0]);
        assert("rpush"@[0] != "setex"@[0]);
        assert("rpush"@[0] != "debug"@[0]);
        assert("rpush"@[0] != "lpush"@[0]);
    }
    if named(args, "lpushx") {
        assert("lpushx"@[0] != "psetex"@[0]);
        assert("lpushx"@[0] != "exists"@[0]);
        assert("lpushx"@[0] != "dbsize"@[0]);
        assert("lpushx"@[0] != "expire"@[0]);
        assert("lpushx"@[0] != "append"@[0]);
        assert("lpushx"@[0] != "setbit"@[0]);
        assert("lpushx"@[0] != "strlen"@[0]);
        assert("lpushx"@[0] != "incrby"@[0]);
        assert("lpushx"@[0] != "decrby"@[0]);
    }
    if named(args, "rpushx") {
        assert("rpushx"@[0] != "psetex"@[0]);
        assert("rpushx"@[0] != "exists"@[0]);
        assert("rpushx"@[0] != "dbsize"@[0]);
        assert("rpushx"@[0] != "expire"@[0]);
        assert("rpushx"@[0] != "append"@[0]);
        assert("rpushx"@[0] != "setbit"@[0]);
        assert("rpushx"@[0] != "strlen"@[0]);
        assert("rpushx"@[0] != "incrby"@[0]);
        assert("rpushx"@[0] != "decrby"@[0]);
        assert("rpushx"@[0] != "lpushx"@[0]);
    }
    if named(args, "lpop") {
        assert("lpop"@[0] != "mget"@[0]);
        assert("lpop"@[0] != "dump"@[0]);
        assert("lpop"@[0] != "pttl"@[0]);
        assert("lpop"@[0] != "type"@[0]);
        assert("lpop"@[0] != "incr"@[0]);
        assert("lpop"@[0] != "decr"@[0]);
    }
    if named(args, "rpop") {
        assert("rpop"@[0] != "mget"@[0]);
        assert("rpop"@[0] != "dump"@[0]);
        assert("rpop"@[0] != "pttl"@[0]);
        assert("rpop"@[0] != "type"@[0]);
        assert("rpop"@[0] != "incr"@[0]);
        assert("rpop"@[0] != "decr"@[0]);
        assert("rpop"@[0] != "lpop"@[0]);
    }
}

/// `RPUSHX key v...` on a key that holds no live value answers 0 and leaves the key absent;
/// on a live list it pushes every value at the tail, in order, and answers the new length.
pub proof fn law_rpushx_command(args: Seq<Seq<u8>>, m: DbModel, index: int, now: int)
    requires
        named(args, "rpushx"),
        args.len() >= 3,
        has_database(m, index),
        db_current(m, index, args[1], now) is List || db_current(m, index, args[1], now) is Nil,
        list_elements(db_current(m, index, args[1], now)).len() + args.len() <= i64::MAX,
        list_elements(db_current(m, index, args[1], now)).len() + args.len() <= usize::MAX,
    ensures
        !is_live(m, index, args[1], now) ==> spec_command(args, m, index, now) == Some(
            (ResponseModel::Integer(0), db_remove(m, index, args[1])),
        ) && !db_remove(m, index, args[1]).data[index].contains_key(args[1]),
        is_live(m, index, args[1], now) ==> (spec_command(args, m, index, now) matches Some((resp, m2))
            && resp == ResponseModel::Integer((list_elements(m.data[index][args[1]]).len() + args.len() - 2) as i64)
            && db_lookup(m2, index, args[1], now) == Some(ValueModel::List(
                list_elements(m.data[index][args[1]]) + args.subrange(2, args.len() as int),
            ))),
{
    assert(spec_command(args, m, index, now) == Some(spec_generic_push(args, m, index, true, false, now))) by {
        law_dispatch(args, m, index, now);
    }
    if is_live(m, index, args[1], now) {
        let other = args[1].push(0u8);
        assert(other.len() != args[1].len());
        law_push_all_values(args, m, index, true, false, now, index, other, now);
    } else {
        law_pushx_needs_live_key(args, m, index, true, now);
    }
}

/// `LPUSH key v1 ... vn` and `RPUSH key v1 ... vn` push every value, in argument order: on a
/// key with no live value the list becomes `vn ... v1` (`LPUSH`) or `v1 ... vn` (`RPUSH`),
/// and the answer is `n`.
pub proof fn law_push_commands_new_key(args: Seq<Seq<u8>>, m: DbModel, index: int, now: int)
    requires
        named(args, "lpush") || named(args, "rpush"),
        args.len() >= 3,
        args.len() <= i64::MAX,
        args.len() <= usize::MAX,
        has_database(m, index),
        !is_live(m, index, args[1], now),
    ensures
        spec_command(args, m, index, now) matches Some((resp, m2))
            && resp == ResponseModel::Integer((args.len() - 2) as i64)
            && db_lookup(m2, index, args[1], now) == Some(ValueModel::List(
                if named(args, "lpush") {
                    args.subrange(2, args.len() as int).reverse()
                } else {
                    args.subrange(2, args.len() as int)
                },
            )),
{
    let right = !named(args, "lpush");
    assert(spec_command(args, m, index, now) == Some(spec_generic_push(args, m, index, right, true, now))) by {
        law_dispatch(args, m, index, now);
    }
    let vals = args.subrange(2, args.len() as int);
    assert(Seq::<Seq<u8>>::empty() + vals =~= vals);
    assert(vals.reverse() + Seq::<Seq<u8>>::empty() =~= vals.reverse());
    let other = args[1].push(0u8);
    assert(other.len() != args[1].len());
    law_push_all_values(args, m, index, right, true, now, index, other, now);
}

/// `LPOP key` answers the first element of a live, non-empty list and leaves the rest;
/// `RPOP key` does the same with the last element. A key with no live value answers nil.
pub proof fn law_pop_takes_an_end(args: Seq<Seq<u8>>, m: DbModel, index: int, right: bool, now: int)
    requires
        args.len() == 2,
        has_database(m, index),
    ensures
        !is_live(m, index, args[1], now) ==> spec_generic_pop(args, m, index, right, now).0 == ResponseModel::Nil,
        is_live(m, index, args[1], now) && m.data[index][args[1]] is List && list_elements(m.data[index][args[1]]).len() > 0 ==> {
            let l = list_elements(m.data[index][args[1]]);
            let (reply, m2) = spec_generic_pop(args, m, index, right, now);
            &&& reply == ResponseModel::Data(if right { l[l.len() - 1] } else { l[0] })
            &&& db_lookup(m2, index, args[1], now) == Some(ValueModel::List(
                if right { l.subrange(0, l.len() - 1) } else { l.subrange(1, l.len() as int) },
            ))
        },
{
    if is_live(m, index, args[1], now) {
        let v = m.data[index][args[1]];
        if let ValueModel::List(l) = v {
            if l.len() > 0 {
                let nl = if right { l.drop_last() } else { l.drop_first() };
                law_store_then_lookup(m, index, args[1], now, ValueModel::List(nl));
                assert(l.drop_last() =~= l.subrange(0, l.len() - 1));
                assert(l.drop_first() =~= l.subrange(1, l.len() as int));
            }
        }
    }
}

/// `RPOPLPUSH source destination` on a live, non-empty source list and a destination that
/// is a list or holds no live value: answers the source's last element, which leaves the
/// source and becomes the first element of the destination.
pub proof fn law_rpoplpush_moves_tail(m: DbModel, index: int, source: Seq<u8>, destination: Seq<u8>, now: int)
    requires
        has_database(m, index),
        source != destination,
        db_lookup(m, index, source, now) matches Some(ValueModel::List(l)) && l.len() > 0,
        db_current(m, index, destination, now) is List || !is_live(m, index, destination, now),
    ensures
        ({
            let l = list_elements(m.data[index][source]);
            let d = list_elements(db_current(m, index, destination, now));
            let (reply, m2) = spec_generic_rpoplpush(m, index, source, destination, now);
            &&& reply == ResponseModel::Data(l[l.len() - 1])
            &&& db_lookup(m2, index, source, now) == Some(ValueModel::List(l.subrange(0, l.len() - 1)))
            &&& db_lookup(m2, index, destination, now) == Some(ValueModel::List(seq![l[l.len() - 1]] + d))
        }),
{
    let l = list_elements(m.data[index][source]);
    let d = list_elements(db_current(m, index, destination, now));
    let el = l.last();
    let m1 = db_store(m, index, source, now, ValueModel::List(l.drop_last()));
    law_store_then_lookup(m, index, source, now, ValueModel::List(l.drop_last()));
    law_store_keeps_other_keys(m, index, source, now, ValueModel::List(l.drop_last()), index, destination, now);
    assert(has_database(m1, index));
    assert(db_current(m1, index, destination, now) == db_current(m, index, destination, now));
    let d2 = seq![el] + d;
    assert(op_push(db_current(m1, index, destination, now), el, false).1 == ValueModel::List(d2)) by {
        if !is_live(m, index, destination, now) {
            assert(seq![el] + Seq::<Seq<u8>>::empty() =~= seq![el]);
        }
    }
    law_store_then_lookup(m1, index, destination, now, ValueModel::List(d2));
    law_store_keeps_other_keys(m1, index, destination, now, ValueModel::List(d2), index, source, now);
    assert(l.drop_last() =~= l.subrange(0, l.len() - 1));
}

} // verus!
