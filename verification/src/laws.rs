use vstd::prelude::*;

use crate::bytes::ascii_lowercase;
use crate::command::{del_keys, set_options, spec_command, spec_del, spec_exists, spec_get, spec_set};
use crate::database::{db_lookup, db_remove, db_set_expiration, db_store, DbModel};
use crate::decimal::{lemma_parse_i64_roundtrip, signed_decimal_bytes, spec_parse_i64};
use crate::parser::{
    encode_command, lemma_parse_encoded_command, spec_parse, Parsed, MAX_ARGUMENTS, MAX_HEADER_VALUE,
};
use crate::response::ResponseModel;
use crate::session::{outside_command, spec_client_step, window_args, ActionModel};
use crate::logger::{
    level_in_force, level_rank, lines_written, sets_level, written_line, Level, LogRequest,
};
use crate::list::{
    count_occurrences, drop_matches, list_after, lrem_count, lrem_result, push_count, range_window,
    taken_count, ListOp,
};
use crate::value::{
    add_members, bit_mask, get_bit, lemma_add_members, op_getrange, op_incr, op_pop, op_push,
    op_setrange, set_bit, ValueModel,
};

verus! {

/// Whether database `index` exists in the keyspace `m`.
pub open spec fn has_database(m: DbModel, index: int) -> bool {
    0 <= index < m.data.len() && index < m.expirations.len()
}

/// A command that a client sends in wire form, whatever follows it in the buffer, is run as
/// exactly that command: the connection takes exactly its bytes; an outside command is
/// handed out with exactly its arguments, and for any other the reply and the keyspace
/// afterwards are those of the command itself.
pub proof fn law_wire_command_runs(
    args: Seq<Seq<u8>>,
    rest: Seq<u8>,
    received: nat,
    m: DbModel,
    index: int,
    now: int,
)
    requires
        args.len() <= MAX_ARGUMENTS,
        forall|i: int| 0 <= i < args.len() ==> (#[trigger] args[i]).len() <= MAX_HEADER_VALUE,
        received > 0,
    ensures
        ({
            let (a, m2, n) = spec_client_step(received, encode_command(args) + rest, m, index, now);
            &&& n == encode_command(args).len()
            &&& if outside_command(args) {
                a == ActionModel::Forward(args) && m2 == m
            } else {
                match spec_command(args, m, index, now) {
                    None => a == ActionModel::Read && m2 == m,
                    Some((reply, m3)) => a == ActionModel::Reply(reply) && m2 == m3,
                }
            }
        }),
{
    let s = encode_command(args) + rest;
    lemma_parse_encoded_command(args, rest);
    if let Parsed::Done(ws, k) = spec_parse(s) {
        assert(window_args(s, ws) =~= args);
    }
}

/// What is stored under a key reads back at once.
pub proof fn law_store_then_lookup(m: DbModel, index: int, key: Seq<u8>, now: int, v: ValueModel)
    requires
        has_database(m, index),
    ensures
        db_lookup(db_store(m, index, key, now, v), index, key, now) == Some(v),
{
}

/// Storing under one key leaves every other key, in every database and at every moment,
/// as it was.
pub proof fn law_store_keeps_other_keys(
    m: DbModel,
    index: int,
    key: Seq<u8>,
    now: int,
    v: ValueModel,
    other_index: int,
    other: Seq<u8>,
    t: int,
)
    requires
        has_database(m, index),
        has_database(m, other_index),
        other_index != index || other != key,
    ensures
        db_lookup(db_store(m, index, key, now, v), other_index, other, t) == db_lookup(m, other_index, other, t),
{
}

/// A removed key reads as absent, at every moment.
pub proof fn law_remove_then_lookup(m: DbModel, index: int, key: Seq<u8>, t: int)
    requires
        has_database(m, index),
    ensures
        db_lookup(db_remove(m, index, key), index, key, t) is None,
{
}

/// A key that expires at `e` reads as it did before the expiration was set until `e`, and as
/// absent from `e` on.
pub proof fn law_expiration(m: DbModel, index: int, key: Seq<u8>, e: i64, t: int)
    requires
        has_database(m, index),
    ensures
        db_lookup(db_set_expiration(m, index, key, e), index, key, t) == (if t >= e || !m.data[index].contains_key(key) {
            None
        } else {
            Some(m.data[index][key])
        }),
{
}

/// `GET key` right after `SET key value` answers the value.
pub proof fn law_get_after_set(set_args: Seq<Seq<u8>>, get_args: Seq<Seq<u8>>, m: DbModel, index: int, now: int)
    requires
        has_database(m, index),
        set_args.len() == 3,
        get_args.len() == 2,
        get_args[1] == set_args[1],
    ensures
        spec_get(get_args, spec_set(set_args, m, index, now).1, index, now) == ResponseModel::Data(set_args[2]),
{
}

/// `GET key` after `SET key value PX ms` answers the value before the moment `ms`
/// (milliseconds since the epoch) and nil from then on: the number is the key's
/// expiration moment.
pub proof fn law_get_after_set_px(
    set_args: Seq<Seq<u8>>,
    get_args: Seq<Seq<u8>>,
    m: DbModel,
    index: int,
    now: int,
    ms: i64,
    t: int,
)
    requires
        has_database(m, index),
        set_args.len() == 5,
        ascii_lowercase(set_args[3]) == seq![112u8, 120u8],
        spec_parse_i64(set_args[4]) == Some(ms),
        get_args.len() == 2,
        get_args[1] == set_args[1],
    ensures
        spec_get(get_args, spec_set(set_args, m, index, now).1, index, t) == (if t < ms {
            ResponseModel::Data(set_args[2])
        } else {
            ResponseModel::Nil
        }),
{
    assert(set_options(set_args, 5, false, false, Some(ms)) == Ok::<(bool, bool, Option<i64>), Seq<char>>((false, false, Some(ms))));
    assert(set_options(set_args, 3, false, false, None) == Ok::<(bool, bool, Option<i64>), Seq<char>>((false, false, Some(ms))));
}

/// On a list, a pop from the side of a push takes back the pushed element and leaves the
/// list as it was before the push.
pub proof fn law_pop_undoes_push(l: Seq<Seq<u8>>, el: Seq<u8>, right: bool)
    ensures
        op_pop(op_push(ValueModel::List(l), el, right).1, right) == (
            Ok::<Option<Seq<u8>>, Seq<char>>(Some(el)),
            ValueModel::List(l),
        ),
{
    if right {
        assert(l.push(el).drop_last() =~= l);
    } else {
        assert((seq![el] + l).drop_first() =~= l);
    }
}

/// Adding `d` and then `-d` to a number gives back the number, written in decimal.
pub proof fn law_incr_then_decr(v: ValueModel, d: i64)
    requires
        d > i64::MIN,
        op_incr(v, d).0 is Ok,
    ensures
        ({
            let x = op_incr(v, d).0->Ok_0;
            op_incr(op_incr(v, d).1, (-d) as i64) == (
                Ok::<i64, Seq<char>>((x - d) as i64),
                ValueModel::Str(signed_decimal_bytes(x - d)),
            )
        }),
{
    let x = op_incr(v, d).0->Ok_0;
    lemma_parse_i64_roundtrip(x);
}

/// `GETRANGE` over the bytes that `SETRANGE` just wrote answers exactly those bytes.
pub proof fn law_getrange_after_setrange(s: Seq<u8>, offset: nat, data: Seq<u8>)
    requires
        data.len() > 0,
        offset + data.len() <= i64::MAX,
    ensures
        op_getrange(
            op_setrange(ValueModel::Str(s), offset, data).1,
            offset as i64,
            (offset + data.len() - 1) as i64,
        ) == Ok::<Seq<u8>, Seq<char>>(data),
{
    if let ValueModel::Str(w) = op_setrange(ValueModel::Str(s), offset, data).1 {
        assert(w.subrange(offset as int, (offset + data.len()) as int) =~= data);
    }
}

/// The bit that `SETBIT` just set reads back as it was set.
pub proof fn law_getbit_after_setbit(s: Seq<u8>, offset: nat, on: bool)
    ensures
        get_bit(set_bit(s, offset, on), offset) == on,
{
    let k = (offset % 8) as u8;
    assert(k < 8);
    let mask = bit_mask(offset);
    assert(mask == 128u8 >> k);
    assert(forall|b: u8, k: u8| k < 8 ==> #[trigger] ((b | (128u8 >> k)) & (128u8 >> k)) != 0u8) by (bit_vector);
    assert(forall|b: u8, k: u8| k < 8 ==> #[trigger] ((b & !(128u8 >> k)) & (128u8 >> k)) == 0u8) by (bit_vector);
}

proof fn lemma_count_prepend(a: Seq<u8>, t: Seq<Seq<u8>>, v: Seq<u8>)
    ensures
        count_occurrences(seq![a] + t, v) == (if a == v { 1nat } else { 0nat }) + count_occurrences(t, v),
{
    assert((seq![a] + t).drop_first() =~= t);
}

proof fn lemma_drop_matches_counts(s: Seq<Seq<u8>>, v: Seq<u8>, keep: nat, remove: nat)
    requires
        keep + remove <= count_occurrences(s, v),
    ensures
        count_occurrences(drop_matches(s, v, keep, remove), v) == count_occurrences(s, v) - remove,
        drop_matches(s, v, keep, remove).len() == s.len() - remove,
    decreases s.len(),
{
    if s.len() > 0 {
        let t = s.drop_first();
        if s[0] == v && keep > 0 {
            lemma_drop_matches_counts(t, v, (keep - 1) as nat, remove);
            lemma_count_prepend(s[0], drop_matches(t, v, (keep - 1) as nat, remove), v);
        } else if s[0] == v && remove > 0 {
            lemma_drop_matches_counts(t, v, keep, (remove - 1) as nat);
        } else {
            lemma_drop_matches_counts(t, v, keep, remove);
            lemma_count_prepend(s[0], drop_matches(t, v, keep, remove), v);
        }
    }
}

/// `LREM` takes out exactly `lrem_count` elements equal to the value (all of them for a
/// limit of 0) and no other element.
pub proof fn law_lrem_removes(s: Seq<Seq<u8>>, left: bool, limit: nat, v: Seq<u8>)
    ensures
        ({
            let c = count_occurrences(s, v);
            let k = lrem_count(c, limit);
            &&& count_occurrences(lrem_result(s, left, limit, v), v) == c - k
            &&& lrem_result(s, left, limit, v).len() == s.len() - k
        }),
{
    let c = count_occurrences(s, v);
    let k = lrem_count(c, limit);
    if left {
        lemma_drop_matches_counts(s, v, 0, k);
    } else {
        lemma_drop_matches_counts(s, v, (c - k) as nat, k);
    }
}

/// After `PFADD`, the members are the old ones together with the added elements, each once,
/// so `PFCOUNT` answers the number of distinct elements ever added.
pub proof fn law_pfadd_counts_distinct(m: Seq<Seq<u8>>, d: Seq<Seq<u8>>)
    requires
        m.no_duplicates(),
    ensures
        add_members(m, d).to_set() == m.to_set() + d.to_set(),
        add_members(m, d).len() == (m.to_set() + d.to_set()).len(),
{
    lemma_add_members(m, d);
    add_members(m, d).unique_seq_to_set();
}

proof fn lemma_del_keys_keeps_absent(args: Seq<Seq<u8>>, i: int, m: DbModel, index: int, now: int, key: Seq<u8>)
    requires
        has_database(m, index),
        !m.data[index].contains_key(key),
    ensures
        !del_keys(args, i, m, index, now).1.data[index].contains_key(key),
    decreases args.len() - i,
{
    if 0 <= i < args.len() {
        lemma_del_keys_keeps_absent(args, i + 1, db_remove(m, index, args[i]), index, now, key);
    }
}

proof fn lemma_del_keys_removes(args: Seq<Seq<u8>>, i: int, j: int, m: DbModel, index: int, now: int)
    requires
        has_database(m, index),
        0 <= i <= j < args.len(),
    ensures
        !del_keys(args, i, m, index, now).1.data[index].contains_key(args[j]),
    decreases args.len() - i,
{
    let m1 = db_remove(m, index, args[i]);
    if i == j {
        lemma_del_keys_keeps_absent(args, i + 1, m1, index, now, args[j]);
    } else {
        lemma_del_keys_removes(args, i + 1, j, m1, index, now);
    }
}

/// `EXISTS key` after a `DEL` that names the key answers 0.
pub proof fn law_exists_after_del(del_args: Seq<Seq<u8>>, exists_args: Seq<Seq<u8>>, j: int, m: DbModel, index: int, now: int)
    requires
        has_database(m, index),
        1 <= j < del_args.len(),
        exists_args.len() == 2,
        exists_args[1] == del_args[j],
    ensures
        spec_exists(exists_args, spec_del(del_args, m, index, now).1, index, now) == ResponseModel::Integer(0),
{
    lemma_del_keys_removes(del_args, 1, j, m, index, now);
}

/// After any history of pushes and pops, a list holds as many elements as it started with,
/// plus one for each push, minus one for each pop that took an element.
pub proof fn law_list_length(s: Seq<Seq<u8>>, ops: Seq<ListOp>)
    ensures
        list_after(s, ops).len() == s.len() + push_count(ops) - taken_count(s, ops),
    decreases ops.len(),
{
    if ops.len() > 0 {
        law_list_length(s, ops.drop_last());
    }
}

/// `LRANGE 0 -1` selects the whole list, so it has `LLEN` elements.
pub proof fn law_lrange_all(len: nat)
    ensures
        range_window(0, -1, len) == (if len == 0 { (0int, 0int) } else { (0int, len as int) }),
{
}

/// The level that the requests before position `k` leave: that of the last of them that
/// is a level alone, or `initial` when none is.
pub open spec fn last_level_set(initial: Level, reqs: Seq<LogRequest>, k: int) -> Level
    decreases k,
{
    if k <= 0 {
        initial
    } else if sets_level(reqs[k - 1]) {
        reqs[k - 1].level->0
    } else {
        last_level_set(initial, reqs, k - 1)
    }
}

/// Over a stream of requests to the logging thread: the level in force at each point is the
/// one that the last level-alone request set (or the first level); a request with a level
/// and a message adds exactly its message and a newline to what is written when its level is
/// at least the level in force, and nothing otherwise; any other request writes nothing.
pub proof fn law_log_stream(initial: Level, reqs: Seq<LogRequest>, k: int)
    requires
        0 <= k < reqs.len(),
    ensures
        level_in_force(initial, reqs.take(k)) == last_level_set(initial, reqs, k),
        lines_written(initial, reqs.take(k + 1)) == (match (reqs[k].level, reqs[k].message) {
            (Some(l), Some(m)) => if level_rank(l) >= level_rank(last_level_set(initial, reqs, k)) {
                lines_written(initial, reqs.take(k)).push(m + "\n"@)
            } else {
                lines_written(initial, reqs.take(k))
            },
            _ => lines_written(initial, reqs.take(k)),
        }),
    decreases k,
{
    lemma_level_in_force(initial, reqs, k);
    assert(reqs.take(k + 1).drop_last() =~= reqs.take(k));
    assert(reqs.take(k + 1).last() == reqs[k]);
}

proof fn lemma_level_in_force(initial: Level, reqs: Seq<LogRequest>, k: int)
    requires
        0 <= k <= reqs.len(),
    ensures
        level_in_force(initial, reqs.take(k)) == last_level_set(initial, reqs, k),
    decreases k,
{
    if k > 0 {
        lemma_level_in_force(initial, reqs, k - 1);
        assert(reqs.take(k).drop_last() =~= reqs.take(k - 1));
        assert(reqs.take(k).last() == reqs[k - 1]);
    } else {
        assert(reqs.take(0).len() == 0);
    }
}

} // verus!
