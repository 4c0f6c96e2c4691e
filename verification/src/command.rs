use vstd::prelude::*;
use vstd::string::*;
use vstd::utf8::{decode_utf8, encode_utf8_decode_utf8, valid_utf8};

use crate::bytes::{ascii_lowercase, eq_lowercase};
use crate::database::{
    db_current, db_lookup, db_put, db_remove, db_remove_expiration, db_set_expiration, db_store,
    db_take, is_live, Database, DbModel,
};
use crate::decimal::spec_parse_i64;
use crate::errors::OperationError;
use crate::parser::ParsedCommand;
use crate::response::{Response, ResponseError, ResponseModel, flat_response_is, response_is};
use crate::value::{
    op_append, op_get, op_getrange, op_incr, op_pop, op_push, op_setbit, op_setrange, op_strlen,
    spec_dump, model_well_formed, Value, ValueModel,
};

verus! {

/// The most bytes a string may grow to (512 MiB).
pub const MAX_STRING_LENGTH: usize = 536870912;

// ---------------------------------------------------------------------------------------
// Replies shared by the commands
// ---------------------------------------------------------------------------------------

/// The name a command was called by, as text (empty when it is not UTF-8).
pub open spec fn command_name(args: Seq<Seq<u8>>) -> Seq<char> {
    if args.len() > 0 && valid_utf8(args[0]) {
        decode_utf8(args[0])
    } else {
        Seq::empty()
    }
}

/// The reply to a command called with the wrong number of arguments.
pub open spec fn wrong_arity(args: Seq<Seq<u8>>) -> ResponseModel {
    ResponseModel::Error(
        "ERR wrong number of arguments for '"@ + command_name(args) + "' command"@,
    )
}

/// The reply `OK`.
pub open spec fn ok() -> ResponseModel {
    ResponseModel::Status("OK"@)
}

/// An error reply with the given message.
pub open spec fn error(msg: Seq<char>) -> ResponseModel {
    ResponseModel::Error(msg)
}

/// An integer reply of 1 for `true`, 0 for `false`.
pub open spec fn flag(b: bool) -> ResponseModel {
    ResponseModel::Integer(if b { 1 } else { 0 })
}

fn error_response(msg: &str) -> (r: Response)
    ensures
        response_is(r, ResponseModel::Error(msg@)),
{
    Response::Error(String::from_str(msg))
}

fn status_response(msg: &str) -> (r: Response)
    ensures
        response_is(r, ResponseModel::Status(msg@)),
{
    Response::Status(String::from_str(msg))
}

fn wrong_arguments(parser: &ParsedCommand) -> (r: Response)
    requires
        parser.well_formed(),
    ensures
        response_is(r, wrong_arity(parser.args())),
{
    let mut m = String::from_str("ERR wrong number of arguments for '");
    if parser.argv.len() > 0 {
        match parser.get_str(0) {
            Ok(name) => {
                proof {
                    encode_utf8_decode_utf8(name@);
                    assert(parser.args()[0] == parser.arg(0));
                }
                m.append(name);
            },
            Err(_) => {
                assert(parser.args()[0] == parser.arg(0));
            },
        }
    }
    m.append("' command");
    proof {
        if !(parser.argv@.len() > 0 && valid_utf8(parser.args()[0])) {
            assert(command_name(parser.args()) == Seq::<char>::empty());
        }
    }
    Response::Error(m)
}

/// Argument `i` of a well-formed command.
fn argument(parser: &ParsedCommand, i: usize) -> (r: Vec<u8>)
    requires
        parser.well_formed(),
        i < parser.argv@.len(),
    ensures
        r@ == parser.args()[i as int],
{
    assert(parser.has_arg(i as int));
    match parser.get_vec(i) {
        Ok(v) => v,
        Err(_) => Vec::new(),
    }
}

/// Argument `i` of a well-formed command, read as an `i64`.
fn integer_argument(parser: &ParsedCommand, i: usize) -> (r: Option<i64>)
    requires
        parser.well_formed(),
        i < parser.argv@.len(),
    ensures
        r == spec_parse_i64(parser.args()[i as int]),
{
    assert(parser.has_arg(i as int));
    match parser.get_i64(i) {
        Ok(v) => Some(v),
        Err(_) => None,
    }
}

/// Whether argument `i` of a well-formed command, in ASCII lower case, is `word`.
fn argument_is(parser: &ParsedCommand, i: usize, word: &[u8]) -> (r: bool)
    requires
        parser.well_formed(),
        i < parser.argv@.len(),
    ensures
        r == (ascii_lowercase(parser.args()[i as int]) == word@),
{
    assert(parser.has_arg(i as int));
    match parser.get_slice(i) {
        Ok(b) => eq_lowercase(b, word),
        Err(_) => false,
    }
}

/// The moment `delta` milliseconds after `now`, in `i64` arithmetic that wraps around on
/// overflow, as the release build of `now + delta` does.
pub open spec fn expiration_from(now: i64, delta: i64) -> i64 {
    vstd::wrapping::i64_specs::wrapping_add(now, delta)
}

fn moment_after(now: i64, delta: i64) -> (r: i64)
    ensures
        r == expiration_from(now, delta),
{
    now.wrapping_add(delta)
}

/// `secs` seconds in milliseconds, in `i64` arithmetic that wraps around on overflow, as
/// the release build of `secs * 1000` does.
pub open spec fn seconds_to_ms(secs: i64) -> i64 {
    vstd::wrapping::i64_specs::wrapping_mul(secs, 1000i64)
}

fn seconds_in_ms(secs: i64) -> (r: i64)
    ensures
        r == seconds_to_ms(secs),
{
    secs.wrapping_mul(1000)
}

/// `-n` in `i64` arithmetic that wraps around on overflow (`-i64::MIN` is `i64::MIN`), as the
/// release build of `-n` does.
pub open spec fn negated(n: i64) -> i64 {
    vstd::wrapping::i64_specs::wrapping_sub(0i64, n)
}

fn negate_wrapping(n: i64) -> (r: i64)
    ensures
        r == negated(n),
{
    0i64.wrapping_sub(n)
}

/// The precondition shared by the command handlers.
pub open spec fn ready(parser: &ParsedCommand, db: &Database, dbindex: usize) -> bool {
    &&& parser.well_formed()
    &&& parser.argv@.len() < i64::MAX
    &&& db.well_formed()
    &&& db.valid_index(dbindex as int)
}

// ---------------------------------------------------------------------------------------
// Strings: SET and its variants
// ---------------------------------------------------------------------------------------

/// What `SET`-like commands do to `key` of database `index` at `now`: nothing (and `false`)
/// when `nx` asks for an absent key and it is live, or `xx` asks for a live key and it is
/// not; otherwise the key becomes the string `val`, with the expiration `expiration` if one
/// is given, and `true`.
pub open spec fn spec_generic_set(
    m: DbModel,
    index: int,
    key: Seq<u8>,
    val: Seq<u8>,
    nx: bool,
    xx: bool,
    expiration: Option<i64>,
    now: int,
) -> (bool, DbModel) {
    if nx && is_live(m, index, key, now) {
        (false, m)
    } else if xx && !is_live(m, index, key, now) {
        (false, m)
    } else {
        let m1 = db_store(m, index, key, now, ValueModel::Str(val));
        (
            true,
            match expiration {
                Some(e) => db_set_expiration(m1, index, key, e),
                None => m1,
            },
        )
    }
}

/// Stores `val` under `key` as `SET` does (see `spec_generic_set`).
pub fn generic_set(
    db: &mut Database,
    dbindex: usize,
    key: Vec<u8>,
    val: Vec<u8>,
    nx: bool,
    xx: bool,
    expiration: Option<i64>,
    now: i64,
) -> (r: Result<bool, Response>)
    requires
        old(db).well_formed(),
        old(db).valid_index(dbindex as int),
    ensures
        final(db).well_formed(),
        final(db).cfg() == old(db).cfg(),
        final(db).started() == old(db).started(),
        r matches Ok(b) && b == spec_generic_set(old(db)@, dbindex as int, key@, val@, nx, xx, expiration, now as int).0,
        final(db)@ == spec_generic_set(old(db)@, dbindex as int, key@, val@, nx, xx, expiration, now as int).1,
{
    if nx && db.get_at(dbindex, key.as_slice(), now).is_some() {
        return Ok(false);
    }
    if xx && db.get_at(dbindex, key.as_slice(), now).is_none() {
        return Ok(false);
    }
    let mut v = db.take_or_create_at(dbindex, key.as_slice(), now);
    let _ = v.set(val);
    let ghost k = key@;
    match expiration {
        Some(msexp) => {
            db.put(dbindex, copy_key(&key), v);
            db.set_msexpiration(dbindex, key, msexp);
        },
        None => {
            db.put(dbindex, key, v);
        },
    }
    Ok(true)
}

fn copy_key(key: &Vec<u8>) -> (r: Vec<u8>)
    ensures
        r@ == key@,
{
    crate::bytes::copy_bytes(key.as_slice())
}

/// The options of `SET` from argument `i` on, given those read so far: `NX`, `XX`,
/// `PX ms` and `EX s` (in any case). The expiration is stored as given: `PX`'s number, or
/// `EX`'s number of seconds in milliseconds; the keyspace reads it as the moment (in
/// milliseconds since the epoch) at which the key expires. Seconds whose milliseconds do
/// not fit in an `i64` wrap around (see `seconds_to_ms`).
pub open spec fn set_options(
    args: Seq<Seq<u8>>,
    i: int,
    nx: bool,
    xx: bool,
    expiration: Option<i64>,
) -> Result<(bool, bool, Option<i64>), Seq<char>>
    decreases args.len() - i,
{
    if i < 0 || i >= args.len() {
        Ok((nx, xx, expiration))
    } else {
        let word = ascii_lowercase(args[i]);
        if word == seq![110u8, 120u8] {
            set_options(args, i + 1, true, xx, expiration)
        } else if word == seq![120u8, 120u8] {
            set_options(args, i + 1, nx, true, expiration)
        } else if word == seq![112u8, 120u8] || word == seq![101u8, 120u8] {
            let amount = if i + 1 < args.len() { spec_parse_i64(args[i + 1]) } else { None };
            match amount {
                None => Err("ERR syntax error"@),
                Some(a) => {
                    let e = if word == seq![112u8, 120u8] { a } else { seconds_to_ms(a) };
                    set_options(args, i + 2, nx, xx, Some(e))
                },
            }
        } else {
            Err("ERR syntax error"@)
        }
    }
}

/// `SET key value [NX] [XX] [PX ms] [EX s]`.
pub open spec fn spec_set(args: Seq<Seq<u8>>, m: DbModel, index: int, now: int) -> (ResponseModel, DbModel) {
    if args.len() < 3 {
        (wrong_arity(args), m)
    } else {
        match set_options(args, 3, false, false, None) {
            Err(msg) => (error(msg), m),
            Ok((nx, xx, e)) => {
                let (b, m2) = spec_generic_set(m, index, args[1], args[2], nx, xx, e, now);
                (if b { ok() } else { ResponseModel::Nil }, m2)
            },
        }
    }
}

/// `SET key value [NX] [XX] [PX ms] [EX s]`: `OK`, or nil when `NX` or `XX` prevented it.
pub fn set(parser: &ParsedCommand, db: &mut Database, dbindex: usize, now: i64) -> (r: Response)
    requires
        ready(parser, old(db), dbindex),
    ensures
        final(db).well_formed(),
        final(db).cfg() == old(db).cfg(),
        final(db).started() == old(db).started(),
        response_is(r, spec_set(parser.args(), old(db)@, dbindex as int, now as int).0),
        final(db)@ == spec_set(parser.args(), old(db)@, dbindex as int, now as int).1,
{
    let ghost args = parser.args();
    if parser.argv.len() < 3 {
        return wrong_arguments(parser);
    }
    let key = argument(parser, 1);
    let val = argument(parser, 2);
    let mut nx = false;
    let mut xx = false;
    let mut expiration: Option<i64> = None;
    let mut i: usize = 3;
    let n = parser.argv.len();
    let nx_word: Vec<u8> = vec![110u8, 120u8];
    let xx_word: Vec<u8> = vec![120u8, 120u8];
    let px_word: Vec<u8> = vec![112u8, 120u8];
    let ex_word: Vec<u8> = vec![101u8, 120u8];
    assert(nx_word@ == seq![110u8, 120u8]);
    assert(xx_word@ == seq![120u8, 120u8]);
    assert(px_word@ == seq![112u8, 120u8]);
    assert(ex_word@ == seq![101u8, 120u8]);
    while i < n
        invariant
            parser.well_formed(),
            db.well_formed(),
            db.valid_index(dbindex as int),
            db@ == old(db)@,
            args == parser.args(),
            n == parser.argv@.len(),
            3 <= i <= n + 1,
            nx_word@ == seq![110u8, 120u8],
            xx_word@ == seq![120u8, 120u8],
            px_word@ == seq![112u8, 120u8],
            ex_word@ == seq![101u8, 120u8],
            set_options(args, i as int, nx, xx, expiration) == set_options(args, 3, false, false, None),
        decreases n + 1 - i,
    {
        if argument_is(parser, i, nx_word.as_slice()) {
            nx = true;
            i = i + 1;
        } else if argument_is(parser, i, xx_word.as_slice()) {
            xx = true;
            i = i + 1;
        } else if argument_is(parser, i, px_word.as_slice()) || argument_is(parser, i, ex_word.as_slice()) {
            let is_px = argument_is(parser, i, px_word.as_slice());
            if i + 1 >= n {
                return error_response("ERR syntax error");
            }
            let amount = match integer_argument(parser, i + 1) {
                Some(a) => a,
                None => {
                    return error_response("ERR syntax error");
                },
            };
            let e = if is_px { amount } else { seconds_in_ms(amount) };
            expiration = Some(e);
            i = i + 2;
        } else {
            return error_response("ERR syntax error");
        }
    }
    match generic_set(db, dbindex, key, val, nx, xx, expiration, now) {
        Ok(true) => status_response("OK"),
        Ok(false) => Response::Nil,
        Err(r) => r,
    }
}

/// `SETNX key value`.
pub open spec fn spec_setnx(args: Seq<Seq<u8>>, m: DbModel, index: int, now: int) -> (ResponseModel, DbModel) {
    if args.len() != 3 {
        (wrong_arity(args), m)
    } else {
        let (b, m2) = spec_generic_set(m, index, args[1], args[2], true, false, None, now);
        (flag(b), m2)
    }
}

/// `SETNX key value`: sets the key only when it holds no live value; 1 if it did.
pub fn setnx(parser: &ParsedCommand, db: &mut Database, dbindex: usize, now: i64) -> (r: Response)
    requires
        ready(parser, old(db), dbindex),
    ensures
        final(db).well_formed(),
        final(db).cfg() == old(db).cfg(),
        final(db).started() == old(db).started(),
        response_is(r, spec_setnx(parser.args(), old(db)@, dbindex as int, now as int).0),
        final(db)@ == spec_setnx(parser.args(), old(db)@, dbindex as int, now as int).1,
{
    if parser.argv.len() != 3 {
        return wrong_arguments(parser);
    }
    let key = argument(parser, 1);
    let val = argument(parser, 2);
    match generic_set(db, dbindex, key, val, true, false, None, now) {
        Ok(updated) => Response::Integer(if updated { 1 } else { 0 }),
        Err(r) => r,
    }
}

/// `SETEX key seconds value` (`ms` false) and `PSETEX key milliseconds value` (`ms` true).
/// The number is stored as given (seconds in milliseconds for `SETEX`); the keyspace reads
/// it as the moment, in milliseconds since the epoch, at which the key expires.
pub open spec fn spec_setex(args: Seq<Seq<u8>>, m: DbModel, index: int, now: int, ms: bool) -> (ResponseModel, DbModel) {
    if args.len() != 4 {
        (wrong_arity(args), m)
    } else {
        match spec_parse_i64(args[2]) {
            None => (error("ERR syntax error"@), m),
            Some(exp) => if exp < 0 {
                (error("ERR invalid expire time"@), m)
            } else {
                let e = if ms { exp } else { seconds_to_ms(exp) };
                (ok(), spec_generic_set(m, index, args[1], args[3], false, false, Some(e), now).1)
            },
        }
    }
}

fn generic_setex(parser: &ParsedCommand, db: &mut Database, dbindex: usize, now: i64, ms: bool) -> (r: Response)
    requires
        ready(parser, old(db), dbindex),
    ensures
        final(db).well_formed(),
        final(db).cfg() == old(db).cfg(),
        final(db).started() == old(db).started(),
        response_is(r, spec_setex(parser.args(), old(db)@, dbindex as int, now as int, ms).0),
        final(db)@ == spec_setex(parser.args(), old(db)@, dbindex as int, now as int, ms).1,
{
    if parser.argv.len() != 4 {
        return wrong_arguments(parser);
    }
    let key = argument(parser, 1);
    let exp = match integer_argument(parser, 2) {
        Some(e) => e,
        None => {
            return error_response("ERR syntax error");
        },
    };
    if exp < 0 {
        return error_response("ERR invalid expire time");
    }
    let val = argument(parser, 3);
    let e = if ms { exp } else { seconds_in_ms(exp) };
    match generic_set(db, dbindex, key, val, false, false, Some(e), now) {
        Ok(_) => status_response("OK"),
        Err(r) => r,
    }
}

/// `SETEX key seconds value`: sets the key, with the seconds in milliseconds as its
/// expiration moment.
pub fn setex(parser: &ParsedCommand, db: &mut Database, dbindex: usize, now: i64) -> (r: Response)
    requires
        ready(parser, old(db), dbindex),
    ensures
        final(db).well_formed(),
        final(db).cfg() == old(db).cfg(),
        final(db).started() == old(db).started(),
        response_is(r, spec_setex(parser.args(), old(db)@, dbindex as int, now as int, false).0),
        final(db)@ == spec_setex(parser.args(), old(db)@, dbindex as int, now as int, false).1,
{
    generic_setex(parser, db, dbindex, now, false)
}

/// `PSETEX key milliseconds value`: sets the key, with the milliseconds as its expiration
/// moment.
pub fn psetex(parser: &ParsedCommand, db: &mut Database, dbindex: usize, now: i64) -> (r: Response)
    requires
        ready(parser, old(db), dbindex),
    ensures
        final(db).well_formed(),
        final(db).cfg() == old(db).cfg(),
        final(db).started() == old(db).started(),
        response_is(r, spec_setex(parser.args(), old(db)@, dbindex as int, now as int, true).0),
        final(db)@ == spec_setex(parser.args(), old(db)@, dbindex as int, now as int, true).1,
{
    generic_setex(parser, db, dbindex, now, true)
}

// ---------------------------------------------------------------------------------------
// Strings: reading
// ---------------------------------------------------------------------------------------

/// What `GET` answers for `key`: its string, nil for a key that is not live, and for a
/// value of another type an error (`err_on_wrongtype`) or nil.
pub open spec fn spec_generic_get(m: DbModel, index: int, key: Seq<u8>, err_on_wrongtype: bool, now: int) -> ResponseModel {
    match db_lookup(m, index, key, now) {
        Some(v) => match op_get(v) {
            Ok(d) => ResponseModel::Data(d),
            Err(msg) => if err_on_wrongtype { error(msg) } else { ResponseModel::Nil },
        },
        None => ResponseModel::Nil,
    }
}

/// Reads `key` as `GET` does (see `spec_generic_get`).
pub fn generic_get(db: &Database, dbindex: usize, key: Vec<u8>, err_on_wrongtype: bool, now: i64) -> (r: Response)
    requires
        db.well_formed(),
        db.valid_index(dbindex as int),
    ensures
        flat_response_is(r, spec_generic_get(db@, dbindex as int, key@, err_on_wrongtype, now as int)),
{
    match db.get_at(dbindex, key.as_slice(), now) {
        Some(value) => match value.get() {
            Ok(r) => Response::Data(r),
            Err(err) => {
                if err_on_wrongtype {
                    Response::Error(String::from_str(err.message()))
                } else {
                    Response::Nil
                }
            },
        },
        None => Response::Nil,
    }
}

/// `GET key`.
pub open spec fn spec_get(args: Seq<Seq<u8>>, m: DbModel, index: int, now: int) -> ResponseModel {
    if args.len() != 2 {
        wrong_arity(args)
    } else {
        spec_generic_get(m, index, args[1], true, now)
    }
}

/// `GET key`: the string under the key.
pub fn get(parser: &ParsedCommand, db: &Database, dbindex: usize, now: i64) -> (r: Response)
    requires
        ready(parser, db, dbindex),
    ensures
        response_is(r, spec_get(parser.args(), db@, dbindex as int, now as int)),
{
    if parser.argv.len() != 2 {
        return wrong_arguments(parser);
    }
    let key = argument(parser, 1);
    generic_get(db, dbindex, key, true, now)
}

/// `MGET key...`.
pub open spec fn spec_mget(args: Seq<Seq<u8>>, m: DbModel, index: int, now: int) -> ResponseModel {
    if args.len() < 2 {
        error("ERR wrong number of parameters"@)
    } else {
        ResponseModel::Array(
            Seq::new((args.len() - 1) as nat, |i: int| spec_generic_get(m, index, args[i + 1], false, now)),
        )
    }
}

/// `MGET key...`: the string under each key, nil for those that hold none.
pub fn mget(parser: &ParsedCommand, db: &Database, dbindex: usize, now: i64) -> (r: Response)
    requires
        ready(parser, db, dbindex),
    ensures
        response_is(r, spec_mget(parser.args(), db@, dbindex as int, now as int)),
{
    let ghost args = parser.args();
    if parser.argv.len() < 2 {
        return error_response("ERR wrong number of parameters");
    }
    let n = parser.argv.len();
    let mut response: Vec<Response> = Vec::new();
    let mut i: usize = 1;
    while i < n
        invariant
            parser.well_formed(),
            db.well_formed(),
            db.valid_index(dbindex as int),
            args == parser.args(),
            n == args.len(),
            1 <= i <= n,
            response@.len() == i - 1,
            forall|j: int| 0 <= j < i - 1 ==> flat_response_is(#[trigger] response@[j], spec_generic_get(db@, dbindex as int, args[j + 1], false, now as int)),
        decreases n - i,
    {
        let key = argument(parser, i);
        response.push(generic_get(db, dbindex, key, false, now));
        i = i + 1;
    }
    Response::Array(response)
}

// ---------------------------------------------------------------------------------------
// Keys
// ---------------------------------------------------------------------------------------

/// `EXISTS key`.
pub open spec fn spec_exists(args: Seq<Seq<u8>>, m: DbModel, index: int, now: int) -> ResponseModel {
    if args.len() != 2 {
        wrong_arity(args)
    } else {
        flag(is_live(m, index, args[1], now))
    }
}

/// `EXISTS key`: 1 when the key holds a live value, else 0.
pub fn exists_key(parser: &ParsedCommand, db: &Database, dbindex: usize, now: i64) -> (r: Response)
    requires
        ready(parser, db, dbindex),
    ensures
        response_is(r, spec_exists(parser.args(), db@, dbindex as int, now as int)),
{
    if parser.argv.len() != 2 {
        return wrong_arguments(parser);
    }
    let key = argument(parser, 1);
    Response::Integer(
        match db.get_at(dbindex, key.as_slice(), now) {
            Some(_) => 1,
            None => 0,
        },
    )
}

/// Removes the keys `args[i..]` in turn; gives how many of them were live, and what is left.
pub open spec fn del_keys(args: Seq<Seq<u8>>, i: int, m: DbModel, index: int, now: int) -> (int, DbModel)
    decreases args.len() - i,
{
    if i < 0 || i >= args.len() {
        (0, m)
    } else {
        let hit: int = if is_live(m, index, args[i], now) { 1 } else { 0 };
        let (c, m2) = del_keys(args, i + 1, db_remove(m, index, args[i]), index, now);
        (c + hit, m2)
    }
}

/// `DEL key...`.
pub open spec fn spec_del(args: Seq<Seq<u8>>, m: DbModel, index: int, now: int) -> (ResponseModel, DbModel) {
    if args.len() < 2 {
        (error("ERR wrong number of parameters"@), m)
    } else {
        let (c, m2) = del_keys(args, 1, m, index, now);
        (ResponseModel::Integer(c as i64), m2)
    }
}

proof fn lemma_del_keys_bound(args: Seq<Seq<u8>>, i: int, m: DbModel, index: int, now: int)
    requires
        0 <= i <= args.len(),
    ensures
        0 <= del_keys(args, i, m, index, now).0 <= args.len() - i,
    decreases args.len() - i,
{
    if i < args.len() {
        lemma_del_keys_bound(args, i + 1, db_remove(m, index, args[i]), index, now);
    }
}

/// `DEL key...`: removes the keys; gives how many held a live value.
pub fn del(parser: &ParsedCommand, db: &mut Database, dbindex: usize, now: i64) -> (r: Response)
    requires
        ready(parser, old(db), dbindex),
    ensures
        final(db).well_formed(),
        final(db).cfg() == old(db).cfg(),
        final(db).started() == old(db).started(),
        response_is(r, spec_del(parser.args(), old(db)@, dbindex as int, now as int).0),
        final(db)@ == spec_del(parser.args(), old(db)@, dbindex as int, now as int).1,
{
    let ghost args = parser.args();
    if parser.argv.len() < 2 {
        return error_response("ERR wrong number of parameters");
    }
    let n = parser.argv.len();
    let mut c: i64 = 0;
    let mut i: usize = 1;
    proof {
        lemma_del_keys_bound(args, 1, old(db)@, dbindex as int, now as int);
    }
    while i < n
        invariant
            parser.well_formed(),
            args == parser.args(),
            n == args.len(),
            n < i64::MAX,
            1 <= i <= n,
            0 <= c < i,
            db.well_formed(),
            db.valid_index(dbindex as int),
            db.cfg() == old(db).cfg(),
            db.started() == old(db).started(),
            del_keys(args, 1, old(db)@, dbindex as int, now as int) == ({
                let (c2, m2) = del_keys(args, i as int, db@, dbindex as int, now as int);
                (c2 + c, m2)
            }),
        decreases n - i,
    {
        let key = argument(parser, i);
        if db.remove_at(dbindex, key.as_slice(), now).is_some() {
            c = c + 1;
        }
        i = i + 1;
    }
    Response::Integer(c)
}

/// The `DEBUG OBJECT` line for `key`, when it holds a live value.
pub fn debug_object(db: &Database, dbindex: usize, key: Vec<u8>, now: i64) -> (r: Option<String>)
    requires
        db.well_formed(),
        db.valid_index(dbindex as int),
    ensures
        match db_lookup(db@, dbindex as int, key@, now as int) {
            Some(v) => r matches Some(s) && s@ == crate::list::debug_line(crate::value::encoding_name(v), spec_dump(v).len()),
            None => r is None,
        },
{
    match db.get_at(dbindex, key.as_slice(), now) {
        Some(val) => Some(val.debug_object()),
        None => None,
    }
}

/// `DEBUG OBJECT key`.
pub open spec fn spec_debug(args: Seq<Seq<u8>>, m: DbModel, index: int, now: int) -> ResponseModel {
    if args.len() != 3 {
        wrong_arity(args)
    } else if !valid_utf8(args[1]) {
        error("ERR Syntax error"@)
    } else if ascii_lowercase(args[1]) == seq![111u8, 98u8, 106u8, 101u8, 99u8, 116u8] {
        match db_lookup(m, index, args[2], now) {
            Some(v) => ResponseModel::Status(crate::list::debug_line(crate::value::encoding_name(v), spec_dump(v).len())),
            None => error("no such key"@),
        }
    } else {
        error("Invalid debug command"@)
    }
}

/// `DEBUG OBJECT key`: how the key's value is held.
pub fn debug(parser: &ParsedCommand, db: &Database, dbindex: usize, now: i64) -> (r: Response)
    requires
        ready(parser, db, dbindex),
    ensures
        response_is(r, spec_debug(parser.args(), db@, dbindex as int, now as int)),
{
    if parser.argv.len() != 3 {
        return wrong_arguments(parser);
    }
    assert(parser.has_arg(1));
    assert(parser.args()[1] == parser.arg(1));
    if parser.get_str(1).is_err() {
        return error_response("ERR Syntax error");
    }
    let object: Vec<u8> = vec![111u8, 98u8, 106u8, 101u8, 99u8, 116u8];
    assert(object@ == seq![111u8, 98u8, 106u8, 101u8, 99u8, 116u8]);
    if argument_is(parser, 1, object.as_slice()) {
        match debug_object(db, dbindex, argument(parser, 2), now) {
            Some(s) => Response::Status(s),
            None => error_response("no such key"),
        }
    } else {
        error_response("Invalid debug command")
    }
}

/// `DBSIZE`.
pub open spec fn spec_dbsize(args: Seq<Seq<u8>>, m: DbModel, index: int) -> ResponseModel {
    if args.len() != 1 {
        wrong_arity(args)
    } else {
        let n = m.data[index].dom().len();
        ResponseModel::Integer(if n > i64::MAX { i64::MAX } else { n as i64 })
    }
}

/// `DBSIZE`: the number of keys of the database.
pub fn dbsize(parser: &ParsedCommand, db: &Database, dbindex: usize) -> (r: Response)
    requires
        ready(parser, db, dbindex),
    ensures
        response_is(r, spec_dbsize(parser.args(), db@, dbindex as int)),
{
    if parser.argv.len() != 1 {
        return wrong_arguments(parser);
    }
    let n = db.dbsize(dbindex);
    Response::Integer(if n as u64 > i64::MAX as u64 { i64::MAX } else { n as i64 })
}

/// `DUMP key`.
pub open spec fn spec_dump_command(args: Seq<Seq<u8>>, m: DbModel, index: int, now: int) -> ResponseModel {
    if args.len() != 2 {
        wrong_arity(args)
    } else {
        match db_lookup(m, index, args[1], now) {
            Some(v) => ResponseModel::Data(spec_dump(v)),
            None => ResponseModel::Nil,
        }
    }
}

/// `DUMP key`: the key's value in the dump format, nil when it has none.
pub fn dump(parser: &ParsedCommand, db: &Database, dbindex: usize, now: i64) -> (r: Response)
    requires
        ready(parser, db, dbindex),
    ensures
        response_is(r, spec_dump_command(parser.args(), db@, dbindex as int, now as int)),
{
    if parser.argv.len() != 2 {
        return wrong_arguments(parser);
    }
    let key = argument(parser, 1);
    let mut data: Vec<u8> = Vec::new();
    match db.get_at(dbindex, key.as_slice(), now) {
        Some(value) => {
            value.dump(&mut data);
            assert(data@ =~= spec_dump(value@));
            Response::Data(data)
        },
        None => Response::Nil,
    }
}

/// What setting the expiration of `key` to `msexpiration` does: when the key is live, it
/// gets the expiration and the answer is 1; otherwise nothing changes and the answer is 0.
pub open spec fn spec_generic_expire(m: DbModel, index: int, key: Seq<u8>, msexpiration: i64, now: int) -> (ResponseModel, DbModel) {
    if is_live(m, index, key, now) {
        (flag(true), db_set_expiration(m, index, key, msexpiration))
    } else {
        (flag(false), m)
    }
}

/// Sets the expiration of a live key (see `spec_generic_expire`).
pub fn generic_expire(db: &mut Database, dbindex: usize, key: Vec<u8>, msexpiration: i64, now: i64) -> (r: Response)
    requires
        old(db).well_formed(),
        old(db).valid_index(dbindex as int),
    ensures
        final(db).well_formed(),
        final(db).cfg() == old(db).cfg(),
        final(db).started() == old(db).started(),
        response_is(r, spec_generic_expire(old(db)@, dbindex as int, key@, msexpiration, now as int).0),
        final(db)@ == spec_generic_expire(old(db)@, dbindex as int, key@, msexpiration, now as int).1,
{
    let expired = match db.get_at(dbindex, key.as_slice(), now) {
        Some(_) => {
            db.set_msexpiration(dbindex, key, msexpiration);
            1
        },
        None => 0,
    };
    Response::Integer(expired)
}

/// `EXPIRE key seconds`.
pub open spec fn spec_expire(args: Seq<Seq<u8>>, m: DbModel, index: int, now: int) -> (ResponseModel, DbModel) {
    if args.len() != 3 {
        (wrong_arity(args), m)
    } else {
        match spec_parse_i64(args[2]) {
            None => (error("Invalid expiration"@), m),
            Some(secs) => spec_generic_expire(
                m,
                index,
                args[1],
                expiration_from(now as i64, seconds_to_ms(secs)),
                now,
            ),
        }
    }
}

/// `EXPIRE key seconds`: makes a live key expire the given seconds from now.
pub fn expire(parser: &ParsedCommand, db: &mut Database, dbindex: usize, now: i64) -> (r: Response)
    requires
        ready(parser, old(db), dbindex),
    ensures
        final(db).well_formed(),
        final(db).cfg() == old(db).cfg(),
        final(db).started() == old(db).started(),
        response_is(r, spec_expire(parser.args(), old(db)@, dbindex as int, now as int).0),
        final(db)@ == spec_expire(parser.args(), old(db)@, dbindex as int, now as int).1,
{
    if parser.argv.len() != 3 {
        return wrong_arguments(parser);
    }
    let key = argument(parser, 1);
    let secs = match integer_argument(parser, 2) {
        Some(s) => s,
        None => {
            return error_response("Invalid expiration");
        },
    };
    let e = moment_after(now, seconds_in_ms(secs));
    generic_expire(db, dbindex, key, e, now)
}

/// `FLUSHDB`, called with two arguments after its name: every key of the database goes.
pub open spec fn spec_flushdb(args: Seq<Seq<u8>>, m: DbModel, index: int) -> (ResponseModel, DbModel) {
    if args.len() != 3 {
        (wrong_arity(args), m)
    } else {
        (
            ok(),
            DbModel {
                data: m.data.update(index, Map::empty()),
                expirations: m.expirations.update(index, Map::empty()),
            },
        )
    }
}

/// `FLUSHDB`: removes every key of the database.
pub fn flushdb(parser: &ParsedCommand, db: &mut Database, dbindex: usize) -> (r: Response)
    requires
        ready(parser, old(db), dbindex),
    ensures
        final(db).well_formed(),
        final(db).cfg() == old(db).cfg(),
        final(db).started() == old(db).started(),
        response_is(r, spec_flushdb(parser.args(), old(db)@, dbindex as int).0),
        final(db)@ == spec_flushdb(parser.args(), old(db)@, dbindex as int).1,
{
    if parser.argv.len() != 3 {
        return wrong_arguments(parser);
    }
    db.clear(dbindex);
    status_response("OK")
}

/// The time to live of `key`, in units of `divisor` milliseconds: -2 when it holds no live
/// value, -1 when it has no expiration.
pub open spec fn spec_generic_ttl(m: DbModel, index: int, key: Seq<u8>, divisor: int, now: int) -> ResponseModel {
    if !is_live(m, index, key, now) {
        ResponseModel::Integer(-2i64)
    } else if !m.expirations[index].contains_key(key) {
        ResponseModel::Integer(-1i64)
    } else {
        let t = (m.expirations[index][key] - now) / divisor;
        ResponseModel::Integer(if t > i64::MAX { i64::MAX } else { t as i64 })
    }
}

/// The time to live of a key (see `spec_generic_ttl`).
pub fn generic_ttl(db: &Database, dbindex: usize, key: &[u8], divisor: i64, now: i64) -> (r: Response)
    requires
        db.well_formed(),
        db.valid_index(dbindex as int),
        divisor > 0,
    ensures
        response_is(r, spec_generic_ttl(db@, dbindex as int, key@, divisor as int, now as int)),
{
    let ttl: i64 = match db.get_at(dbindex, key, now) {
        Some(_) => match db.get_msexpiration(dbindex, key) {
            Some(exp) => {
                let d: i128 = (*exp as i128 - now as i128) / (divisor as i128);
                if d > i64::MAX as i128 {
                    i64::MAX
                } else {
                    d as i64
                }
            },
            None => -1,
        },
        None => -2,
    };
    Response::Integer(ttl)
}

/// `TTL key` (`divisor` 1000) and `PTTL key` (`divisor` 1).
pub open spec fn spec_ttl(args: Seq<Seq<u8>>, m: DbModel, index: int, divisor: int, now: int) -> ResponseModel {
    if args.len() != 2 {
        wrong_arity(args)
    } else {
        spec_generic_ttl(m, index, args[1], divisor, now)
    }
}

/// `TTL key`: the seconds left before the key expires.
pub fn ttl(parser: &ParsedCommand, db: &Database, dbindex: usize, now: i64) -> (r: Response)
    requires
        ready(parser, db, dbindex),
    ensures
        response_is(r, spec_ttl(parser.args(), db@, dbindex as int, 1000, now as int)),
{
    if parser.argv.len() != 2 {
        return wrong_arguments(parser);
    }
    let key = argument(parser, 1);
    generic_ttl(db, dbindex, key.as_slice(), 1000, now)
}

/// `PTTL key`: the milliseconds left before the key expires.
pub fn pttl(parser: &ParsedCommand, db: &Database, dbindex: usize, now: i64) -> (r: Response)
    requires
        ready(parser, db, dbindex),
    ensures
        response_is(r, spec_ttl(parser.args(), db@, dbindex as int, 1, now as int)),
{
    if parser.argv.len() != 2 {
        return wrong_arguments(parser);
    }
    let key = argument(parser, 1);
    generic_ttl(db, dbindex, key.as_slice(), 1, now)
}

/// `PERSIST key`.
pub open spec fn spec_persist(args: Seq<Seq<u8>>, m: DbModel, index: int) -> (ResponseModel, DbModel) {
    if args.len() != 2 {
        (wrong_arity(args), m)
    } else {
        (flag(m.expirations[index].contains_key(args[1])), db_remove_expiration(m, index, args[1]))
    }
}

/// `PERSIST key`: removes the key's expiration; 1 if it had one.
pub fn persist(parser: &ParsedCommand, db: &mut Database, dbindex: usize) -> (r: Response)
    requires
        ready(parser, old(db), dbindex),
    ensures
        final(db).well_formed(),
        final(db).cfg() == old(db).cfg(),
        final(db).started() == old(db).started(),
        response_is(r, spec_persist(parser.args(), old(db)@, dbindex as int).0),
        final(db)@ == spec_persist(parser.args(), old(db)@, dbindex as int).1,
{
    if parser.argv.len() != 2 {
        return wrong_arguments(parser);
    }
    let key = argument(parser, 1);
    let persist = match db.remove_msexpiration(dbindex, key.as_slice()) {
        Some(_) => 1,
        None => 0,
    };
    Response::Integer(persist)
}

/// The name that `TYPE` gives a value.
pub open spec fn value_type_name(v: Option<ValueModel>) -> Seq<u8> {
    match v {
        Some(ValueModel::Str(_)) => seq![115u8, 116u8, 114u8, 105u8, 110u8, 103u8],
        Some(ValueModel::List(_)) => seq![108u8, 105u8, 115u8, 116u8],
        Some(ValueModel::UnorderedSet(_)) => seq![115u8, 101u8, 116u8],
        Some(ValueModel::SortedSet(_)) => seq![122u8, 115u8, 101u8, 116u8],
        _ => seq![110u8, 111u8, 110u8, 101u8],
    }
}

/// `TYPE key`.
pub open spec fn spec_dbtype(args: Seq<Seq<u8>>, m: DbModel, index: int, now: int) -> ResponseModel {
    if args.len() != 2 {
        wrong_arity(args)
    } else {
        ResponseModel::Data(value_type_name(db_lookup(m, index, args[1], now)))
    }
}

/// `TYPE key`: `string`, `list`, `set`, `zset`, or `none`.
pub fn dbtype(parser: &ParsedCommand, db: &Database, dbindex: usize, now: i64) -> (r: Response)
    requires
        ready(parser, db, dbindex),
    ensures
        response_is(r, spec_dbtype(parser.args(), db@, dbindex as int, now as int)),
{
    if parser.argv.len() != 2 {
        return wrong_arguments(parser);
    }
    let key = argument(parser, 1);
    let name: Vec<u8> = match db.get_at(dbindex, key.as_slice(), now) {
        Some(Value::String(_)) => vec![115u8, 116u8, 114u8, 105u8, 110u8, 103u8],
        Some(Value::List(_)) => vec![108u8, 105u8, 115u8, 116u8],
        Some(Value::UnorderedSet(_)) => vec![115u8, 101u8, 116u8],
        Some(Value::SortedSet(_)) => vec![122u8, 115u8, 101u8, 116u8],
        _ => vec![110u8, 111u8, 110u8, 101u8],
    };
    Response::Data(name)
}

/// `FLUSHALL`.
pub open spec fn spec_flushall(args: Seq<Seq<u8>>, m: DbModel) -> (ResponseModel, DbModel) {
    if args.len() != 1 {
        (wrong_arity(args), m)
    } else {
        (
            ok(),
            DbModel {
                data: Seq::new(m.data.len(), |i: int| Map::<Seq<u8>, ValueModel>::empty()),
                expirations: Seq::new(m.expirations.len(), |i: int| Map::<Seq<u8>, i64>::empty()),
            },
        )
    }
}

/// `FLUSHALL`: removes every key of every database.
pub fn flushall(parser: &ParsedCommand, db: &mut Database, dbindex: usize) -> (r: Response)
    requires
        ready(parser, old(db), dbindex),
    ensures
        final(db).well_formed(),
        final(db).cfg() == old(db).cfg(),
        final(db).started() == old(db).started(),
        response_is(r, spec_flushall(parser.args(), old(db)@).0),
        final(db)@ == spec_flushall(parser.args(), old(db)@).1,
{
    if parser.argv.len() != 1 {
        return wrong_arguments(parser);
    }
    db.clearall();
    proof {
        assert(db@.data =~= Seq::new(old(db)@.data.len(), |i: int| Map::<Seq<u8>, ValueModel>::empty()));
        assert(db@.expirations =~= Seq::new(old(db)@.expirations.len(), |i: int| Map::<Seq<u8>, i64>::empty()));
    }
    status_response("OK")
}

// ---------------------------------------------------------------------------------------
// Strings: changing
// ---------------------------------------------------------------------------------------

/// A reply for the outcome of an operation that gives a length.
pub open spec fn count_reply(r: Result<usize, Seq<char>>) -> ResponseModel {
    match r {
        Ok(n) => ResponseModel::Integer(n as i64),
        Err(msg) => error(msg),
    }
}

/// `APPEND key value`. The key is created (as nil) before the length check.
pub open spec fn spec_append(args: Seq<Seq<u8>>, m: DbModel, index: int, now: int) -> (ResponseModel, DbModel) {
    if args.len() != 3 {
        (wrong_arity(args), m)
    } else {
        let key = args[1];
        let cur = db_current(m, index, key, now);
        match op_strlen(cur) {
            Err(msg) => (error(msg), db_store(m, index, key, now, cur)),
            Ok(len) => if len + args[2].len() > MAX_STRING_LENGTH {
                (error("ERR string exceed maximum allowed size (512MB)"@), db_store(m, index, key, now, cur))
            } else {
                let (res, nv) = op_append(cur, args[2]);
                (count_reply(res), db_store(m, index, key, now, nv))
            },
        }
    }
}

/// `APPEND key value`: appends to the string; gives its new length.
pub fn append(parser: &ParsedCommand, db: &mut Database, dbindex: usize, now: i64) -> (r: Response)
    requires
        ready(parser, old(db), dbindex),
    ensures
        final(db).well_formed(),
        final(db).cfg() == old(db).cfg(),
        final(db).started() == old(db).started(),
        response_is(r, spec_append(parser.args(), old(db)@, dbindex as int, now as int).0),
        final(db)@ == spec_append(parser.args(), old(db)@, dbindex as int, now as int).1,
{
    if parser.argv.len() != 3 {
        return wrong_arguments(parser);
    }
    let key = argument(parser, 1);
    let val = argument(parser, 2);
    let mut oldval = db.take_or_create_at(dbindex, key.as_slice(), now);
    let oldlen = match oldval.strlen() {
        Ok(len) => len,
        Err(err) => {
            let r = error_response(err.message());
            db.put(dbindex, key, oldval);
            return r;
        },
    };
    if oldlen > MAX_STRING_LENGTH || val.len() > MAX_STRING_LENGTH - oldlen {
        db.put(dbindex, key, oldval);
        return error_response("ERR string exceed maximum allowed size (512MB)");
    }
    let r = match oldval.append(val) {
        Ok(len) => Response::Integer(len as i64),
        Err(err) => error_response(err.message()),
    };
    db.put(dbindex, key, oldval);
    r
}

/// `GETRANGE key start end`.
pub open spec fn spec_getrange(args: Seq<Seq<u8>>, m: DbModel, index: int, now: int) -> ResponseModel {
    if args.len() != 4 {
        error("ERR wrong number of parameters"@)
    } else {
        match (spec_parse_i64(args[2]), spec_parse_i64(args[3])) {
            (Some(start), Some(stop)) => match db_lookup(m, index, args[1], now) {
                Some(v) => match op_getrange(v, start, stop) {
                    Ok(d) => ResponseModel::Data(d),
                    Err(_) => ResponseModel::Nil,
                },
                None => ResponseModel::Nil,
            },
            _ => error("Invalid range"@),
        }
    }
}

/// `GETRANGE key start end`: the bytes of the string between the two offsets.
pub fn getrange(parser: &ParsedCommand, db: &Database, dbindex: usize, now: i64) -> (r: Response)
    requires
        ready(parser, db, dbindex),
    ensures
        response_is(r, spec_getrange(parser.args(), db@, dbindex as int, now as int)),
{
    if parser.argv.len() != 4 {
        return error_response("ERR wrong number of parameters");
    }
    let key = argument(parser, 1);
    let start = match integer_argument(parser, 2) {
        Some(v) => v,
        None => {
            return error_response("Invalid range");
        },
    };
    let stop = match integer_argument(parser, 3) {
        Some(v) => v,
        None => {
            return error_response("Invalid range");
        },
    };
    match db.get_at(dbindex, key.as_slice(), now) {
        Some(value) => match value.getrange(start, stop) {
            Ok(r) => Response::Data(r),
            Err(_) => Response::Nil,
        },
        None => Response::Nil,
    }
}

/// `SETRANGE key offset value`. The key is created (as nil) before the length check.
pub open spec fn spec_setrange(args: Seq<Seq<u8>>, m: DbModel, index: int, now: int) -> (ResponseModel, DbModel) {
    if args.len() != 4 {
        (error("ERR wrong number of parameters"@), m)
    } else {
        match spec_parse_i64(args[2]) {
            None => (error("Invalid index"@), m),
            Some(offset) => if offset < 0 {
                (error("ERR offset is out of range"@), m)
            } else if !is_live(m, index, args[1], now) && args[3].len() == 0 {
                (ResponseModel::Integer(0), m)
            } else {
                let key = args[1];
                let cur = db_current(m, index, key, now);
                if offset + args[3].len() > MAX_STRING_LENGTH {
                    (error("ERR string exceeds maxmium length(512MB)"@), db_store(m, index, key, now, cur))
                } else {
                    let (res, nv) = op_setrange(cur, offset as nat, args[3]);
                    (count_reply(res), db_store(m, index, key, now, nv))
                }
            },
        }
    }
}

/// `SETRANGE key offset value`: overwrites part of the string; gives its new length.
pub fn setrange(parser: &ParsedCommand, db: &mut Database, dbindex: usize, now: i64) -> (r: Response)
    requires
        ready(parser, old(db), dbindex),
    ensures
        final(db).well_formed(),
        final(db).cfg() == old(db).cfg(),
        final(db).started() == old(db).started(),
        response_is(r, spec_setrange(parser.args(), old(db)@, dbindex as int, now as int).0),
        final(db)@ == spec_setrange(parser.args(), old(db)@, dbindex as int, now as int).1,
{
    if parser.argv.len() != 4 {
        return error_response("ERR wrong number of parameters");
    }
    let key = argument(parser, 1);
    let index = match integer_argument(parser, 2) {
        Some(v) => v,
        None => {
            return error_response("Invalid index");
        },
    };
    if index < 0 {
        return error_response("ERR offset is out of range");
    }
    let value = argument(parser, 3);
    if db.get_at(dbindex, key.as_slice(), now).is_none() && value.len() == 0 {
        return Response::Integer(0);
    }
    let mut oldval = db.take_or_create_at(dbindex, key.as_slice(), now);
    if index as u64 > MAX_STRING_LENGTH as u64 || value.len() > MAX_STRING_LENGTH - index as usize {
        db.put(dbindex, key, oldval);
        return error_response("ERR string exceeds maxmium length(512MB)");
    }
    let r = match oldval.setrange(index as usize, value) {
        Ok(s) => Response::Integer(s as i64),
        Err(err) => error_response(err.message()),
    };
    db.put(dbindex, key, oldval);
    r
}

/// The largest bit offset plus one (512 MiB of bits).
pub const MAX_BIT_OFFSET: i64 = 4294967296;

/// `SETBIT key offset value`.
pub open spec fn spec_setbit(args: Seq<Seq<u8>>, m: DbModel, index: int, now: int) -> (ResponseModel, DbModel) {
    if args.len() != 4 {
        (wrong_arity(args), m)
    } else {
        match spec_parse_i64(args[2]) {
            None => (error("ERR bit offset is not an integer or out of range"@), m),
            Some(offset) => if !(0 <= offset < MAX_BIT_OFFSET) {
                (error("ERR bit offset is not an integer or out of range"@), m)
            } else {
                match spec_parse_i64(args[3]) {
                    None => (error("ERR bit is not an integer or out of range"@), m),
                    Some(bit) => if !(bit == 0 || bit == 1) {
                        (error("ERR bit is not an integer or out of range"@), m)
                    } else {
                        let key = args[1];
                        let (res, nv) = op_setbit(db_current(m, index, key, now), offset as nat, bit == 1);
                        (
                            match res {
                                Ok(b) => flag(b),
                                Err(msg) => error(msg),
                            },
                            db_store(m, index, key, now, nv),
                        )
                    },
                }
            },
        }
    }
}

/// `SETBIT key offset value`: sets one bit of the string; gives its previous value.
pub fn setbit(parser: &ParsedCommand, db: &mut Database, dbindex: usize, now: i64) -> (r: Response)
    requires
        ready(parser, old(db), dbindex),
    ensures
        final(db).well_formed(),
        final(db).cfg() == old(db).cfg(),
        final(db).started() == old(db).started(),
        response_is(r, spec_setbit(parser.args(), old(db)@, dbindex as int, now as int).0),
        final(db)@ == spec_setbit(parser.args(), old(db)@, dbindex as int, now as int).1,
{
    if parser.argv.len() != 4 {
        return wrong_arguments(parser);
    }
    let key = argument(parser, 1);
    let index = match integer_argument(parser, 2) {
        Some(v) => v,
        None => {
            return error_response("ERR bit offset is not an integer or out of range");
        },
    };
    if !(index >= 0 && index < MAX_BIT_OFFSET) {
        return error_response("ERR bit offset is not an integer or out of range");
    }
    let value = match integer_argument(parser, 3) {
        Some(v) => v,
        None => {
            return error_response("ERR bit is not an integer or out of range");
        },
    };
    if !(value == 0 || value == 1) {
        return error_response("ERR bit is not an integer or out of range");
    }
    let mut v = db.take_or_create_at(dbindex, key.as_slice(), now);
    let r = match v.setbit(index as usize, value == 1) {
        Ok(s) => Response::Integer(if s { 1 } else { 0 }),
        Err(err) => error_response(err.message()),
    };
    db.put(dbindex, key, v);
    r
}

/// `STRLEN key`.
pub open spec fn spec_strlen(args: Seq<Seq<u8>>, m: DbModel, index: int, now: int) -> ResponseModel {
    if args.len() != 2 {
        wrong_arity(args)
    } else {
        match db_lookup(m, index, args[1], now) {
            Some(v) => count_reply(op_strlen(v)),
            None => ResponseModel::Integer(0),
        }
    }
}

/// `STRLEN key`: the length of the string (0 for a missing key).
pub fn strlen(parser: &ParsedCommand, db: &Database, dbindex: usize, now: i64) -> (r: Response)
    requires
        ready(parser, db, dbindex),
    ensures
        response_is(r, spec_strlen(parser.args(), db@, dbindex as int, now as int)),
{
    if parser.argv.len() != 2 {
        return wrong_arguments(parser);
    }
    let key = argument(parser, 1);
    match db.get_at(dbindex, key.as_slice(), now) {
        Some(value) => match value.strlen() {
            Ok(r) => Response::Integer(r as i64),
            Err(err) => error_response(err.message()),
        },
        None => Response::Integer(0),
    }
}

/// What adding `increment` to the integer under `args[1]` does; `Invalid key` when there is
/// no argument 1.
pub open spec fn spec_generic_incr(args: Seq<Seq<u8>>, m: DbModel, index: int, increment: i64, now: int) -> (ResponseModel, DbModel) {
    if args.len() < 2 {
        (error("Invalid key"@), m)
    } else {
        let key = args[1];
        let (res, nv) = op_incr(db_current(m, index, key, now), increment);
        (
            match res {
                Ok(v) => ResponseModel::Integer(v),
                Err(msg) => error(msg),
            },
            db_store(m, index, key, now, nv),
        )
    }
}

/// Adds `increment` to the integer under the key named by argument 1, and gives the sum.
pub fn generic_incr(parser: &ParsedCommand, db: &mut Database, dbindex: usize, increment: i64, now: i64) -> (r: Response)
    requires
        ready(parser, old(db), dbindex),
    ensures
        final(db).well_formed(),
        final(db).cfg() == old(db).cfg(),
        final(db).started() == old(db).started(),
        response_is(r, spec_generic_incr(parser.args(), old(db)@, dbindex as int, increment, now as int).0),
        final(db)@ == spec_generic_incr(parser.args(), old(db)@, dbindex as int, increment, now as int).1,
{
    if parser.argv.len() < 2 {
        return error_response("Invalid key");
    }
    let key = argument(parser, 1);
    let mut v = db.take_or_create_at(dbindex, key.as_slice(), now);
    let r = match v.incr(increment) {
        Ok(val) => Response::Integer(val),
        Err(err) => error_response(err.message()),
    };
    db.put(dbindex, key, v);
    r
}

/// `INCR key` and `DECR key` (`increment` 1 or -1).
pub open spec fn spec_incr_by_one(args: Seq<Seq<u8>>, m: DbModel, index: int, increment: i64, now: int) -> (ResponseModel, DbModel) {
    if args.len() != 2 {
        (wrong_arity(args), m)
    } else {
        spec_generic_incr(args, m, index, increment, now)
    }
}

/// `INCR key`: adds 1 to the integer under the key.
pub fn incr(parser: &ParsedCommand, db: &mut Database, dbindex: usize, now: i64) -> (r: Response)
    requires
        ready(parser, old(db), dbindex),
    ensures
        final(db).well_formed(),
        final(db).cfg() == old(db).cfg(),
        final(db).started() == old(db).started(),
        response_is(r, spec_incr_by_one(parser.args(), old(db)@, dbindex as int, 1, now as int).0),
        final(db)@ == spec_incr_by_one(parser.args(), old(db)@, dbindex as int, 1, now as int).1,
{
    if parser.argv.len() != 2 {
        return wrong_arguments(parser);
    }
    generic_incr(parser, db, dbindex, 1, now)
}

/// `DECR key`: subtracts 1 from the integer under the key.
pub fn decr(parser: &ParsedCommand, db: &mut Database, dbindex: usize, now: i64) -> (r: Response)
    requires
        ready(parser, old(db), dbindex),
    ensures
        final(db).well_formed(),
        final(db).cfg() == old(db).cfg(),
        final(db).started() == old(db).started(),
        response_is(r, spec_incr_by_one(parser.args(), old(db)@, dbindex as int, -1i64, now as int).0),
        final(db)@ == spec_incr_by_one(parser.args(), old(db)@, dbindex as int, -1i64, now as int).1,
{
    if parser.argv.len() != 2 {
        return wrong_arguments(parser);
    }
    generic_incr(parser, db, dbindex, -1, now)
}

/// `INCRBY key increment` (`negate` false) and `DECRBY key decrement` (`negate` true); the
/// decrement is negated with wrapping (see `negated`).
pub open spec fn spec_incrby(args: Seq<Seq<u8>>, m: DbModel, index: int, negate: bool, now: int) -> (ResponseModel, DbModel) {
    if args.len() != 3 {
        (wrong_arity(args), m)
    } else {
        match spec_parse_i64(args[2]) {
            None => (error("Invalid increment"@), m),
            Some(n) => spec_generic_incr(args, m, index, if negate { negated(n) } else { n }, now),
        }
    }
}

fn generic_incrby(parser: &ParsedCommand, db: &mut Database, dbindex: usize, negate: bool, now: i64) -> (r: Response)
    requires
        ready(parser, old(db), dbindex),
    ensures
        final(db).well_formed(),
        final(db).cfg() == old(db).cfg(),
        final(db).started() == old(db).started(),
        response_is(r, spec_incrby(parser.args(), old(db)@, dbindex as int, negate, now as int).0),
        final(db)@ == spec_incrby(parser.args(), old(db)@, dbindex as int, negate, now as int).1,
{
    if parser.argv.len() != 3 {
        return wrong_arguments(parser);
    }
    match integer_argument(parser, 2) {
        Some(n) => {
            generic_incr(parser, db, dbindex, if negate { negate_wrapping(n) } else { n }, now)
        },
        None => error_response("Invalid increment"),
    }
}

/// `INCRBY key increment`: adds the increment to the integer under the key.
pub fn incrby(parser: &ParsedCommand, db: &mut Database, dbindex: usize, now: i64) -> (r: Response)
    requires
        ready(parser, old(db), dbindex),
    ensures
        final(db).well_formed(),
        final(db).cfg() == old(db).cfg(),
        final(db).started() == old(db).started(),
        response_is(r, spec_incrby(parser.args(), old(db)@, dbindex as int, false, now as int).0),
        final(db)@ == spec_incrby(parser.args(), old(db)@, dbindex as int, false, now as int).1,
{
    generic_incrby(parser, db, dbindex, false, now)
}

/// `DECRBY key decrement`: subtracts the decrement from the integer under the key.
pub fn decrby(parser: &ParsedCommand, db: &mut Database, dbindex: usize, now: i64) -> (r: Response)
    requires
        ready(parser, old(db), dbindex),
    ensures
        final(db).well_formed(),
        final(db).cfg() == old(db).cfg(),
        final(db).started() == old(db).started(),
        response_is(r, spec_incrby(parser.args(), old(db)@, dbindex as int, true, now as int).0),
        final(db)@ == spec_incrby(parser.args(), old(db)@, dbindex as int, true, now as int).1,
{
    generic_incrby(parser, db, dbindex, true, now)
}

// ---------------------------------------------------------------------------------------
// Lists
// ---------------------------------------------------------------------------------------

/// Pushes the values `args[j..]` in turn onto the list under `key`, with `r` the reply so
/// far: each push's reply replaces it. Without `create`, a key that holds no live value
/// stops the pushes with 0 (and an expired key is removed).
pub open spec fn push_values(
    args: Seq<Seq<u8>>,
    j: int,
    m: DbModel,
    index: int,
    key: Seq<u8>,
    right: bool,
    create: bool,
    now: int,
    r: ResponseModel,
) -> (ResponseModel, DbModel)
    decreases args.len() - j,
{
    if j < 0 || j >= args.len() {
        (r, m)
    } else if !create && !is_live(m, index, key, now) {
        (ResponseModel::Integer(0), db_remove(m, index, key))
    } else {
        let (res, nv) = op_push(db_current(m, index, key, now), args[j], right);
        push_values(args, j + 1, db_store(m, index, key, now, nv), index, key, right, create, now, count_reply(res))
    }
}

/// `LPUSH`, `RPUSH`, `LPUSHX`, `RPUSHX key value...`.
pub open spec fn spec_generic_push(args: Seq<Seq<u8>>, m: DbModel, index: int, right: bool, create: bool, now: int) -> (ResponseModel, DbModel) {
    if args.len() < 3 {
        (error("Wrong number of parameters"@), m)
    } else {
        push_values(args, 2, m, index, args[1], right, create, now, ResponseModel::Nil)
    }
}

/// Pushes each value onto the list under the key named by argument 1, at the tail
/// (`right`) or head, creating the list unless `create` is false (see `push_values`).
pub fn generic_push(parser: &ParsedCommand, db: &mut Database, dbindex: usize, right: bool, create: bool, now: i64) -> (r: Response)
    requires
        ready(parser, old(db), dbindex),
    ensures
        final(db).well_formed(),
        final(db).cfg() == old(db).cfg(),
        final(db).started() == old(db).started(),
        response_is(r, spec_generic_push(parser.args(), old(db)@, dbindex as int, right, create, now as int).0),
        final(db)@ == spec_generic_push(parser.args(), old(db)@, dbindex as int, right, create, now as int).1,
{
    let ghost args = parser.args();
    if parser.argv.len() < 3 {
        return error_response("Wrong number of parameters");
    }
    let key = argument(parser, 1);
    let n = parser.argv.len();
    let mut r = Response::Nil;
    let ghost mut rm = ResponseModel::Nil;
    let mut i: usize = 2;
    while i < n
        invariant
            parser.well_formed(),
            args == parser.args(),
            n == args.len(),
            2 <= i <= n,
            key@ == args[1],
            db.well_formed(),
            db.valid_index(dbindex as int),
            db.cfg() == old(db).cfg(),
            db.started() == old(db).started(),
            response_is(r, rm),
            push_values(args, 2, old(db)@, dbindex as int, key@, right, create, now as int, ResponseModel::Nil)
                == push_values(args, i as int, db@, dbindex as int, key@, right, create, now as int, rm),
        decreases n - i,
    {
        let ghost before = db@;
        let val = argument(parser, i);
        let mut el = if create {
            db.take_or_create_at(dbindex, key.as_slice(), now)
        } else {
            match db.take_at(dbindex, key.as_slice(), now) {
                Some(v) => v,
                None => {
                    proof {
                        assert(db@ =~= db_remove(before, dbindex as int, key@));
                    }
                    return Response::Integer(0);
                },
            }
        };
        let ghost cur = el@;
        assert(cur == db_current(before, dbindex as int, key@, now as int));
        r = match el.push(val, right) {
            Ok(listsize) => Response::Integer(listsize as i64),
            Err(err) => error_response(err.message()),
        };
        proof {
            rm = count_reply(op_push(cur, args[i as int], right).0);
        }
        db.put(dbindex, copy_key(&key), el);
        proof {
            assert(db@ =~= db_store(before, dbindex as int, key@, now as int, op_push(cur, args[i as int], right).1));
        }
        i = i + 1;
    }
    r
}

/// `LPUSH key value...`: pushes at the head; gives the list's new length.
pub fn lpush(parser: &ParsedCommand, db: &mut Database, dbindex: usize, now: i64) -> (r: Response)
    requires
        ready(parser, old(db), dbindex),
    ensures
        final(db).well_formed(),
        final(db).cfg() == old(db).cfg(),
        final(db).started() == old(db).started(),
        response_is(r, spec_generic_push(parser.args(), old(db)@, dbindex as int, false, true, now as int).0),
        final(db)@ == spec_generic_push(parser.args(), old(db)@, dbindex as int, false, true, now as int).1,
{
    generic_push(parser, db, dbindex, false, true, now)
}

/// `RPUSH key value...`: pushes at the tail; gives the list's new length.
pub fn rpush(parser: &ParsedCommand, db: &mut Database, dbindex: usize, now: i64) -> (r: Response)
    requires
        ready(parser, old(db), dbindex),
    ensures
        final(db).well_formed(),
        final(db).cfg() == old(db).cfg(),
        final(db).started() == old(db).started(),
        response_is(r, spec_generic_push(parser.args(), old(db)@, dbindex as int, true, true, now as int).0),
        final(db)@ == spec_generic_push(parser.args(), old(db)@, dbindex as int, true, true, now as int).1,
{
    generic_push(parser, db, dbindex, true, true, now)
}

/// `LPUSHX key value...`: pushes at the head of an existing list only.
pub fn lpushx(parser: &ParsedCommand, db: &mut Database, dbindex: usize, now: i64) -> (r: Response)
    requires
        ready(parser, old(db), dbindex),
    ensures
        final(db).well_formed(),
        final(db).cfg() == old(db).cfg(),
        final(db).started() == old(db).started(),
        response_is(r, spec_generic_push(parser.args(), old(db)@, dbindex as int, false, false, now as int).0),
        final(db)@ == spec_generic_push(parser.args(), old(db)@, dbindex as int, false, false, now as int).1,
{
    generic_push(parser, db, dbindex, false, false, now)
}

/// `RPUSHX key value...`: pushes at the tail of an existing list only.
pub fn rpushx(parser: &ParsedCommand, db: &mut Database, dbindex: usize, now: i64) -> (r: Response)
    requires
        ready(parser, old(db), dbindex),
    ensures
        final(db).well_formed(),
        final(db).cfg() == old(db).cfg(),
        final(db).started() == old(db).started(),
        response_is(r, spec_generic_push(parser.args(), old(db)@, dbindex as int, true, false, now as int).0),
        final(db)@ == spec_generic_push(parser.args(), old(db)@, dbindex as int, true, false, now as int).1,
{
    generic_push(parser, db, dbindex, true, false, now)
}

/// The reply for the outcome of a pop.
pub open spec fn pop_reply(r: Result<Option<Seq<u8>>, Seq<char>>) -> ResponseModel {
    match r {
        Ok(Some(v)) => ResponseModel::Data(v),
        Ok(None) => ResponseModel::Nil,
        Err(msg) => error(msg),
    }
}

/// `LPOP key` and `RPOP key`. An expired key is removed.
pub open spec fn spec_generic_pop(args: Seq<Seq<u8>>, m: DbModel, index: int, right: bool, now: int) -> (ResponseModel, DbModel) {
    if args.len() != 2 {
        (wrong_arity(args), m)
    } else if !is_live(m, index, args[1], now) {
        (ResponseModel::Nil, db_remove(m, index, args[1]))
    } else {
        let (res, nv) = op_pop(m.data[index][args[1]], right);
        (pop_reply(res), db_store(m, index, args[1], now, nv))
    }
}

/// Takes the element at the tail (`right`) or head of the list under the key named by
/// argument 1.
pub fn generic_pop(parser: &ParsedCommand, db: &mut Database, dbindex: usize, right: bool, now: i64) -> (r: Response)
    requires
        ready(parser, old(db), dbindex),
    ensures
        final(db).well_formed(),
        final(db).cfg() == old(db).cfg(),
        final(db).started() == old(db).started(),
        response_is(r, spec_generic_pop(parser.args(), old(db)@, dbindex as int, right, now as int).0),
        final(db)@ == spec_generic_pop(parser.args(), old(db)@, dbindex as int, right, now as int).1,
{
    if parser.argv.len() != 2 {
        return wrong_arguments(parser);
    }
    let key = argument(parser, 1);
    match db.take_at(dbindex, key.as_slice(), now) {
        Some(mut list) => {
            let r = match list.pop(right) {
                Ok(Some(val)) => Response::Data(val),
                Ok(None) => Response::Nil,
                Err(err) => error_response(err.message()),
            };
            db.put(dbindex, key, list);
            r
        },
        None => Response::Nil,
    }
}

/// `LPOP key`: takes the element at the head of the list.
pub fn lpop(parser: &ParsedCommand, db: &mut Database, dbindex: usize, now: i64) -> (r: Response)
    requires
        ready(parser, old(db), dbindex),
    ensures
        final(db).well_formed(),
        final(db).cfg() == old(db).cfg(),
        final(db).started() == old(db).started(),
        response_is(r, spec_generic_pop(parser.args(), old(db)@, dbindex as int, false, now as int).0),
        final(db)@ == spec_generic_pop(parser.args(), old(db)@, dbindex as int, false, now as int).1,
{
    generic_pop(parser, db, dbindex, false, now)
}

/// `RPOP key`: takes the element at the tail of the list.
pub fn rpop(parser: &ParsedCommand, db: &mut Database, dbindex: usize, now: i64) -> (r: Response)
    requires
        ready(parser, old(db), dbindex),
    ensures
        final(db).well_formed(),
        final(db).cfg() == old(db).cfg(),
        final(db).started() == old(db).started(),
        response_is(r, spec_generic_pop(parser.args(), old(db)@, dbindex as int, true, now as int).0),
        final(db)@ == spec_generic_pop(parser.args(), old(db)@, dbindex as int, true, now as int).1,
{
    generic_pop(parser, db, dbindex, true, now)
}

/// What moving the tail of the list `source` to the head of the list `destination` does:
/// nil (and no change) when `source` holds no live value or an empty list; a type error
/// (and no change) when `source`, or a live `destination`, holds something other than a
/// list; otherwise the element moves and is the reply.
pub open spec fn spec_generic_rpoplpush(m: DbModel, index: int, source: Seq<u8>, destination: Seq<u8>, now: int) -> (ResponseModel, DbModel) {
    match db_lookup(m, index, source, now) {
        None => (ResponseModel::Nil, m),
        Some(sv) => match sv {
            ValueModel::List(l) => if l.len() == 0 {
                (ResponseModel::Nil, m)
            } else {
                match db_lookup(m, index, destination, now) {
                    Some(dv) if !(dv is List) => (error(crate::value::wrong_type()), m),
                    _ => {
                        let el = l.last();
                        let m1 = db_store(m, index, source, now, ValueModel::List(l.drop_last()));
                        let (_, dv2) = op_push(db_current(m1, index, destination, now), el, false);
                        (ResponseModel::Data(el), db_store(m1, index, destination, now, dv2))
                    },
                }
            },
            _ => (error(crate::value::wrong_type()), m),
        },
    }
}

/// Moves the tail of one list to the head of another (see `spec_generic_rpoplpush`).
pub fn generic_rpoplpush(db: &mut Database, dbindex: usize, source: &[u8], destination: &[u8], now: i64) -> (r: Response)
    requires
        old(db).well_formed(),
        old(db).valid_index(dbindex as int),
    ensures
        final(db).well_formed(),
        final(db).cfg() == old(db).cfg(),
        final(db).started() == old(db).started(),
        response_is(r, spec_generic_rpoplpush(old(db)@, dbindex as int, source@, destination@, now as int).0),
        final(db)@ == spec_generic_rpoplpush(old(db)@, dbindex as int, source@, destination@, now as int).1,
{
    match db.get_at(dbindex, source, now) {
        None => {
            return Response::Nil;
        },
        Some(Value::List(l)) => {
            if l.llen() == 0 {
                return Response::Nil;
            }
        },
        Some(_) => {
            return error_response(OperationError::WrongTypeError.message());
        },
    }
    match db.get_at(dbindex, destination, now) {
        Some(Value::List(_)) => {},
        None => {},
        Some(_) => {
            return error_response(OperationError::WrongTypeError.message());
        },
    }
    let mut src = db.take_or_create_at(dbindex, source, now);
    let el = match src.pop(true) {
        Ok(Some(v)) => v,
        _ => {
            db.put(dbindex, crate::bytes::copy_bytes(source), src);
            return Response::Nil;
        },
    };
    db.put(dbindex, crate::bytes::copy_bytes(source), src);
    let mut dst = db.take_or_create_at(dbindex, destination, now);
    let reply = crate::bytes::copy_bytes(el.as_slice());
    let _ = dst.push(el, false);
    db.put(dbindex, crate::bytes::copy_bytes(destination), dst);
    Response::Data(reply)
}

/// `RPOPLPUSH source destination`.
pub open spec fn spec_rpoplpush(args: Seq<Seq<u8>>, m: DbModel, index: int, now: int) -> (ResponseModel, DbModel) {
    if args.len() != 3 {
        (wrong_arity(args), m)
    } else {
        spec_generic_rpoplpush(m, index, args[1], args[2], now)
    }
}

/// `RPOPLPUSH source destination`: moves the tail of one list to the head of another.
pub fn rpoplpush(parser: &ParsedCommand, db: &mut Database, dbindex: usize, now: i64) -> (r: Response)
    requires
        ready(parser, old(db), dbindex),
    ensures
        final(db).well_formed(),
        final(db).cfg() == old(db).cfg(),
        final(db).started() == old(db).started(),
        response_is(r, spec_rpoplpush(parser.args(), old(db)@, dbindex as int, now as int).0),
        final(db)@ == spec_rpoplpush(parser.args(), old(db)@, dbindex as int, now as int).1,
{
    if parser.argv.len() != 3 {
        return wrong_arguments(parser);
    }
    let source = argument(parser, 1);
    let destination = argument(parser, 2);
    generic_rpoplpush(db, dbindex, source.as_slice(), destination.as_slice(), now)
}

// ---------------------------------------------------------------------------------------
// Dispatch
// ---------------------------------------------------------------------------------------

/// Whether the command is called `name` (its name is read in any ASCII case).
pub open spec fn named(args: Seq<Seq<u8>>, name: &str) -> bool {
    args.len() > 0 && ascii_lowercase(args[0]) == name.spec_bytes()
}

/// The reply to a command that no handler knows.
pub open spec fn unknown_command(args: Seq<Seq<u8>>) -> ResponseModel {
    error("ERR unknown command '"@ + command_name(args) + "'"@)
}

/// What running a command does: no reply at all for an empty command; otherwise the
/// handler that the command's name selects gives the reply and the new keyspace.
#[verifier::opaque]
pub open spec fn spec_command(args: Seq<Seq<u8>>, m: DbModel, index: int, now: int) -> Option<(ResponseModel, DbModel)> {
    if args.len() == 0 {
        None
    } else {
        Some(
            if named(args, "set") { spec_set(args, m, index, now) }
            else if named(args, "setnx") { spec_setnx(args, m, index, now) }
            else if named(args, "setex") { spec_setex(args, m, index, now, false) }
            else if named(args, "psetex") { spec_setex(args, m, index, now, true) }
            else if named(args, "get") { (spec_get(args, m, index, now), m) }
            else if named(args, "mget") { (spec_mget(args, m, index, now), m) }
            else if named(args, "exists") { (spec_exists(args, m, index, now), m) }
            else if named(args, "del") { spec_del(args, m, index, now) }
            else if named(args, "debug") { (spec_debug(args, m, index, now), m) }
            else if named(args, "dbsize") { (spec_dbsize(args, m, index), m) }
            else if named(args, "dump") { (spec_dump_command(args, m, index, now), m) }
            else if named(args, "expire") { spec_expire(args, m, index, now) }
            else if named(args, "flushdb") { spec_flushdb(args, m, index) }
            else if named(args, "ttl") { (spec_ttl(args, m, index, 1000, now), m) }
            else if named(args, "pttl") { (spec_ttl(args, m, index, 1, now), m) }
            else if named(args, "persist") { spec_persist(args, m, index) }
            else if named(args, "type") { (spec_dbtype(args, m, index, now), m) }
            else if named(args, "flushall") { spec_flushall(args, m) }
            else if named(args, "append") { spec_append(args, m, index, now) }
            else if named(args, "getrange") { (spec_getrange(args, m, index, now), m) }
            else if named(args, "setrange") { spec_setrange(args, m, index, now) }
            else if named(args, "setbit") { spec_setbit(args, m, index, now) }
            else if named(args, "strlen") { (spec_strlen(args, m, index, now), m) }
            else if named(args, "incr") { spec_incr_by_one(args, m, index, 1, now) }
            else if named(args, "decr") { spec_incr_by_one(args, m, index, -1i64, now) }
            else if named(args, "incrby") { spec_incrby(args, m, index, false, now) }
            else if named(args, "decrby") { spec_incrby(args, m, index, true, now) }
            else if named(args, "lpush") { spec_generic_push(args, m, index, false, true, now) }
            else if named(args, "rpush") { spec_generic_push(args, m, index, true, true, now) }
            else if named(args, "lpushx") { spec_generic_push(args, m, index, false, false, now) }
            else if named(args, "rpushx") { spec_generic_push(args, m, index, true, false, now) }
            else if named(args, "lpop") { spec_generic_pop(args, m, index, false, now) }
            else if named(args, "rpop") { spec_generic_pop(args, m, index, true, now) }
            else if named(args, "rpoplpush") { spec_rpoplpush(args, m, index, now) }
            else { (unknown_command(args), m) },
        )
    }
}

/// Whether the command name `name` is `word` in any ASCII case.
fn is_named(parser: &ParsedCommand, name: &[u8], word: &str) -> (r: bool)
    requires
        parser.well_formed(),
        parser.argv@.len() > 0,
        name@ == parser.args()[0],
    ensures
        r == named(parser.args(), word),
{
    eq_lowercase(name, word.as_bytes())
}

fn unknown_command_response(parser: &ParsedCommand) -> (r: Response)
    requires
        parser.well_formed(),
    ensures
        response_is(r, unknown_command(parser.args())),
{
    let mut m = String::from_str("ERR unknown command '");
    if parser.argv.len() > 0 {
        match parser.get_str(0) {
            Ok(name) => {
                proof {
                    encode_utf8_decode_utf8(name@);
                    assert(parser.args()[0] == parser.arg(0));
                }
                m.append(name);
            },
            Err(_) => {
                assert(parser.args()[0] == parser.arg(0));
            },
        }
    }
    m.append("'");
    proof {
        if !(parser.argv@.len() > 0 && valid_utf8(parser.args()[0])) {
            assert(command_name(parser.args()) == Seq::<char>::empty());
        }
    }
    Response::Error(m)
}

/// Runs a command against database `dbindex` at time `now` (see `spec_command`): an empty
/// command is answered with no reply.
#[verifier::rlimit(40)]
pub fn command(parser: &ParsedCommand, db: &mut Database, dbindex: usize, now: i64) -> (r: Result<Response, ResponseError>)
    requires
        ready(parser, old(db), dbindex),
    ensures
        final(db).well_formed(),
        final(db).cfg() == old(db).cfg(),
        final(db).started() == old(db).started(),
        match spec_command(parser.args(), old(db)@, dbindex as int, now as int) {
            None => r matches Err(ResponseError::NoReply) && final(db)@ == old(db)@,
            Some((reply, m)) => r matches Ok(resp) && response_is(resp, reply) && final(db)@ == m,
        },
{
    proof {
        reveal(spec_command);
    }
    if parser.argv.len() == 0 {
        return Err(ResponseError::NoReply);
    }
    let name = argument(parser, 0);
    let n = name.as_slice();
    let r = if is_named(parser, n, "set") { set(parser, db, dbindex, now) }
    else if is_named(parser, n, "setnx") { setnx(parser, db, dbindex, now) }
    else if is_named(parser, n, "setex") { setex(parser, db, dbindex, now) }
    else if is_named(parser, n, "psetex") { psetex(parser, db, dbindex, now) }
    else if is_named(parser, n, "get") { get(parser, db, dbindex, now) }
    else if is_named(parser, n, "mget") { mget(parser, db, dbindex, now) }
    else if is_named(parser, n, "exists") { exists_key(parser, db, dbindex, now) }
    else if is_named(parser, n, "del") { del(parser, db, dbindex, now) }
    else if is_named(parser, n, "debug") { debug(parser, db, dbindex, now) }
    else if is_named(parser, n, "dbsize") { dbsize(parser, db, dbindex) }
    else if is_named(parser, n, "dump") { dump(parser, db, dbindex, now) }
    else if is_named(parser, n, "expire") { expire(parser, db, dbindex, now) }
    else if is_named(parser, n, "flushdb") { flushdb(parser, db, dbindex) }
    else if is_named(parser, n, "ttl") { ttl(parser, db, dbindex, now) }
    else if is_named(parser, n, "pttl") { pttl(parser, db, dbindex, now) }
    else if is_named(parser, n, "persist") { persist(parser, db, dbindex) }
    else if is_named(parser, n, "type") { dbtype(parser, db, dbindex, now) }
    else if is_named(parser, n, "flushall") { flushall(parser, db, dbindex) }
    else if is_named(parser, n, "append") { append(parser, db, dbindex, now) }
    else if is_named(parser, n, "getrange") { getrange(parser, db, dbindex, now) }
    else if is_named(parser, n, "setrange") { setrange(parser, db, dbindex, now) }
    else if is_named(parser, n, "setbit") { setbit(parser, db, dbindex, now) }
    else if is_named(parser, n, "strlen") { strlen(parser, db, dbindex, now) }
    else if is_named(parser, n, "incr") { incr(parser, db, dbindex, now) }
    else if is_named(parser, n, "decr") { decr(parser, db, dbindex, now) }
    else if is_named(parser, n, "incrby") { incrby(parser, db, dbindex, now) }
    else if is_named(parser, n, "decrby") { decrby(parser, db, dbindex, now) }
    else if is_named(parser, n, "lpush") { lpush(parser, db, dbindex, now) }
    else if is_named(parser, n, "rpush") { rpush(parser, db, dbindex, now) }
    else if is_named(parser, n, "lpushx") { lpushx(parser, db, dbindex, now) }
    else if is_named(parser, n, "rpushx") { rpushx(parser, db, dbindex, now) }
    else if is_named(parser, n, "lpop") { lpop(parser, db, dbindex, now) }
    else if is_named(parser, n, "rpop") { rpop(parser, db, dbindex, now) }
    else if is_named(parser, n, "rpoplpush") { rpoplpush(parser, db, dbindex, now) }
    else { unknown_command_response(parser) };
    Ok(r)
}

} // verus!
