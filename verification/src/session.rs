use vstd::prelude::*;

use crate::bytes::eq_lowercase;
use crate::command::{command, named, spec_command};
use crate::database::{mstime, Database, DbModel};
use crate::parser::{spec_parse, windows, OwnedParsedCommand, Parsed, Parser, ParsedCommand};
use crate::response::{Response, ResponseModel, response_is};

verus! {

/// What a client connection does after bytes have been read into its buffer.
pub enum ClientAction {
    /// Read more bytes before anything else.
    Read,
    /// Send this reply, then read again.
    Reply(Response),
    /// Send this reply, then close the connection.
    Fail(Response),
    /// Close the connection.
    Close,
    /// Run this command outside the library (see `outside_command`), then read again.
    Forward(OwnedParsedCommand),
}

/// The plain form of a `ClientAction`.
pub enum ActionModel {
    Read,
    Reply(ResponseModel),
    Fail(ResponseModel),
    Close,
    Forward(Seq<Seq<u8>>),
}

/// Whether the action `a` is the one that `m` describes.
pub open spec fn action_is(a: ClientAction, m: ActionModel) -> bool {
    match (a, m) {
        (ClientAction::Read, ActionModel::Read) => true,
        (ClientAction::Reply(r), ActionModel::Reply(rm)) => response_is(r, rm),
        (ClientAction::Fail(r), ActionModel::Fail(rm)) => response_is(r, rm),
        (ClientAction::Close, ActionModel::Close) => true,
        (ClientAction::Forward(c), ActionModel::Forward(args)) => window_args(c.data@, windows(c.argv@)) == args,
        _ => false,
    }
}

/// The arguments that the windows `ws` pick out of `s`.
pub open spec fn window_args(s: Seq<u8>, ws: Seq<(int, int)>) -> Seq<Seq<u8>> {
    Seq::new(ws.len(), |i: int| s.subrange(ws[i].0, ws[i].0 + ws[i].1))
}

/// The commands whose work the library leaves to the program around it: `INCRBYFLOAT`,
/// which computes on floating-point numbers, and `MONITOR`, which hands the connection's
/// channel to the keyspace.
pub open spec fn outside_command(args: Seq<Seq<u8>>) -> bool {
    named(args, "incrbyfloat") || named(args, "monitor")
}

/// What a connection does with `pending`, what its buffer holds that no command has taken
/// yet: the action, the keyspace afterwards, and how many bytes the command read takes. A
/// buffer that holds part of a command waits for more; one that breaks the protocol is
/// answered with the error and closed; a complete command is handed out when it is an
/// outside command, and otherwise runs (see `spec_command`) and its reply, if it has one,
/// is sent.
pub open spec fn spec_serve(pending: Seq<u8>, m: DbModel, index: int, now: int) -> (ActionModel, DbModel, int) {
    match spec_parse(pending) {
        Parsed::Incomplete => (ActionModel::Read, m, 0),
        Parsed::Bad(msg) => (ActionModel::Fail(ResponseModel::Error("Protocol error: "@ + msg)), m, 0),
        Parsed::Done(ws, n) => {
            let args = window_args(pending, ws);
            if outside_command(args) {
                (ActionModel::Forward(args), m, n)
            } else {
                match spec_command(args, m, index, now) {
                    None => (ActionModel::Read, m, n),
                    Some((reply, m2)) => (ActionModel::Reply(reply), m2, n),
                }
            }
        },
    }
}

/// What a connection does once a read gave `received` more bytes and the buffer holds
/// `pending` that no command has taken: no bytes means the client has gone; otherwise the
/// buffer is served (see `spec_serve`).
pub open spec fn spec_client_step(received: nat, pending: Seq<u8>, m: DbModel, index: int, now: int) -> (ActionModel, DbModel, int) {
    if received == 0 {
        (ActionModel::Close, m, 0)
    } else {
        spec_serve(pending, m, index, now)
    }
}

proof fn lemma_args_are_windows(cmd: &ParsedCommand)
    requires
        cmd.well_formed(),
    ensures
        cmd.args() == window_args(cmd.data@, windows(cmd.argv@)),
{
    assert(cmd.args() =~= window_args(cmd.data@, windows(cmd.argv@)));
}

fn is_outside_command(cmd: &ParsedCommand) -> (r: bool)
    requires
        cmd.well_formed(),
    ensures
        r == outside_command(cmd.args()),
{
    if cmd.argv.len() == 0 {
        return false;
    }
    assert(cmd.has_arg(0));
    match cmd.get_slice(0) {
        Ok(name) => eq_lowercase(name, "incrbyfloat".as_bytes()) || eq_lowercase(name, "monitor".as_bytes()),
        Err(_) => false,
    }
}

/// Serves the bytes that the parser's buffer holds and no command has taken yet: takes the
/// next command from them, if there is a whole one, and runs it against database `dbindex`
/// at time `now` (see `spec_serve`).
pub fn serve_pending(parser: &mut Parser, db: &mut Database, dbindex: usize, now: i64) -> (r: ClientAction)
    requires
        old(parser).well_formed(),
        old(db).well_formed(),
        old(db).valid_index(dbindex as int),
    ensures
        final(parser).well_formed(),
        final(db).well_formed(),
        final(db).cfg() == old(db).cfg(),
        final(db).started() == old(db).started(),
        final(parser).buffer() == old(parser).buffer(),
        final(parser).written == old(parser).written,
        ({
            let (a, m, n) = spec_serve(old(parser).pending(), old(db)@, dbindex as int, now as int);
            &&& action_is(r, a)
            &&& final(db)@ == m
            &&& final(parser).position == old(parser).position + n
        }),
{
    match parser.next() {
        Err(e) => {
            if e.is_incomplete() {
                ClientAction::Read
            } else {
                ClientAction::Fail(Response::Error(e.response_string()))
            }
        },
        Ok(cmd) => {
            proof {
                lemma_args_are_windows(&cmd);
            }
            if is_outside_command(&cmd) {
                return ClientAction::Forward(cmd.into_owned());
            }
            match command(&cmd, db, dbindex, now) {
                Ok(resp) => ClientAction::Reply(resp),
                Err(_) => ClientAction::Read,
            }
        },
    }
}

/// One turn of a client connection, after `received` bytes were read into the parser's
/// buffer just past what it held (see `spec_client_step`).
pub fn client_step(parser: &mut Parser, db: &mut Database, dbindex: usize, received: usize, now: i64) -> (r: ClientAction)
    requires
        old(parser).well_formed(),
        received <= old(parser).buffer().len() - old(parser).written,
        old(db).well_formed(),
        old(db).valid_index(dbindex as int),
    ensures
        final(parser).well_formed(),
        final(db).well_formed(),
        final(db).cfg() == old(db).cfg(),
        final(db).started() == old(db).started(),
        final(parser).buffer() == old(parser).buffer(),
        final(parser).written == old(parser).written + received,
        ({
            let pending = old(parser).buffer().subrange(old(parser).position as int, old(parser).written + received);
            let (a, m, n) = spec_client_step(received as nat, pending, old(db)@, dbindex as int, now as int);
            &&& action_is(r, a)
            &&& final(db)@ == m
            &&& final(parser).position == old(parser).position + n
        }),
{
    if received == 0 {
        return ClientAction::Close;
    }
    let capacity = parser.data.len();
    assert(parser.written + received <= capacity);
    parser.written = parser.written + received;
    serve_pending(parser, db, dbindex, now)
}

/// `serve_pending` at the time the system clock gives: the turn is that of some moment from
/// the epoch on.
pub fn pending_turn(parser: &mut Parser, db: &mut Database, dbindex: usize) -> (r: ClientAction)
    requires
        old(parser).well_formed(),
        old(db).well_formed(),
        old(db).valid_index(dbindex as int),
    ensures
        final(parser).well_formed(),
        final(db).well_formed(),
        final(db).cfg() == old(db).cfg(),
        final(db).started() == old(db).started(),
        final(parser).buffer() == old(parser).buffer(),
        final(parser).written == old(parser).written,
        exists|now: int| #![trigger spec_serve(old(parser).pending(), old(db)@, dbindex as int, now)]
            0 <= now <= i64::MAX && ({
            let (a, m, n) = spec_serve(old(parser).pending(), old(db)@, dbindex as int, now);
            &&& action_is(r, a)
            &&& final(db)@ == m
            &&& final(parser).position == old(parser).position + n
        }),
{
    let now = mstime();
    serve_pending(parser, db, dbindex, now)
}

/// One turn of a client connection (see `client_step`) at the time the system clock gives:
/// the turn is that of some moment from the epoch on.
pub fn client_turn(parser: &mut Parser, db: &mut Database, dbindex: usize, received: usize) -> (r: ClientAction)
    requires
        old(parser).well_formed(),
        received <= old(parser).buffer().len() - old(parser).written,
        old(db).well_formed(),
        old(db).valid_index(dbindex as int),
    ensures
        final(parser).well_formed(),
        final(db).well_formed(),
        final(db).cfg() == old(db).cfg(),
        final(db).started() == old(db).started(),
        final(parser).buffer() == old(parser).buffer(),
        final(parser).written == old(parser).written + received,
        exists|now: int| #![trigger spec_client_step(received as nat, old(parser).buffer().subrange(old(parser).position as int, old(parser).written + received), old(db)@, dbindex as int, now)]
            0 <= now <= i64::MAX && ({
            let pending = old(parser).buffer().subrange(old(parser).position as int, old(parser).written + received);
            let (a, m, n) = spec_client_step(received as nat, pending, old(db)@, dbindex as int, now);
            &&& action_is(r, a)
            &&& final(db)@ == m
            &&& final(parser).position == old(parser).position + n
        }),
{
    let now = mstime();
    client_step(parser, db, dbindex, received, now)
}

} // verus!
