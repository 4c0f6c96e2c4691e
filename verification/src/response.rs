use vstd::prelude::*;

use crate::decimal::{decimal_bytes, push_decimal_i64, push_decimal_u64, signed_decimal_bytes};
use crate::parser::OwnedParsedCommand;
use vstd::utf8::encode_utf8;

verus! {

/// A reply to a client.
#[derive(Debug, PartialEq)]
pub enum Response {
    Nil,
    Integer(i64),
    Data(Vec<u8>),
    Error(String),
    Status(String),
    Array(Vec<Response>),
}

/// `std::sync::mpsc::Receiver`, held by a reply that has to wait for another client.
#[verifier::external_type_specification]
#[verifier::external_body]
#[verifier::reject_recursive_types(T)]
pub struct ExReceiver<T>(std::sync::mpsc::Receiver<T>);

/// Why a command produced no reply to send right away.
#[derive(Debug)]
pub enum ResponseError {
    /// The command wants no reply at all.
    NoReply,
    /// The reply comes later, when a command arrives on the channel.
    Wait(std::sync::mpsc::Receiver<Option<OwnedParsedCommand>>),
}

/// What a reply says, with text as characters and bytes as sequences.
pub enum ResponseModel {
    Nil,
    Integer(i64),
    Data(Seq<u8>),
    Error(Seq<char>),
    Status(Seq<char>),
    Array(Seq<ResponseModel>),
}

/// Whether the reply `r`, which is not an array, says `m`.
pub open spec fn flat_response_is(r: Response, m: ResponseModel) -> bool {
    match (r, m) {
        (Response::Nil, ResponseModel::Nil) => true,
        (Response::Integer(a), ResponseModel::Integer(b)) => a == b,
        (Response::Data(a), ResponseModel::Data(b)) => a@ == b,
        (Response::Error(a), ResponseModel::Error(b)) => a@ == b,
        (Response::Status(a), ResponseModel::Status(b)) => a@ == b,
        _ => false,
    }
}

/// Whether the reply `r` says `m` (an array's elements are not arrays).
pub open spec fn response_is(r: Response, m: ResponseModel) -> bool {
    match (r, m) {
        (Response::Array(a), ResponseModel::Array(b)) => a@.len() == b.len() && forall|i: int|
            0 <= i < b.len() ==> flat_response_is(#[trigger] a@[i], b[i]),
        _ => flat_response_is(r, m),
    }
}

/// `\r\n`.
pub open spec fn crlf() -> Seq<u8> {
    seq![13u8, 10u8]
}

/// The wire form of a reply:
/// `$-1\r\n` for nil, `:n\r\n` for an integer, `$len\r\n` and the bytes and `\r\n` for data,
/// `-message\r\n` for an error, `+message\r\n` for a status, and `*count\r\n` followed by
/// the elements for an array. Text goes out as its UTF-8 bytes.
pub open spec fn encode_response(r: Response) -> Seq<u8>
    decreases r,
{
    match r {
        Response::Nil => seq![36u8, 45u8, 49u8] + crlf(),
        Response::Integer(i) => seq![58u8] + signed_decimal_bytes(i as int) + crlf(),
        Response::Data(d) => seq![36u8] + decimal_bytes(d@.len()) + crlf() + d@ + crlf(),
        Response::Error(s) => seq![45u8] + encode_utf8(s@) + crlf(),
        Response::Status(s) => seq![43u8] + encode_utf8(s@) + crlf(),
        Response::Array(a) => seq![42u8] + decimal_bytes(a@.len()) + crlf() + encode_responses(a@),
    }
}

/// The wire forms of a list of replies, one after the other.
pub open spec fn encode_responses(rs: Seq<Response>) -> Seq<u8>
    decreases rs,
{
    if rs.len() == 0 {
        Seq::empty()
    } else {
        encode_responses(rs.drop_last()) + encode_response(rs.last())
    }
}

/// Appends the bytes of `b` to `out`.
fn extend_bytes(out: &mut Vec<u8>, b: &[u8])
    ensures
        final(out)@ == old(out)@ + b@,
{
    let mut i: usize = 0;
    let ghost start = out@;
    while i < b.len()
        invariant
            i <= b@.len(),
            out@ == start + b@.take(i as int),
        decreases b@.len() - i,
    {
        out.push(b[i]);
        i = i + 1;
        assert(out@ =~= start + b@.take(i as int));
    }
    assert(b@.take(b@.len() as int) =~= b@);
}

impl Response {
    /// Appends the wire form of the reply to `out`.
    fn write_into(&self, out: &mut Vec<u8>)
        ensures
            final(out)@ == old(out)@ + encode_response(*self),
        decreases self,
    {
        let ghost start = out@;
        match self {
            Response::Nil => {
                out.push(36);
                out.push(45);
                out.push(49);
                out.push(13);
                out.push(10);
            },
            Response::Integer(i) => {
                out.push(58);
                push_decimal_i64(*i, out);
                out.push(13);
                out.push(10);
            },
            Response::Data(d) => {
                out.push(36);
                push_decimal_u64(d.len() as u64, out);
                out.push(13);
                out.push(10);
                extend_bytes(out, d.as_slice());
                out.push(13);
                out.push(10);
            },
            Response::Error(m) => {
                out.push(45);
                extend_bytes(out, m.as_str().as_bytes());
                out.push(13);
                out.push(10);
            },
            Response::Status(m) => {
                out.push(43);
                extend_bytes(out, m.as_str().as_bytes());
                out.push(13);
                out.push(10);
            },
            Response::Array(a) => {
                out.push(42);
                push_decimal_u64(a.len() as u64, out);
                out.push(13);
                out.push(10);
                let ghost header = out@;
                let mut i: usize = 0;
                while i < a.len()
                    invariant
                        i <= a@.len(),
                        *self == Response::Array(*a),
                        out@ == header + encode_responses(a@.take(i as int)),
                    decreases a@.len() - i,
                {
                    proof {
                        let v: Vec<Response> = *a;
                        assert(decreases_to!(*self => (*self)->Array_0));
                        assert((*self)->Array_0 == v);
                        assert(decreases_to!(v => v@));
                        assert(decreases_to!(v@ => v@[i as int]));
                    }
                    a[i].write_into(out);
                    assert(a@.take(i + 1).drop_last() =~= a@.take(i as int));
                    i = i + 1;
                }
                assert(a@.take(a@.len() as int) =~= a@);
            },
        }
        assert(final(out)@ =~= old(out)@ + encode_response(*self));
    }

    /// The wire form of the reply.
    pub fn as_bytes(&self) -> (r: Vec<u8>)
        ensures
            r@ == encode_response(*self),
    {
        let mut out: Vec<u8> = Vec::new();
        self.write_into(&mut out);
        assert(out@ =~= encode_response(*self));
        out
    }

    /// Whether the reply is an error.
    pub fn is_error(&self) -> (r: bool)
        ensures
            r == (self is Error),
    {
        match *self {
            Response::Error(_) => true,
            _ => false,
        }
    }

    /// Whether the reply is a status.
    pub fn is_status(&self) -> (r: bool)
        ensures
            r == (self is Status),
    {
        match *self {
            Response::Status(_) => true,
            _ => false,
        }
    }
}

} // verus!
