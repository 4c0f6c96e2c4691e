use vstd::prelude::*;
use vstd::slice::slice_to_vec;
use vstd::string::*;
use vstd::utf8::valid_utf8;

use crate::decimal::{decimal_bytes, lemma_decimal_bytes_digits, parse_i64, spec_parse_i64, all_digits, digits_value, is_digit, lemma_digits_value_prefix, lemma_digits_value_push};

verus! {

/// Carriage return.
pub const CR: u8 = 13;

/// Line feed.
pub const LF: u8 = 10;

/// The largest count or length that a protocol header may announce (512 MiB, the largest
/// bulk argument).
pub const MAX_HEADER_VALUE: usize = 536870912;

/// The largest number of arguments that a command may announce.
pub const MAX_ARGUMENTS: usize = 1048576;

/// One argument of a command, as a window on the command's bytes.
#[derive(Clone, Copy, Debug)]
pub struct Argument {
    pub pos: usize,
    pub len: usize,
}

/// A command whose arguments are windows on a borrowed buffer.
pub struct ParsedCommand<'a> {
    pub data: &'a [u8],
    pub argv: Vec<Argument>,
}

/// A command that owns the buffer its arguments point into.
pub struct OwnedParsedCommand {
    pub data: Vec<u8>,
    pub argv: Vec<Argument>,
}

/// Why a buffer did not yield a command.
#[derive(Debug)]
pub enum ParseError {
    /// The buffer holds the beginning of a command, but not all of it yet.
    Incomplete,
    /// The buffer does not follow the protocol; the string says where it departs from it.
    BadProtocol(String),
    /// A command argument was asked for as something it cannot be read as.
    InvalidArgument,
}

// ---------------------------------------------------------------------------------------
// The grammar
// ---------------------------------------------------------------------------------------

/// What a header line (`[-]digits\r\n`) at the start of a buffer is read as.
pub enum IntLine {
    /// The buffer ends before the line does.
    Incomplete,
    /// A byte other than a digit ends the number, or the number is too large.
    BadLength,
    /// The `\r` that ends the number is not followed by `\n`.
    BadSeparator,
    /// A complete line: its value (`None` for a negative or empty number) and its length,
    /// `\r\n` included.
    Done(Option<nat>, nat),
}

/// The outcome of skipping the empty lines in front of a command.
pub enum Skip {
    Incomplete,
    Bad(Seq<char>),
    At(int),
}

/// What a buffer is read as: not yet a command, not a command at all, or a command given as
/// the `(position, length)` windows of its arguments and the number of bytes it takes.
pub enum Parsed {
    Incomplete,
    Bad(Seq<char>),
    Done(Seq<(int, int)>, int),
}

/// The message for a header whose number is not one.
pub open spec fn length_error(name: Seq<char>) -> Seq<char> {
    "invalid "@ + name + " length"@
}

/// The message for a `\r` that is not followed by `\n`.
pub open spec fn separator_error() -> Seq<char> {
    "expected \\r\\n separator"@
}

/// The message for a command that does not start with `*`.
pub open spec fn star_error() -> Seq<char> {
    "expected '*'"@
}

/// The message for an argument that does not start with `$`.
pub open spec fn dollar_error() -> Seq<char> {
    "expected '$'"@
}

/// The first index at or after `i` that does not hold a digit (or the end of `s`).
pub open spec fn digit_run_end(s: Seq<u8>, i: int) -> int
    decreases s.len() - i,
{
    if i < 0 || i >= s.len() || !is_digit(s[i]) {
        i
    } else {
        digit_run_end(s, i + 1)
    }
}

/// How a header line at the start of `s` is read: an optional `-`, a run of digits, `\r\n`.
/// A run whose value exceeds `MAX_HEADER_VALUE` is refused as soon as it is seen.
pub open spec fn spec_parse_int(s: Seq<u8>) -> IntLine {
    if s.len() == 0 {
        IntLine::Incomplete
    } else {
        let neg = s[0] == 45;
        let start: int = if neg { 1 } else { 0 };
        let e = digit_run_end(s, start);
        let v = digits_value(s.subrange(start, e));
        if !neg && v > MAX_HEADER_VALUE {
            IntLine::BadLength
        } else if e == s.len() {
            IntLine::Incomplete
        } else if s[e] != CR {
            IntLine::BadLength
        } else if e + 1 == s.len() {
            IntLine::Incomplete
        } else if s[e + 1] != LF {
            IntLine::BadSeparator
        } else {
            IntLine::Done(if neg || e == start { None } else { Some(v) }, (e + 2) as nat)
        }
    }
}

/// Skips the empty lines (`\r\n`) that may stand before a command, from index `p`.
pub open spec fn skip_blank_lines(s: Seq<u8>, p: int) -> Skip
    decreases s.len() - p,
{
    if 0 <= p < s.len() && s[p] == CR {
        if p + 1 < s.len() {
            if s[p + 1] != LF {
                Skip::Bad(separator_error())
            } else {
                skip_blank_lines(s, p + 2)
            }
        } else {
            Skip::Incomplete
        }
    } else {
        Skip::At(p)
    }
}

/// Puts the argument window `w` in front of the arguments that the rest of a buffer yields.
pub open spec fn prepend_arg(w: (int, int), rest: Parsed) -> Parsed {
    match rest {
        Parsed::Done(args, end) => Parsed::Done(seq![w] + args, end),
        other => other,
    }
}

/// Reads `n` bulk arguments (`$len\r\n`, `len` bytes, `\r\n`) from index `pos` of `s`.
pub open spec fn parse_bulks(s: Seq<u8>, pos: int, n: nat) -> Parsed
    decreases n,
{
    if n == 0 {
        Parsed::Done(Seq::empty(), pos)
    } else if pos >= s.len() {
        Parsed::Incomplete
    } else if s[pos] != 36 {
        Parsed::Bad(dollar_error())
    } else {
        match spec_parse_int(s.subrange(pos + 1, s.len() as int)) {
            IntLine::Incomplete => Parsed::Incomplete,
            IntLine::BadLength => Parsed::Bad(length_error("bulk"@)),
            IntLine::BadSeparator => Parsed::Bad(separator_error()),
            IntLine::Done(None, _) => Parsed::Bad(length_error("bulk"@)),
            IntLine::Done(Some(l), k) => {
                let start = pos + 1 + k;
                if start + l + 2 > s.len() {
                    Parsed::Incomplete
                } else if s[start + l] != CR || s[start + l + 1] != LF {
                    Parsed::Bad(separator_error())
                } else {
                    prepend_arg((start, l as int), parse_bulks(s, start + l + 2, (n - 1) as nat))
                }
            },
        }
    }
}

/// How a buffer is read: empty lines, then `*count\r\n`, then `count` bulk arguments.
/// A negative or empty count stands for no argument.
pub open spec fn spec_parse(s: Seq<u8>) -> Parsed {
    match skip_blank_lines(s, 0) {
        Skip::Incomplete => Parsed::Incomplete,
        Skip::Bad(m) => Parsed::Bad(m),
        Skip::At(p) => {
            if p >= s.len() {
                Parsed::Incomplete
            } else if s[p] != 42 {
                Parsed::Bad(star_error())
            } else {
                match spec_parse_int(s.subrange(p + 1, s.len() as int)) {
                    IntLine::Incomplete => Parsed::Incomplete,
                    IntLine::BadLength => Parsed::Bad(length_error("multibulk"@)),
                    IntLine::BadSeparator => Parsed::Bad(separator_error()),
                    IntLine::Done(v, k) => {
                        let argc: nat = match v {
                            Some(n) => n,
                            None => 0,
                        };
                        if argc > MAX_ARGUMENTS {
                            Parsed::Bad(length_error("multibulk"@))
                        } else {
                            parse_bulks(s, p + 1 + k, argc)
                        }
                    },
                }
            }
        },
    }
}

/// The argument windows of a command as pairs of integers.
pub open spec fn windows(argv: Seq<Argument>) -> Seq<(int, int)> {
    argv.map_values(|a: Argument| (a.pos as int, a.len as int))
}

/// Whether the error `e` is what the parse outcome `p` says (which must be an error).
pub open spec fn error_matches(e: ParseError, p: Parsed) -> bool {
    match p {
        Parsed::Incomplete => e is Incomplete,
        Parsed::Bad(m) => e matches ParseError::BadProtocol(s) && s@ == m,
        Parsed::Done(..) => false,
    }
}

/// Whether `r`, the result of reading a header line named `name`, is what `l` says.
pub open spec fn int_result_matches(
    r: Result<(Option<usize>, usize), ParseError>,
    l: IntLine,
    name: Seq<char>,
) -> bool {
    match l {
        IntLine::Incomplete => r matches Err(ParseError::Incomplete),
        IntLine::BadLength => r matches Err(ParseError::BadProtocol(m)) && m@ == length_error(
            name,
        ),
        IntLine::BadSeparator => r matches Err(ParseError::BadProtocol(m)) && m@
            == separator_error(),
        IntLine::Done(v, k) => r matches Ok((rv, rk)) && rk == k && match (rv, v) {
            (None, None) => true,
            (Some(a), Some(b)) => a == b,
            _ => false,
        },
    }
}

// ---------------------------------------------------------------------------------------
// Facts about the grammar
// ---------------------------------------------------------------------------------------

proof fn lemma_digit_run_end_bounds(s: Seq<u8>, i: int)
    requires
        0 <= i <= s.len(),
    ensures
        i <= digit_run_end(s, i) <= s.len(),
        digit_run_end(s, i) < s.len() ==> !is_digit(s[digit_run_end(s, i)]),
        all_digits(s.subrange(i, digit_run_end(s, i))),
    decreases s.len() - i,
{
    if i < s.len() && is_digit(s[i]) {
        lemma_digit_run_end_bounds(s, i + 1);
        let e = digit_run_end(s, i);
        assert forall|j: int| 0 <= j < e - i implies is_digit(#[trigger] s.subrange(i, e)[j]) by {
            if j > 0 {
                assert(s.subrange(i, e)[j] == s.subrange(i + 1, e)[j - 1]);
            }
        }
    }
}

/// Bytes after the end of a digit run do not change where it ends.
proof fn lemma_digit_run_end_extend(s: Seq<u8>, t: Seq<u8>, i: int)
    requires
        0 <= i <= s.len(),
        digit_run_end(s, i) < s.len(),
    ensures
        digit_run_end(s + t, i) == digit_run_end(s, i),
    decreases s.len() - i,
{
    if i < s.len() && is_digit(s[i]) {
        lemma_digit_run_end_extend(s, t, i + 1);
    }
}

/// The wire form of one bulk argument: `$`, its length in decimal, `\r\n`, the bytes, `\r\n`.
pub open spec fn encode_bulk(arg: Seq<u8>) -> Seq<u8> {
    seq![36u8] + decimal_bytes(arg.len()) + seq![CR, LF] + arg + seq![CR, LF]
}

/// The wire form of a list of bulk arguments, one after the other.
pub open spec fn encode_bulks(args: Seq<Seq<u8>>) -> Seq<u8>
    decreases args.len(),
{
    if args.len() == 0 {
        Seq::empty()
    } else {
        encode_bulk(args[0]) + encode_bulks(args.drop_first())
    }
}

/// The wire form of a command: `*`, the number of arguments, `\r\n`, then the arguments.
pub open spec fn encode_command(args: Seq<Seq<u8>>) -> Seq<u8> {
    seq![42u8] + decimal_bytes(args.len()) + seq![CR, LF] + encode_bulks(args)
}

/// Whether the windows `ws` on `s` pick out exactly the arguments `args`.
pub open spec fn windows_hold(s: Seq<u8>, ws: Seq<(int, int)>, args: Seq<Seq<u8>>) -> bool {
    &&& ws.len() == args.len()
    &&& forall|i: int|
        0 <= i < ws.len() ==> {
            &&& #[trigger] ws[i].1 == args[i].len()
            &&& 0 <= ws[i].0
            &&& ws[i].0 + ws[i].1 <= s.len()
            &&& s.subrange(ws[i].0, ws[i].0 + ws[i].1) == args[i]
        }
}

proof fn lemma_digit_run_end_at(s: Seq<u8>, i: int, e: int)
    requires
        0 <= i <= e <= s.len(),
        forall|j: int| i <= j < e ==> is_digit(#[trigger] s[j]),
        e == s.len() || !is_digit(s[e]),
    ensures
        digit_run_end(s, i) == e,
    decreases e - i,
{
    if i < e {
        lemma_digit_run_end_at(s, i + 1, e);
    }
}

/// A header line written as digits and `\r\n` reads back as its number, whatever follows.
pub proof fn lemma_parse_int_decimal(n: nat, t: Seq<u8>)
    requires
        n <= MAX_HEADER_VALUE,
    ensures
        spec_parse_int(decimal_bytes(n) + seq![CR, LF] + t) == IntLine::Done(
            Some(n),
            decimal_bytes(n).len() + 2,
        ),
{
    let d = decimal_bytes(n);
    let s = d + seq![CR, LF] + t;
    lemma_decimal_bytes_digits(n);
    assert forall|j: int| 0 <= j < d.len() implies is_digit(#[trigger] s[j]) by {
        assert(s[j] == d[j]);
    }
    assert(s[d.len() as int] == CR);
    lemma_digit_run_end_at(s, 0, d.len() as int);
    assert(s.subrange(0, d.len() as int) =~= d);
    assert(s[0] == d[0]);
    assert(s[d.len() as int + 1] == LF);
}

/// Arguments written in wire form read back as the same arguments, whatever stands before
/// and after them.
#[verifier::spinoff_prover]
#[verifier::rlimit(40)]
pub proof fn lemma_parse_bulks_encoded(pre: Seq<u8>, args: Seq<Seq<u8>>, rest: Seq<u8>)
    requires
        forall|i: int| 0 <= i < args.len() ==> (#[trigger] args[i]).len() <= MAX_HEADER_VALUE,
    ensures
        ({
            let s = pre + encode_bulks(args) + rest;
            &&& parse_bulks(s, pre.len() as int, args.len()) matches Parsed::Done(ws, end)
            &&& end == pre.len() + encode_bulks(args).len()
            &&& windows_hold(s, ws, args)
        }),
    decreases args.len(),
{
    let s = pre + encode_bulks(args) + rest;
    if args.len() == 0 {
        assert(encode_bulks(args) =~= Seq::<u8>::empty());
    } else {
        let a = args[0];
        let tail = args.drop_first();
        let d = decimal_bytes(a.len());
        let pos = pre.len() as int;
        let after = a + seq![CR, LF] + encode_bulks(tail) + rest;
        assert(s =~= pre + seq![36u8] + (d + seq![CR, LF] + after));
        assert(s.subrange(pos + 1, s.len() as int) =~= d + seq![CR, LF] + after);
        lemma_parse_int_decimal(a.len(), after);
        let k = d.len() + 2;
        let start = pos + 1 + k;
        assert(s[pos] == 36u8);
        assert(s.subrange(start, start + a.len()) =~= a);
        assert(s[start + a.len()] == CR);
        assert(s[start + a.len() + 1] == LF);
        let pre2 = pre + encode_bulk(a);
        assert forall|i: int| 0 <= i < tail.len() implies (#[trigger] tail[i]).len() <= MAX_HEADER_VALUE by {
            assert(tail[i] == args[i + 1]);
        }
        lemma_parse_bulks_encoded(pre2, tail, rest);
        assert(pre2 + encode_bulks(tail) + rest =~= s);
        assert(pre2.len() == start + a.len() + 2);
        let next = parse_bulks(s, start + a.len() + 2, tail.len());
        match next {
            Parsed::Done(ws2, end2) => {
                let ws = seq![(start, a.len() as int)] + ws2;
                assert(parse_bulks(s, pos, args.len()) == Parsed::Done(ws, end2));
                assert forall|i: int| 0 <= i < ws.len() implies {
                    &&& #[trigger] ws[i].1 == args[i].len()
                    &&& 0 <= ws[i].0
                    &&& ws[i].0 + ws[i].1 <= s.len()
                    &&& s.subrange(ws[i].0, ws[i].0 + ws[i].1) == args[i]
                } by {
                    if i > 0 {
                        assert(ws[i] == ws2[i - 1]);
                        assert(args[i] == tail[i - 1]);
                    }
                }
            },
            _ => {},
        }
    }
}

/// What a read gives back of a write: a command in wire form, followed by anything at all,
/// reads back as exactly its arguments and takes exactly its own bytes.
pub proof fn lemma_parse_encoded_command(args: Seq<Seq<u8>>, rest: Seq<u8>)
    requires
        args.len() <= MAX_ARGUMENTS,
        forall|i: int| 0 <= i < args.len() ==> (#[trigger] args[i]).len() <= MAX_HEADER_VALUE,
    ensures
        ({
            let s = encode_command(args) + rest;
            &&& spec_parse(s) matches Parsed::Done(ws, n)
            &&& n == encode_command(args).len()
            &&& windows_hold(s, ws, args)
        }),
{
    let s = encode_command(args) + rest;
    let d = decimal_bytes(args.len());
    assert(s[0] == 42u8);
    assert(skip_blank_lines(s, 0) == Skip::At(0));
    let after = encode_bulks(args) + rest;
    assert(s.subrange(1, s.len() as int) =~= d + seq![CR, LF] + after);
    lemma_parse_int_decimal(args.len(), after);
    let pre = seq![42u8] + d + seq![CR, LF];
    lemma_parse_bulks_encoded(pre, args, rest);
    assert(pre + encode_bulks(args) + rest =~= s);
}

proof fn lemma_digit_run_end_take(s: Seq<u8>, j: int, i: int)
    requires
        0 <= i <= j <= s.len(),
    ensures
        digit_run_end(s.take(j), i) == (if digit_run_end(s, i) < j { digit_run_end(s, i) } else { j }),
    decreases j - i,
{
    lemma_digit_run_end_bounds(s, i);
    if i < j && is_digit(s[i]) {
        lemma_digit_run_end_take(s, j, i + 1);
    }
}

/// A header line read from a prefix of `u`: every prefix shorter than the line waits for
/// more bytes, and every prefix that holds the whole line reads it as `u` does.
proof fn lemma_parse_int_take(u: Seq<u8>, j: int)
    requires
        spec_parse_int(u) is Done,
        0 <= j <= u.len(),
    ensures
        ({
            let kk = spec_parse_int(u)->Done_1;
            &&& j < kk ==> spec_parse_int(u.take(j)) is Incomplete
            &&& j >= kk ==> spec_parse_int(u.take(j)) == spec_parse_int(u)
        }),
{
    let neg = u[0] == 45;
    let start: int = if neg { 1 } else { 0 };
    let e = digit_run_end(u, start);
    lemma_digit_run_end_bounds(u, start);
    if j > 0 {
        let t = u.take(j);
        assert(t[0] == u[0]);
        lemma_digit_run_end_take(u, j, start);
        let e2 = digit_run_end(t, start);
        let run = u.subrange(start, e);
        assert(t.subrange(start, e2) =~= run.take(e2 - start));
        lemma_digits_value_prefix(run, e2 - start);
        if e < j {
            assert(t.subrange(start, e2) =~= run);
            assert(t[e] == u[e]);
            if e + 1 < j {
                assert(t[e + 1] == u[e + 1]);
            }
        }
    }
}

/// The empty lines skipped in a prefix of `s`: a prefix that reaches past them finds the
/// same start; a shorter one ends inside them.
proof fn lemma_skip_blank_lines_take(s: Seq<u8>, p: int, k: int)
    requires
        skip_blank_lines(s, p) is At,
        0 <= p <= k <= s.len(),
    ensures
        skip_blank_lines(s, p)->At_0 >= p,
        k > skip_blank_lines(s, p)->At_0 ==> skip_blank_lines(s.take(k), p) == skip_blank_lines(s, p),
        k <= skip_blank_lines(s, p)->At_0 ==> (skip_blank_lines(s.take(k), p) is Incomplete
            || skip_blank_lines(s.take(k), p) == Skip::At(k)),
    decreases s.len() - p,
{
    let t = s.take(k);
    if p < s.len() && s[p] == CR {
        let k2 = if k >= p + 2 { k } else { p + 2 };
        lemma_skip_blank_lines_take(s, p + 2, k2);
        if p < k {
            assert(t[p] == s[p]);
            if p + 1 < k {
                assert(t[p + 1] == s[p + 1]);
            }
        }
    } else if p < k {
        assert(t[p] == s[p]);
    }
}

/// Bulk arguments read from a prefix of `s` that ends before the last of them: the
/// reading waits for more bytes.
proof fn lemma_parse_bulks_take(s: Seq<u8>, pos: int, n: nat, k: int)
    requires
        parse_bulks(s, pos, n) is Done,
        0 <= pos <= k < parse_bulks(s, pos, n)->Done_1,
        k <= s.len(),
    ensures
        parse_bulks(s.take(k), pos, n) is Incomplete,
    decreases n,
{
    let t = s.take(k);
    if n > 0 && pos < k {
        assert(t[pos] == s[pos]);
        let u = s.subrange(pos + 1, s.len() as int);
        assert(t.subrange(pos + 1, t.len() as int) =~= u.take(k - pos - 1));
        lemma_parse_int_take(u, k - pos - 1);
        if let IntLine::Done(Some(l), kk) = spec_parse_int(u) {
            let start = pos + 1 + kk;
            if start + l + 2 <= k {
                assert(t[start + l] == s[start + l]);
                assert(t[start + l + 1] == s[start + l + 1]);
                lemma_parse_bulks_take(s, start + l + 2, (n - 1) as nat, k);
            }
        }
    }
}

/// A read waits for more bytes on every proper prefix of a buffer that holds a whole
/// command: no part of a command is ever taken for a command.
pub proof fn lemma_parse_prefix_incomplete(s: Seq<u8>, k: int)
    requires
        spec_parse(s) is Done,
        0 <= k < spec_parse(s)->Done_1,
        k <= s.len(),
    ensures
        spec_parse(s.take(k)) is Incomplete,
{
    let t = s.take(k);
    lemma_skip_blank_lines_take(s, 0, k);
    if let Skip::At(p) = skip_blank_lines(s, 0) {
        assert(p >= 0);
        if p < k {
            assert(t[p] == s[p]);
            let u = s.subrange(p + 1, s.len() as int);
            assert(t.subrange(p + 1, t.len() as int) =~= u.take(k - p - 1));
            lemma_parse_int_take(u, k - p - 1);
            if let IntLine::Done(v, kk) = spec_parse_int(u) {
                if k - p - 1 >= kk {
                    let argc: nat = match v {
                        Some(n) => n,
                        None => 0,
                    };
                    lemma_parse_bulks_take(s, p + 1 + kk, argc, k);
                }
            }
        }
    }
}

proof fn lemma_digit_run_end_agree(u: Seq<u8>, w: Seq<u8>, i: int)
    requires
        0 <= i <= u.len(),
        digit_run_end(u, i) < u.len(),
        digit_run_end(u, i) < w.len(),
        forall|j: int| i <= j <= digit_run_end(u, i) ==> w[j] == u[j],
    ensures
        digit_run_end(w, i) == digit_run_end(u, i),
    decreases u.len() - i,
{
    lemma_digit_run_end_bounds(u, i);
    assert(w[i] == u[i]);
    if is_digit(u[i]) {
        lemma_digit_run_end_agree(u, w, i + 1);
    }
}

/// A header line is read the same from any buffer that starts with the same bytes, as far
/// as the line goes.
proof fn lemma_parse_int_agree(u: Seq<u8>, w: Seq<u8>)
    requires
        spec_parse_int(u) is Done,
        spec_parse_int(u)->Done_1 <= w.len(),
        forall|j: int| 0 <= j < spec_parse_int(u)->Done_1 ==> w[j] == u[j],
    ensures
        spec_parse_int(w) == spec_parse_int(u),
{
    let neg = u[0] == 45;
    let start: int = if neg { 1 } else { 0 };
    let e = digit_run_end(u, start);
    lemma_digit_run_end_bounds(u, start);
    assert(w[0] == u[0]);
    lemma_digit_run_end_agree(u, w, start);
    assert(w.subrange(start, e) =~= u.subrange(start, e));
    assert(w[e] == u[e]);
    assert(w[e + 1] == u[e + 1]);
}

proof fn lemma_parse_int_length(u: Seq<u8>)
    requires
        spec_parse_int(u) is Done,
    ensures
        2 <= spec_parse_int(u)->Done_1 <= u.len(),
{
    let start: int = if u[0] == 45 { 1 } else { 0 };
    lemma_digit_run_end_bounds(u, start);
}

/// Where the bulk arguments read from `pos` end, and that each argument lies between `pos`
/// and that end.
proof fn lemma_parse_bulks_bounds(s: Seq<u8>, pos: int, n: nat)
    requires
        parse_bulks(s, pos, n) is Done,
        0 <= pos <= s.len(),
    ensures
        pos <= parse_bulks(s, pos, n)->Done_1 <= s.len(),
        n > 0 ==> pos < parse_bulks(s, pos, n)->Done_1,
        forall|i: int|
            0 <= i < parse_bulks(s, pos, n)->Done_0.len() ==> pos <= (#[trigger] parse_bulks(s, pos, n)->Done_0[i]).0
                && 0 <= parse_bulks(s, pos, n)->Done_0[i].1
                && parse_bulks(s, pos, n)->Done_0[i].0 + parse_bulks(s, pos, n)->Done_0[i].1 <= parse_bulks(s, pos, n)->Done_1,
    decreases n,
{
    if n > 0 {
        let u = s.subrange(pos + 1, s.len() as int);
        if let IntLine::Done(Some(l), kk) = spec_parse_int(u) {
            let start = pos + 1 + kk;
            lemma_parse_int_length(u);
            lemma_parse_bulks_bounds(s, start + l + 2, (n - 1) as nat);
            let ws2 = parse_bulks(s, start + l + 2, (n - 1) as nat)->Done_0;
            let ws = parse_bulks(s, pos, n)->Done_0;
            assert(ws == seq![(start, l as int)] + ws2);
            assert forall|i: int| 0 <= i < ws.len() implies pos <= (#[trigger] ws[i]).0 && 0 <= ws[i].1
                && ws[i].0 + ws[i].1 <= parse_bulks(s, pos, n)->Done_1 by {
                if i > 0 {
                    assert(ws[i] == ws2[i - 1]);
                } else {
                    assert(ws[0] == (start, l as int));
                }
            }
        }
    }
}

/// Bulk arguments are read the same from any buffer that starts with the same bytes, as far
/// as the arguments go.
proof fn lemma_parse_bulks_agree(s: Seq<u8>, b: Seq<u8>, pos: int, n: nat)
    requires
        parse_bulks(s, pos, n) is Done,
        0 <= pos <= s.len(),
        parse_bulks(s, pos, n)->Done_1 <= b.len(),
        forall|j: int| 0 <= j < parse_bulks(s, pos, n)->Done_1 ==> b[j] == s[j],
    ensures
        parse_bulks(b, pos, n) == parse_bulks(s, pos, n),
    decreases n,
{
    if n > 0 {
        lemma_parse_bulks_bounds(s, pos, n);
        let end = parse_bulks(s, pos, n)->Done_1;
        assert(b[pos] == s[pos]);
        let u = s.subrange(pos + 1, s.len() as int);
        let w = b.subrange(pos + 1, b.len() as int);
        if let IntLine::Done(Some(l), kk) = spec_parse_int(u) {
            let start = pos + 1 + kk;
            lemma_parse_int_length(u);
            lemma_parse_bulks_bounds(s, start + l + 2, (n - 1) as nat);
            assert forall|j: int| 0 <= j < kk implies w[j] == u[j] by {
                assert(w[j] == b[pos + 1 + j]);
                assert(u[j] == s[pos + 1 + j]);
            }
            lemma_parse_int_agree(u, w);
            assert(b[start + l] == s[start + l]);
            assert(b[start + l + 1] == s[start + l + 1]);
            lemma_parse_bulks_agree(s, b, start + l + 2, (n - 1) as nat);
        }
    }
}

/// The empty lines in front of a command are skipped the same in any buffer that starts
/// with the same bytes, up to where the command starts.
proof fn lemma_skip_blank_lines_agree(s: Seq<u8>, b: Seq<u8>, p: int)
    requires
        skip_blank_lines(s, p) is At,
        0 <= p,
        skip_blank_lines(s, p)->At_0 < s.len(),
        skip_blank_lines(s, p)->At_0 < b.len(),
        forall|j: int| p <= j <= skip_blank_lines(s, p)->At_0 ==> b[j] == s[j],
    ensures
        skip_blank_lines(b, p) == skip_blank_lines(s, p),
        skip_blank_lines(s, p)->At_0 >= p,
    decreases s.len() - p,
{
    if p < s.len() && s[p] == CR {
        lemma_skip_blank_lines_agree(s, b, p + 2);
        assert(b[p] == s[p]);
        assert(b[p + 1] == s[p + 1]);
    } else {
        assert(b[p] == s[p]);
    }
}

/// What follows a whole command in the buffer does not change how it is read: any buffer
/// that starts with the bytes the command takes reads as the same command, taking the same
/// bytes, and its arguments are the same bytes.
pub proof fn lemma_parse_trailing_bytes(s: Seq<u8>, b: Seq<u8>)
    requires
        spec_parse(s) is Done,
        spec_parse(s)->Done_1 <= b.len(),
        forall|j: int| 0 <= j < spec_parse(s)->Done_1 ==> b[j] == s[j],
    ensures
        spec_parse(b) == spec_parse(s),
        spec_parse(s)->Done_1 <= s.len(),
        forall|i: int|
            0 <= i < spec_parse(s)->Done_0.len() ==> {
                let w = #[trigger] spec_parse(s)->Done_0[i];
                &&& 0 <= w.0
                &&& 0 <= w.1
                &&& w.0 + w.1 <= spec_parse(s)->Done_1
                &&& b.subrange(w.0, w.0 + w.1) == s.subrange(w.0, w.0 + w.1)
            },
{
    let n = spec_parse(s)->Done_1;
    if let Skip::At(p) = skip_blank_lines(s, 0) {
        let u = s.subrange(p + 1, s.len() as int);
        lemma_skip_blank_lines_take(s, 0, 0);
        if let IntLine::Done(v, kk) = spec_parse_int(u) {
            let argc: nat = match v {
                Some(c) => c,
                None => 0,
            };
            lemma_parse_int_length(u);
            lemma_parse_bulks_bounds(s, p + 1 + kk, argc);
            lemma_skip_blank_lines_agree(s, b, 0);
            assert(b[p] == s[p]);
            let w = b.subrange(p + 1, b.len() as int);
            assert forall|j: int| 0 <= j < kk implies w[j] == u[j] by {
                assert(w[j] == b[p + 1 + j]);
                assert(u[j] == s[p + 1 + j]);
            }
            lemma_parse_int_agree(u, w);
            lemma_parse_bulks_agree(s, b, p + 1 + kk, argc);
            let ws = spec_parse(s)->Done_0;
            assert forall|i: int| 0 <= i < ws.len() implies 0 <= (#[trigger] ws[i]).0 && 0 <= ws[i].1
                && ws[i].0 + ws[i].1 <= n
                && b.subrange(ws[i].0, ws[i].0 + ws[i].1) == s.subrange(ws[i].0, ws[i].0 + ws[i].1) by {
                assert(b.subrange(ws[i].0, ws[i].0 + ws[i].1) =~= s.subrange(ws[i].0, ws[i].0 + ws[i].1));
            }
        }
    }
}

// ---------------------------------------------------------------------------------------
// The reader
// ---------------------------------------------------------------------------------------

fn bad_protocol(msg: &str) -> (e: ParseError)
    ensures
        e matches ParseError::BadProtocol(m) && m@ == msg@,
{
    ParseError::BadProtocol(String::from_str(msg))
}

fn bad_length(name: &str) -> (e: ParseError)
    ensures
        e matches ParseError::BadProtocol(m) && m@ == length_error(name@),
{
    let mut m = String::from_str("invalid ");
    m.append(name);
    m.append(" length");
    ParseError::BadProtocol(m)
}

/// Reads a header line from the first `len` bytes of `input`: an optional `-`, digits, and
/// `\r\n`. Gives the value (`None` for a negative or empty number) and the length of the
/// line; `name` goes into the message of a malformed number.
fn parse_int(input: &[u8], len: usize, name: &str) -> (r: Result<(Option<usize>, usize), ParseError>)
    requires
        len <= input@.len(),
    ensures
        int_result_matches(r, spec_parse_int(input@.take(len as int)), name@),
        r matches Ok((v, k)) ==> k <= len && (v matches Some(n) ==> n <= MAX_HEADER_VALUE),
{
    let ghost s = input@.take(len as int);
    if len == 0 {
        return Err(ParseError::Incomplete);
    }
    let neg = input[0] == 45;
    let start: usize = if neg { 1 } else { 0 };
    let mut i: usize = start;
    let mut acc: usize = 0;
    proof {
        lemma_digit_run_end_bounds(s, start as int);
    }
    while i < len && 48 <= input[i] && input[i] <= 57
        invariant
            s == input@.take(len as int),
            len <= input@.len(),
            start <= i <= len,
            start == (if neg { 1usize } else { 0usize }),
            neg == (s[0] == 45),
            len > 0,
            digit_run_end(s, start as int) == digit_run_end(s, i as int),
            !neg ==> acc as nat == digits_value(s.subrange(start as int, i as int)),
            acc <= MAX_HEADER_VALUE,
            start <= digit_run_end(s, start as int) <= len,
            all_digits(s.subrange(start as int, digit_run_end(s, start as int))),
        decreases len - i,
    {
        let c = input[i];
        assert(s[i as int] == c);
        if !neg {
            let d: usize = (c - 48) as usize;
            proof {
                lemma_digits_value_push(s.subrange(start as int, i as int), c);
                assert(s.subrange(start as int, i as int).push(c) =~= s.subrange(start as int, i + 1));
            }
            if acc > (MAX_HEADER_VALUE - d) / 10 {
                proof {
                    let e = digit_run_end(s, start as int);
                    assert(acc * 10 + d > MAX_HEADER_VALUE) by (nonlinear_arith)
                        requires acc > (MAX_HEADER_VALUE - d) / 10, d <= 9;
                    lemma_digit_run_end_bounds(s, i as int);
                    let run = s.subrange(start as int, e);
                    lemma_digits_value_prefix(run, (i + 1 - start) as int);
                    assert(run.take((i + 1 - start) as int) =~= s.subrange(start as int, i + 1));
                }
                return Err(bad_length(name));
            }
            proof {
                assert(acc * 10 + d <= MAX_HEADER_VALUE) by (nonlinear_arith)
                    requires acc <= (MAX_HEADER_VALUE - d) / 10, d <= 9;
            }
            acc = acc * 10 + d;
        }
        i = i + 1;
    }
    let ghost e = digit_run_end(s, start as int);
    assert(i as int == e) by {
        if (i as int) < len {
            assert(s[i as int] == input@[i as int]);
        }
    }
    if i == len {
        return Err(ParseError::Incomplete);
    }
    assert(s[i as int] == input@[i as int]);
    if input[i] != CR {
        return Err(bad_length(name));
    }
    if i + 1 == len {
        return Err(ParseError::Incomplete);
    }
    assert(s[i + 1] == input@[i + 1]);
    if input[i + 1] != LF {
        return Err(bad_protocol("expected \\r\\n separator"));
    }
    if neg || i == start {
        Ok((None, i + 2))
    } else {
        Ok((Some(acc), i + 2))
    }
}

/// Reads one command from the start of `input`. On success gives the command, whose
/// arguments are windows on `input`, and the number of bytes it takes.
pub fn parse(input: &[u8]) -> (r: Result<(ParsedCommand, usize), ParseError>)
    ensures
        match r {
            Ok((cmd, n)) => spec_parse(input@) == Parsed::Done(windows(cmd.argv@), n as int)
                && cmd.data@ == input@ && n <= input@.len() && cmd.well_formed()
                && cmd.argv@.len() <= MAX_ARGUMENTS,
            Err(e) => error_matches(e, spec_parse(input@)),
        },
{
    let ghost s = input@;
    let len = input.len();
    let mut pos: usize = 0;
    while pos < len && input[pos] == CR
        invariant
            s == input@,
            len == s.len(),
            pos <= len,
            skip_blank_lines(s, 0) == skip_blank_lines(s, pos as int),
        decreases len - pos,
    {
        if pos + 1 < len {
            if input[pos + 1] != LF {
                return Err(bad_protocol("expected \\r\\n separator"));
            }
            pos = pos + 2;
        } else {
            return Err(ParseError::Incomplete);
        }
    }
    assert(skip_blank_lines(s, pos as int) == Skip::At(pos as int));
    if pos >= len {
        return Err(ParseError::Incomplete);
    }
    if input[pos] != 42 {
        return Err(bad_protocol("expected '*'"));
    }
    pos = pos + 1;
    let rest = &input[pos..len];
    assert(rest@.take((len - pos) as int) =~= s.subrange(pos as int, len as int));
    let (argco, intlen) = match parse_int(rest, len - pos, "multibulk") {
        Ok(x) => x,
        Err(e) => {
            return Err(e);
        },
    };
    let argc: usize = match argco {
        Some(n) => n,
        None => 0,
    };
    if argc > MAX_ARGUMENTS {
        return Err(bad_length("multibulk"));
    }
    pos = pos + intlen;
    let ghost all = parse_bulks(s, pos as int, argc as nat);
    assert(spec_parse(s) == all);
    let mut argv: Vec<Argument> = Vec::new();
    let mut i: usize = 0;
    while i < argc
        invariant
            s == input@,
            len == s.len(),
            i <= argc,
            argc <= MAX_ARGUMENTS,
            argv@.len() == i,
            forall|j: int| 0 <= j < argv@.len() ==> #[trigger] argv@[j].pos + argv@[j].len <= len,
            pos <= len,
            spec_parse(s) == all,
            all == match parse_bulks(s, pos as int, (argc - i) as nat) {
                Parsed::Done(rest, end) => Parsed::Done(windows(argv@) + rest, end),
                other => other,
            },
        decreases argc - i,
    {
        let ghost step = parse_bulks(s, pos as int, (argc - i) as nat);
        if pos == len {
            return Err(ParseError::Incomplete);
        }
        if input[pos] != 36 {
            return Err(bad_protocol("expected '$'"));
        }
        let rest = &input[pos + 1..len];
        assert(rest@.take((len - pos - 1) as int) =~= s.subrange(pos + 1, len as int));
        let (argleno, arglenlen) = match parse_int(rest, len - pos - 1, "bulk") {
            Ok(x) => x,
            Err(e) => {
                return Err(e);
            },
        };
        let arglen: usize = match argleno {
            Some(n) => n,
            None => {
                return Err(bad_length("bulk"));
            },
        };
        let start = pos + 1 + arglenlen;
        if arglen > len - start || 2 > len - start - arglen {
            return Err(ParseError::Incomplete);
        }
        if input[start + arglen] != CR || input[start + arglen + 1] != LF {
            return Err(bad_protocol("expected \\r\\n separator"));
        }
        let ghost before = argv@;
        argv.push(Argument { pos: start, len: arglen });
        proof {
            assert(windows(argv@) =~= windows(before) + seq![(start as int, arglen as int)]);
            let next = parse_bulks(s, (start + arglen + 2) as int, (argc - i - 1) as nat);
            match next {
                Parsed::Done(r2, e2) => {
                    assert(windows(before) + (seq![(start as int, arglen as int)] + r2)
                        =~= windows(argv@) + r2);
                },
                _ => {},
            }
        }
        pos = start + arglen + 2;
        i = i + 1;
    }
    assert(windows(argv@) + Seq::<(int, int)>::empty() =~= windows(argv@));
    let cmd = ParsedCommand { data: input, argv };
    assert(cmd.well_formed()) by {
        assert forall|j: int| 0 <= j < cmd.argv@.len() implies #[trigger] cmd.has_arg(j) by {
            assert(cmd.argv@[j].pos + cmd.argv@[j].len <= len);
        }
    }
    Ok((cmd, pos))
}

/// `std::str::from_utf8`, as an `Option`. Its documentation promises success exactly on valid
/// UTF-8, and that the string then has the given bytes; `valid_utf8` is vstd's statement of
/// that encoding's rules.
#[verifier::external_body]
fn str_from_utf8<'a>(v: &'a [u8]) -> (r: Option<&'a str>)
    ensures
        r is Some <==> valid_utf8(v@),
        r matches Some(s) ==> s.spec_bytes() == v@,
{
    std::str::from_utf8(v).ok()
}

impl From<std::str::Utf8Error> for ParseError {
    /// Bytes asked for as text that are not UTF-8.
    fn from(e: std::str::Utf8Error) -> (r: ParseError) {
        ParseError::InvalidArgument
    }
}

impl vstd::std_specs::convert::FromSpecImpl<std::str::Utf8Error> for ParseError {
    open spec fn obeys_from_spec() -> bool {
        true
    }

    open spec fn from_spec(v: std::str::Utf8Error) -> ParseError {
        ParseError::InvalidArgument
    }
}

impl From<std::num::ParseIntError> for ParseError {
    /// Text asked for as an integer that is not one.
    fn from(e: std::num::ParseIntError) -> (r: ParseError) {
        ParseError::InvalidArgument
    }
}

impl vstd::std_specs::convert::FromSpecImpl<std::num::ParseIntError> for ParseError {
    open spec fn obeys_from_spec() -> bool {
        true
    }

    open spec fn from_spec(v: std::num::ParseIntError) -> ParseError {
        ParseError::InvalidArgument
    }
}

impl ParseError {
    /// Whether more bytes could still turn the buffer into a command.
    pub fn is_incomplete(&self) -> (r: bool)
        ensures
            r == (self is Incomplete),
    {
        match *self {
            ParseError::Incomplete => true,
            _ => false,
        }
    }

    /// The text sent back to a client whose request failed this way.
    pub fn response_string(&self) -> (r: String)
        ensures
            self is Incomplete ==> r@ == "Incomplete data"@,
            self is InvalidArgument ==> r@ == "Invalid argument"@,
            self matches ParseError::BadProtocol(m) ==> r@ == "Protocol error: "@ + m@,
    {
        match self {
            ParseError::Incomplete => String::from_str("Incomplete data"),
            ParseError::BadProtocol(m) => {
                let mut r = String::from_str("Protocol error: ");
                r.append(m.as_str());
                r
            },
            ParseError::InvalidArgument => String::from_str("Invalid argument"),
        }
    }
}

impl<'a> ParsedCommand<'a> {
    /// Whether argument `pos` exists and its window lies inside the command's bytes.
    pub open spec fn has_arg(&self, pos: int) -> bool {
        &&& 0 <= pos < self.argv@.len()
        &&& self.argv@[pos].pos + self.argv@[pos].len <= self.data@.len()
    }

    /// The bytes of argument `pos`.
    pub open spec fn arg(&self, pos: int) -> Seq<u8> {
        self.data@.subrange(
            self.argv@[pos].pos as int,
            self.argv@[pos].pos + self.argv@[pos].len,
        )
    }

    /// Every argument window lies inside the command's bytes.
    pub open spec fn well_formed(&self) -> bool {
        forall|i: int| 0 <= i < self.argv@.len() ==> #[trigger] self.has_arg(i)
    }

    /// The arguments' bytes, in order.
    pub open spec fn args(&self) -> Seq<Seq<u8>> {
        Seq::new(self.argv@.len(), |i: int| self.arg(i))
    }

    /// A command over `data` with the argument windows `argv`.
    pub fn new(data: &'a [u8], argv: Vec<Argument>) -> (r: ParsedCommand<'a>)
        ensures
            r.data@ == data@,
            r.argv@ == argv@,
    {
        ParsedCommand { data, argv }
    }

    /// The bytes of argument `pos`; `InvalidArgument` when there is no such argument.
    pub fn get_slice(&self, pos: usize) -> (r: Result<&'a [u8], ParseError>)
        ensures
            match r {
                Ok(b) => self.has_arg(pos as int) && b@ == self.arg(pos as int),
                Err(e) => !self.has_arg(pos as int) && e is InvalidArgument,
            },
    {
        if pos >= self.argv.len() {
            return Err(ParseError::InvalidArgument);
        }
        let a = self.argv[pos];
        let data: &'a [u8] = self.data;
        if a.pos > data.len() || a.len > data.len() - a.pos {
            return Err(ParseError::InvalidArgument);
        }
        Ok(&data[a.pos..a.pos + a.len])
    }

    /// A copy of the bytes of argument `pos`.
    pub fn get_vec(&self, pos: usize) -> (r: Result<Vec<u8>, ParseError>)
        ensures
            match r {
                Ok(b) => self.has_arg(pos as int) && b@ == self.arg(pos as int),
                Err(e) => !self.has_arg(pos as int) && e is InvalidArgument,
            },
    {
        let s = self.get_slice(pos)?;
        Ok(slice_to_vec(s))
    }

    /// Argument `pos` as text; `InvalidArgument` when it is missing or not UTF-8.
    pub fn get_str(&self, pos: usize) -> (r: Result<&'a str, ParseError>)
        ensures
            match r {
                Ok(t) => self.has_arg(pos as int) && valid_utf8(self.arg(pos as int))
                    && t.spec_bytes() == self.arg(pos as int),
                Err(e) => (!self.has_arg(pos as int) || !valid_utf8(self.arg(pos as int)))
                    && e is InvalidArgument,
            },
    {
        let s = self.get_slice(pos)?;
        match str_from_utf8(s) {
            Some(t) => Ok(t),
            None => Err(ParseError::InvalidArgument),
        }
    }

    /// Argument `pos` read as a signed 64-bit integer, as `i64::from_str` reads text.
    /// (Such text is ASCII, so it is UTF-8 whenever it is a number.)
    pub fn get_i64(&self, pos: usize) -> (r: Result<i64, ParseError>)
        ensures
            match r {
                Ok(v) => self.has_arg(pos as int) && spec_parse_i64(self.arg(pos as int)) == Some(v),
                Err(e) => (!self.has_arg(pos as int) || spec_parse_i64(self.arg(pos as int)) is None)
                    && e is InvalidArgument,
            },
    {
        let s = self.get_slice(pos)?;
        match parse_i64(s) {
            Some(v) => Ok(v),
            None => Err(ParseError::InvalidArgument),
        }
    }

    /// The bytes the arguments point into.
    pub fn get_data(&self) -> (r: &'a [u8])
        ensures
            r@ == self.data@,
    {
        self.data
    }

    /// A command that owns a copy of the bytes, with the same arguments.
    pub fn into_owned(self) -> (r: OwnedParsedCommand)
        ensures
            r.data@ == self.data@,
            r.argv@ == self.argv@,
    {
        OwnedParsedCommand::new(slice_to_vec(self.data), self.argv)
    }

    /// The same as `into_owned`.
    pub fn to_owned(self) -> (r: OwnedParsedCommand)
        ensures
            r.data@ == self.data@,
            r.argv@ == self.argv@,
    {
        self.into_owned()
    }
}

/// A copy of a list of argument windows.
fn copy_arguments(argv: &Vec<Argument>) -> (r: Vec<Argument>)
    ensures
        r@ == argv@,
{
    let mut r: Vec<Argument> = Vec::new();
    let mut i: usize = 0;
    while i < argv.len()
        invariant
            i <= argv@.len(),
            r@ == argv@.take(i as int),
        decreases argv@.len() - i,
    {
        let a = argv[i];
        r.push(Argument { pos: a.pos, len: a.len });
        assert(r@ =~= argv@.take(i + 1));
        i = i + 1;
    }
    assert(argv@.take(argv@.len() as int) =~= argv@);
    r
}

impl OwnedParsedCommand {
    /// A command owning `dat`, with the argument windows `argv`.
    pub fn new(dat: Vec<u8>, argv: Vec<Argument>) -> (r: OwnedParsedCommand)
        ensures
            r.data@ == dat@,
            r.argv@ == argv@,
    {
        OwnedParsedCommand { data: dat, argv }
    }

    /// A borrowed view of the command.
    pub fn get_command(&self) -> (r: ParsedCommand<'_>)
        ensures
            r.data@ == self.data@,
            r.argv@ == self.argv@,
    {
        ParsedCommand::new(self.data.as_slice(), copy_arguments(&self.argv))
    }
}

/// A buffer that collects the bytes a client sends and hands out the commands in it.
/// `data[position..written]` holds the bytes received but not yet read as a command.
#[derive(Debug)]
pub struct Parser {
    pub data: Vec<u8>,
    pub position: usize,
    pub written: usize,
}

/// How many zero bytes `allocate` adds to a buffer of `len` bytes of which `written` hold
/// data: a first block of 16, then as much again whenever more than half is in use.
pub open spec fn allocation_growth(len: nat, written: nat) -> nat {
    if len == 0 {
        16
    } else if written * 2 > len {
        len
    } else {
        0
    }
}

impl Default for Parser {
    fn default() -> (r: Parser)
        ensures
            r.buffer() == Seq::<u8>::empty(),
            r.position == 0,
            r.written == 0,
    {
        Parser::new()
    }
}

impl Parser {
    /// The buffer's bytes.
    pub open spec fn buffer(&self) -> Seq<u8> {
        self.data@
    }

    /// The markers lie inside the buffer, in order.
    pub open spec fn well_formed(&self) -> bool {
        self.position <= self.written <= self.buffer().len()
    }

    /// The bytes received and not yet read as a command.
    pub open spec fn pending(&self) -> Seq<u8> {
        self.buffer().subrange(self.position as int, self.written as int)
    }

    /// An empty parser.
    pub fn new() -> (r: Parser)
        ensures
            r.buffer() == Seq::<u8>::empty(),
            r.position == 0,
            r.written == 0,
    {
        Parser { data: Vec::new(), position: 0, written: 0 }
    }

    /// Makes room for more bytes. When everything received has been read, the markers go back
    /// to the start; then the buffer grows by `allocation_growth` zero bytes. The bytes
    /// waiting to be read stay as they are.
    pub fn allocate(&mut self)
        requires
            old(self).well_formed(),
            old(self).buffer().len() <= usize::MAX / 2,
        ensures
            final(self).well_formed(),
            final(self).pending() == old(self).pending(),
            ({
                let reset = old(self).position > 0 && old(self).written == old(self).position;
                &&& final(self).position == (if reset { 0 } else { old(self).position })
                &&& final(self).written == (if reset { 0 } else { old(self).written })
                &&& final(self).buffer() == old(self).buffer() + Seq::new(
                    allocation_growth(old(self).buffer().len(), final(self).written as nat),
                    |i: int| 0u8,
                )
            }),
    {
        if self.position > 0 && self.written == self.position {
            self.written = 0;
            self.position = 0;
        }
        let len = self.data.len();
        let add: usize = if len == 0 {
            16
        } else if self.written * 2 > len {
            len
        } else {
            0
        };
        let ghost start = self.data@;
        let ghost p0 = self.position;
        let ghost w0 = self.written;
        let mut k: usize = 0;
        while k < add
            invariant
                k <= add,
                self.data@ == start + Seq::new(k as nat, |i: int| 0u8),
                self.position == p0,
                self.written == w0,
            decreases add - k,
        {
            self.data.push(0);
            k = k + 1;
            assert(self.data@ =~= start + Seq::new(k as nat, |i: int| 0u8));
        }
        assert(self.pending() =~= old(self).pending());
    }

    /// The buffer itself, for the reader of the connection to write received bytes into.
    pub fn get_mut(&mut self) -> (r: &mut Vec<u8>)
        ensures
            r@ == old(self).buffer(),
            final(self).buffer() == final(r)@,
            final(self).position == old(self).position,
            final(self).written == old(self).written,
    {
        &mut self.data
    }

    /// Whether the bytes received so far are the start of a command but not all of it.
    pub fn is_incomplete(&self) -> (r: bool)
        requires
            self.well_formed(),
        ensures
            r == (spec_parse(self.pending()) is Incomplete),
    {
        let data = &self.data.as_slice()[self.position..self.written];
        match parse(data) {
            Ok(_) => false,
            Err(e) => e.is_incomplete(),
        }
    }

    /// Reads the next command from the bytes received and moves past it.
    pub fn next(&mut self) -> (r: Result<ParsedCommand<'_>, ParseError>)
        requires
            old(self).well_formed(),
        ensures
            final(self).well_formed(),
            final(self).buffer() == old(self).buffer(),
            final(self).written == old(self).written,
            match r {
                Ok(cmd) => {
                    &&& cmd.data@ == old(self).pending()
                    &&& cmd.well_formed()
                    &&& cmd.argv@.len() <= MAX_ARGUMENTS
                    &&& spec_parse(old(self).pending()) == Parsed::Done(
                        windows(cmd.argv@),
                        final(self).position - old(self).position,
                    )
                },
                Err(e) => error_matches(e, spec_parse(old(self).pending()))
                    && final(self).position == old(self).position,
            },
    {
        let position = self.position;
        let written = self.written;
        let data: &[u8] = &self.data.as_slice()[position..written];
        match parse(data) {
            Ok((cmd, len)) => {
                self.position = position + len;
                Ok(cmd)
            },
            Err(e) => Err(e),
        }
    }
}

} // verus!
