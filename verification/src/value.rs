use vstd::prelude::*;
use vstd::string::*;

use crate::bytes::{bytes_eq, copy_bytes};
use crate::decimal::{parse_i64, push_decimal_i64, push_decimal_string, signed_decimal_bytes, spec_parse_i64};
use crate::errors::{error_message, OperationError};
use crate::list::{
    count_occurrences, debug_line, elements_model, find_first, first_index, lrem_count, lrem_result, normalize,
    range_window, spec_dump_list, ValueList, RDB_VERSION,
};
use crate::rdbutil::{encode_bytes, encode_len, le_bytes, spec_encode_bytes, spec_encode_len};

verus! {

/// A string value: any bytes.
pub struct ValueString {
    pub data: Vec<u8>,
}

/// A set of byte strings, kept in the order they were first added.
pub struct ValueSet {
    pub members: Vec<Vec<u8>>,
}

/// A sorted set: members with their scores. A score is kept as the bits of its IEEE-754
/// double, which is how it is written in the dump format.
pub struct ValueSortedSet {
    pub entries: Vec<(u64, Vec<u8>)>,
}

/// A stored value.
pub enum Value {
    Nil,
    String(ValueString),
    List(ValueList),
    UnorderedSet(ValueSet),
    SortedSet(ValueSortedSet),
}

/// What a stored value holds.
pub enum ValueModel {
    Nil,
    Str(Seq<u8>),
    List(Seq<Seq<u8>>),
    UnorderedSet(Seq<Seq<u8>>),
    SortedSet(Seq<(u64, Seq<u8>)>),
}

impl View for Value {
    type V = ValueModel;

    open spec fn view(&self) -> ValueModel {
        match self {
            Value::Nil => ValueModel::Nil,
            Value::String(s) => ValueModel::Str(s.data@),
            Value::List(l) => ValueModel::List(l@),
            Value::UnorderedSet(s) => ValueModel::UnorderedSet(elements_model(s.members@)),
            Value::SortedSet(z) => ValueModel::SortedSet(
                z.entries@.map_values(|e: (u64, Vec<u8>)| (e.0, e.1@)),
            ),
        }
    }
}

/// A set holds each member once.
pub open spec fn model_well_formed(m: ValueModel) -> bool {
    m matches ValueModel::UnorderedSet(s) ==> s.no_duplicates()
}

/// The part `[lo, hi)` of a string of `len` bytes that `GETRANGE start stop` returns:
/// negative offsets count from the end, offsets are then clamped to the string, and an
/// empty selection is `(0, 0)`.
pub open spec fn string_window(start: int, stop: int, len: nat) -> (int, int) {
    let s0 = if start < 0 { start + len } else { start };
    let e0 = if stop < 0 { stop + len } else { stop };
    let s = if s0 < 0 { 0 } else { s0 };
    let e1 = if e0 < 0 { 0 } else { e0 };
    let e = if e1 >= len { len - 1 } else { e1 };
    if len == 0 || s > e {
        (0, 0)
    } else {
        (s, e + 1)
    }
}

/// The string `s` with `data` written from `offset` on, zero bytes filling any gap; an
/// empty `data` leaves `s` as it is.
pub open spec fn overwrite(s: Seq<u8>, offset: nat, data: Seq<u8>) -> Seq<u8> {
    if data.len() == 0 {
        s
    } else {
        let len = if s.len() > offset + data.len() { s.len() } else { offset + data.len() };
        Seq::new(
            len,
            |j: int|
                if offset <= j < offset + data.len() {
                    data[j - offset]
                } else if j < s.len() {
                    s[j]
                } else {
                    0u8
                },
        )
    }
}

/// `s`, extended with zero bytes to at least `len` bytes.
pub open spec fn pad_to(s: Seq<u8>, len: nat) -> Seq<u8> {
    if s.len() >= len {
        s
    } else {
        s + Seq::new((len - s.len()) as nat, |j: int| 0u8)
    }
}

/// The mask of bit `offset` inside its byte: bits are numbered from the most significant.
pub open spec fn bit_mask(offset: nat) -> u8 {
    (128u8 >> ((offset % 8) as u8)) as u8
}

/// The bit at `offset` of `s` (bits past the end are 0).
pub open spec fn get_bit(s: Seq<u8>, offset: nat) -> bool {
    let byte = offset / 8;
    byte < s.len() && s[byte as int] & bit_mask(offset) != 0
}

/// `s` with bit `offset` set to `on`, extended with zero bytes to reach it.
pub open spec fn set_bit(s: Seq<u8>, offset: nat, on: bool) -> Seq<u8> {
    let byte = offset / 8;
    let p = pad_to(s, byte + 1);
    let b = p[byte as int];
    p.update(byte as int, if on { b | bit_mask(offset) } else { b & !bit_mask(offset) })
}

/// The members of `m` after adding those of `d` that are missing, in order.
pub open spec fn add_members(m: Seq<Seq<u8>>, d: Seq<Seq<u8>>) -> Seq<Seq<u8>>
    decreases d.len(),
{
    if d.len() == 0 {
        m
    } else {
        add_members(if m.contains(d[0]) { m } else { m.push(d[0]) }, d.drop_first())
    }
}

/// The members that a value holds as a set; nothing for nil.
pub open spec fn set_members(m: ValueModel) -> Seq<Seq<u8>> {
    match m {
        ValueModel::UnorderedSet(s) => s,
        _ => Seq::empty(),
    }
}

/// Whether a value can take part in a set union: a set, or nil.
pub open spec fn is_set_or_nil(m: ValueModel) -> bool {
    m is UnorderedSet || m is Nil
}

/// The members of `m` after adding those of each value of `vs` in turn.
pub open spec fn merge_members(m: Seq<Seq<u8>>, vs: Seq<ValueModel>) -> Seq<Seq<u8>>
    decreases vs.len(),
{
    if vs.len() == 0 {
        m
    } else {
        merge_members(add_members(m, set_members(vs[0])), vs.drop_first())
    }
}

/// The tag of a string in the dump format.
pub const TYPE_STRING: u8 = 0;

/// The tag of a set in the dump format.
pub const TYPE_SET: u8 = 2;

/// The tag of a sorted set (with binary scores) in the dump format.
pub const TYPE_ZSET: u8 = 5;

/// The dump forms of the members of a set, one after the other.
pub open spec fn encode_members(s: Seq<Seq<u8>>) -> Seq<u8>
    decreases s.len(),
{
    if s.len() == 0 {
        Seq::empty()
    } else {
        encode_members(s.drop_last()) + spec_encode_bytes(s.last())
    }
}

/// The dump forms of the entries of a sorted set: each member, then its score's bits,
/// least significant byte first.
pub open spec fn encode_scored(s: Seq<(u64, Seq<u8>)>) -> Seq<u8>
    decreases s.len(),
{
    if s.len() == 0 {
        Seq::empty()
    } else {
        encode_scored(s.drop_last()) + spec_encode_bytes(s.last().1) + le_bytes(s.last().0 as nat, 8)
    }
}

/// The dump form of a value: its tag, its contents, the format version; nothing for nil.
pub open spec fn spec_dump(m: ValueModel) -> Seq<u8> {
    match m {
        ValueModel::Nil => Seq::empty(),
        ValueModel::Str(s) => seq![TYPE_STRING] + spec_encode_bytes(s) + seq![RDB_VERSION, 0u8],
        ValueModel::List(l) => spec_dump_list(l),
        ValueModel::UnorderedSet(s) => seq![TYPE_SET] + spec_encode_len(s.len()) + encode_members(s) + seq![
            RDB_VERSION,
            0u8,
        ],
        ValueModel::SortedSet(z) => seq![TYPE_ZSET] + spec_encode_len(z.len()) + encode_scored(z)
            + seq![RDB_VERSION, 0u8],
    }
}

/// The name of the way a value is held, as `DEBUG OBJECT` shows it.
pub open spec fn encoding_name(m: ValueModel) -> Seq<char> {
    match m {
        ValueModel::Nil => "none"@,
        ValueModel::Str(_) => "raw"@,
        ValueModel::List(_) => "linkedlist"@,
        ValueModel::UnorderedSet(_) => "hashtable"@,
        ValueModel::SortedSet(_) => "skiplist"@,
    }
}

/// Adding members keeps a set free of repeats, and its members are the old ones and the
/// added ones.
pub proof fn lemma_add_members(m: Seq<Seq<u8>>, d: Seq<Seq<u8>>)
    requires
        m.no_duplicates(),
    ensures
        add_members(m, d).no_duplicates(),
        add_members(m, d).len() >= m.len(),
        add_members(m, d).to_set() == m.to_set() + d.to_set(),
        m.take(m.len() as int) == add_members(m, d).take(m.len() as int),
    decreases d.len(),
{
    if d.len() == 0 {
        assert(d.to_set() =~= Set::<Seq<u8>>::empty());
        assert(m.to_set() + d.to_set() =~= m.to_set());
    } else {
        let m2 = if m.contains(d[0]) { m } else { m.push(d[0]) };
        if !m.contains(d[0]) {
            assert forall|i: int, j: int| 0 <= i < m2.len() && 0 <= j < m2.len() && i != j implies m2[i] != m2[j] by {
                if i == m.len() {
                    assert(m2[j] == m[j]);
                } else if j == m.len() {
                    assert(m2[i] == m[i]);
                }
            }
        }
        if m.contains(d[0]) {
            assert(m.to_set().contains(d[0]));
            assert(m2.to_set() =~= m.to_set().insert(d[0]));
        } else {
            m.lemma_push_to_set_commute(d[0]);
        }
        lemma_add_members(m2, d.drop_first());
        assert(d.to_set() =~= d.drop_first().to_set().insert(d[0])) by {
            assert forall|x: Seq<u8>| d.to_set().contains(x) implies d.drop_first().to_set().insert(d[0]).contains(x) by {
                let i = choose|i: int| 0 <= i < d.len() && d[i] == x;
                if i > 0 {
                    assert(d.drop_first()[i - 1] == x);
                }
            }
            assert forall|x: Seq<u8>| d.drop_first().to_set().contains(x) implies d.to_set().contains(x) by {
                let i = choose|i: int| 0 <= i < d.drop_first().len() && d.drop_first()[i] == x;
                assert(d[i + 1] == x);
            }
            assert(d.to_set().contains(d[0]));
        }
        assert(m.to_set() + d.to_set() =~= m2.to_set() + d.drop_first().to_set());
        assert(m.take(m.len() as int) =~= m2.take(m.len() as int));
        assert(m2.take(m.len() as int) =~= add_members(m, d).take(m.len() as int)) by {
            let a = add_members(m2, d.drop_first());
            assert(m2.take(m2.len() as int) == a.take(m2.len() as int));
            assert forall|i: int| 0 <= i < m.len() implies m2.take(m.len() as int)[i] == a.take(m.len() as int)[i] by {
                assert(m2.take(m2.len() as int)[i] == a.take(m2.len() as int)[i]);
            }
        }
    }
}

/// A result, with the error given by its message.
pub open spec fn with_message<T>(r: Result<T, OperationError>) -> Result<T, Seq<char>> {
    match r {
        Ok(t) => Ok(t),
        Err(e) => Err(error_message(e)),
    }
}

/// The message of `WrongTypeError`.
pub open spec fn wrong_type() -> Seq<char> {
    error_message(OperationError::WrongTypeError)
}

/// What `get` gives for a value.
pub open spec fn op_get(m: ValueModel) -> Result<Seq<u8>, Seq<char>> {
    match m {
        ValueModel::Str(s) => Ok(s),
        _ => Err(wrong_type()),
    }
}

/// What `strlen` gives for a value.
pub open spec fn op_strlen(m: ValueModel) -> Result<usize, Seq<char>> {
    match m {
        ValueModel::Str(s) => Ok(s.len() as usize),
        ValueModel::Nil => Ok(0),
        _ => Err(wrong_type()),
    }
}

/// What `append` gives, and leaves, for a value.
pub open spec fn op_append(m: ValueModel, v: Seq<u8>) -> (Result<usize, Seq<char>>, ValueModel) {
    match m {
        ValueModel::Str(s) => (Ok((s.len() + v.len()) as usize), ValueModel::Str(s + v)),
        ValueModel::Nil => (Ok(v.len() as usize), ValueModel::Str(v)),
        _ => (Err(wrong_type()), m),
    }
}

/// What `incr` gives, and leaves, for a value.
pub open spec fn op_incr(m: ValueModel, incr: i64) -> (Result<i64, Seq<char>>, ValueModel) {
    match m {
        ValueModel::Nil => (Ok(incr), ValueModel::Str(signed_decimal_bytes(incr as int))),
        ValueModel::Str(s) => match spec_parse_i64(s) {
            Some(n) => if i64::MIN <= n + incr <= i64::MAX {
                (Ok((n + incr) as i64), ValueModel::Str(signed_decimal_bytes(n + incr)))
            } else {
                (Err(error_message(OperationError::OverflowError)), m)
            },
            None => (Err(error_message(OperationError::NotANumberError)), m),
        },
        _ => (Err(wrong_type()), m),
    }
}

/// What `getrange` gives for a value.
pub open spec fn op_getrange(m: ValueModel, start: i64, stop: i64) -> Result<Seq<u8>, Seq<char>> {
    match m {
        ValueModel::Str(s) => Ok(
            s.subrange(
                string_window(start as int, stop as int, s.len()).0,
                string_window(start as int, stop as int, s.len()).1,
            ),
        ),
        ValueModel::Nil => Ok(Seq::empty()),
        _ => Err(wrong_type()),
    }
}

/// What `setrange` gives, and leaves, for a value.
pub open spec fn op_setrange(m: ValueModel, index: nat, data: Seq<u8>) -> (Result<usize, Seq<char>>, ValueModel) {
    match m {
        ValueModel::Str(s) => (
            Ok(overwrite(s, index, data).len() as usize),
            ValueModel::Str(overwrite(s, index, data)),
        ),
        ValueModel::Nil => if data.len() == 0 {
            (Ok(0), m)
        } else {
            (Ok((index + data.len()) as usize), ValueModel::Str(overwrite(Seq::empty(), index, data)))
        },
        _ => (Err(wrong_type()), m),
    }
}

/// What `setbit` gives, and leaves, for a value.
pub open spec fn op_setbit(m: ValueModel, offset: nat, on: bool) -> (Result<bool, Seq<char>>, ValueModel) {
    match m {
        ValueModel::Str(s) => (Ok(get_bit(s, offset)), ValueModel::Str(set_bit(s, offset, on))),
        ValueModel::Nil => (Ok(false), ValueModel::Str(set_bit(Seq::empty(), offset, on))),
        _ => (Err(wrong_type()), m),
    }
}

/// What `push` gives, and leaves, for a value.
pub open spec fn op_push(m: ValueModel, el: Seq<u8>, right: bool) -> (Result<usize, Seq<char>>, ValueModel) {
    match m {
        ValueModel::List(l) => {
            let nl = if right { l.push(el) } else { seq![el] + l };
            (Ok(nl.len() as usize), ValueModel::List(nl))
        },
        ValueModel::Nil => (Ok(1), ValueModel::List(seq![el])),
        _ => (Err(wrong_type()), m),
    }
}

/// What `pop` gives, and leaves, for a value.
pub open spec fn op_pop(m: ValueModel, right: bool) -> (Result<Option<Seq<u8>>, Seq<char>>, ValueModel) {
    match m {
        ValueModel::List(l) => if l.len() == 0 {
            (Ok(None), m)
        } else if right {
            (Ok(Some(l.last())), ValueModel::List(l.drop_last()))
        } else {
            (Ok(Some(l[0])), ValueModel::List(l.drop_first()))
        },
        ValueModel::Nil => (Ok(None), m),
        _ => (Err(wrong_type()), m),
    }
}

/// Appends `b` to `out`.
fn extend_from(out: &mut Vec<u8>, b: &[u8])
    ensures
        final(out)@ == old(out)@ + b@,
{
    let ghost start = out@;
    let mut i: usize = 0;
    while i < b.len()
        invariant
            i <= b@.len(),
            out@ == start + b@.take(i as int),
        decreases b@.len() - i,
    {
        out.push(b[i]);
        i = i + 1;
        assert(out@ =~= start + b@.take(i as int));
    }
    assert(b@.take(b@.len() as int) =~= b@);
}

/// Extends `v` with zero bytes to at least `len` bytes.
fn pad_with_zeros(v: &mut Vec<u8>, len: usize)
    ensures
        final(v)@ == pad_to(old(v)@, len as nat),
{
    let ghost start = v@;
    if v.len() >= len {
        return;
    }
    while v.len() < len
        invariant
            start.len() <= v@.len() <= len,
            v@ == start + Seq::new((v@.len() - start.len()) as nat, |j: int| 0u8),
        decreases len - v@.len(),
    {
        v.push(0);
        assert(v@ =~= start + Seq::new((v@.len() - start.len()) as nat, |j: int| 0u8));
    }
}

/// Appends the eight bytes of a score's bits, least significant first.
fn push_score(bits: u64, out: &mut Vec<u8>)
    ensures
        final(out)@ == old(out)@ + le_bytes(bits as nat, 8),
{
    let ghost start = out@;
    let mut v: u64 = bits;
    let mut k: usize = 0;
    while k < 8
        invariant
            k <= 8,
            out@ + le_bytes(v as nat, (8 - k) as nat) == start + le_bytes(bits as nat, 8),
        decreases 8 - k,
    {
        let b: u8 = (v % 256) as u8;
        proof {
            assert(le_bytes(v as nat, (8 - k) as nat) == seq![b] + le_bytes((v / 256) as nat, (8 - k - 1) as nat));
            assert(out@.push(b) + le_bytes((v / 256) as nat, (8 - k - 1) as nat) =~= out@ + (seq![b]
                + le_bytes((v / 256) as nat, (8 - k - 1) as nat)));
        }
        out.push(b);
        v = v / 256;
        k = k + 1;
    }
    assert(out@ + le_bytes(v as nat, 0) =~= out@);
}

/// A copy of a list of byte strings.
fn copy_members(v: &Vec<Vec<u8>>) -> (r: Vec<Vec<u8>>)
    ensures
        elements_model(r@) == elements_model(v@),
{
    let mut r: Vec<Vec<u8>> = Vec::new();
    let mut i: usize = 0;
    while i < v.len()
        invariant
            i <= v@.len(),
            elements_model(r@) == elements_model(v@).take(i as int),
        decreases v@.len() - i,
    {
        let c = copy_bytes(v[i].as_slice());
        assert(c@ == elements_model(v@)[i as int]);
        let ghost before = r@;
        r.push(c);
        assert(elements_model(r@) =~= elements_model(before).push(c@));
        i = i + 1;
        assert(elements_model(r@) =~= elements_model(v@).take(i as int));
    }
    assert(elements_model(v@).take(v@.len() as int) =~= elements_model(v@));
    r
}

/// Adds to `members` each element of `d` that it lacks, in order.
fn add_all(members: &mut Vec<Vec<u8>>, d: &Vec<Vec<u8>>)
    ensures
        elements_model(final(members)@) == add_members(elements_model(old(members)@), elements_model(d@)),
{
    let ghost dm = elements_model(d@);
    let ghost target = add_members(elements_model(members@), dm);
    let mut i: usize = 0;
    assert(dm.skip(0) =~= dm);
    while i < d.len()
        invariant
            i <= d@.len(),
            dm == elements_model(d@),
            add_members(elements_model(members@), dm.skip(i as int)) == target,
        decreases d@.len() - i,
    {
        proof {
            assert(dm.skip(i as int).drop_first() =~= dm.skip(i + 1));
            assert(dm.skip(i as int)[0] == dm[i as int]);
        }
        let ghost before = elements_model(members@);
        if find_first(members, d[i].as_slice()).is_none() {
            members.push(copy_bytes(d[i].as_slice()));
            assert(elements_model(members@) =~= before.push(dm[i as int]));
        }
        i = i + 1;
    }
    assert(dm.skip(d@.len() as int) =~= Seq::<Seq<u8>>::empty());
}

/// `incr` added to `n`, when the sum fits in an `i64`.
fn checked_add_i64(n: i64, incr: i64) -> (r: Option<i64>)
    ensures
        match r {
            Some(v) => v == n + incr,
            None => n + incr < i64::MIN || n + incr > i64::MAX,
        },
{
    if incr > 0 && n > i64::MAX - incr {
        None
    } else if incr < 0 && n < i64::MIN - incr {
        None
    } else {
        Some(n + incr)
    }
}

impl Value {
    /// The value holds nothing.
    pub fn is_nil(&self) -> (r: bool)
        ensures
            r == (self@ is Nil),
    {
        match *self {
            Value::Nil => true,
            _ => false,
        }
    }

    /// The value is a string.
    pub fn is_string(&self) -> (r: bool)
        ensures
            r == (self@ is Str),
    {
        match *self {
            Value::String(_) => true,
            _ => false,
        }
    }

    /// The value is a set.
    pub fn is_set(&self) -> (r: bool)
        ensures
            r == (self@ is UnorderedSet),
    {
        match *self {
            Value::UnorderedSet(_) => true,
            _ => false,
        }
    }

    /// Makes the value the string `newvalue`, whatever it held before.
    pub fn set(&mut self, newvalue: Vec<u8>) -> (r: Result<(), OperationError>)
        ensures
            r is Ok,
            final(self)@ == ValueModel::Str(newvalue@),
    {
        *self = Value::String(ValueString { data: newvalue });
        Ok(())
    }

    /// A copy of the string the value holds.
    pub fn get(&self) -> (r: Result<Vec<u8>, OperationError>)
        ensures
            match r {
                Ok(v) => op_get(self@) == Ok::<Seq<u8>, Seq<char>>(v@),
                Err(e) => op_get(self@) == Err::<Seq<u8>, Seq<char>>(error_message(e)),
            },
            match self@ {
                ValueModel::Str(s) => r matches Ok(v) && v@ == s,
                _ => r matches Err(OperationError::WrongTypeError),
            },
    {
        match self {
            Value::String(s) => Ok(copy_bytes(s.data.as_slice())),
            _ => Err(OperationError::WrongTypeError),
        }
    }

    /// The length of the string the value holds (0 for nil).
    pub fn strlen(&self) -> (r: Result<usize, OperationError>)
        ensures
            with_message(r) == op_strlen(self@),
            match self@ {
                ValueModel::Str(s) => r matches Ok(n) && n == s.len(),
                ValueModel::Nil => r matches Ok(n) && n == 0,
                _ => r matches Err(OperationError::WrongTypeError),
            },
    {
        match self {
            Value::String(s) => Ok(s.data.len()),
            Value::Nil => Ok(0),
            _ => Err(OperationError::WrongTypeError),
        }
    }

    /// Appends `newvalue` to the string (nil counts as empty), and gives the new length.
    pub fn append(&mut self, newvalue: Vec<u8>) -> (r: Result<usize, OperationError>)
        ensures
            with_message(r) == op_append(old(self)@, newvalue@).0,
            final(self)@ == op_append(old(self)@, newvalue@).1,
            match old(self)@ {
                ValueModel::Str(s) => final(self)@ == ValueModel::Str(s + newvalue@)
                    && (r matches Ok(n) && n == s.len() + newvalue@.len()),
                ValueModel::Nil => final(self)@ == ValueModel::Str(newvalue@)
                    && (r matches Ok(n) && n == newvalue@.len()),
                _ => r matches Err(OperationError::WrongTypeError) && final(self)@ == old(self)@,
            },
    {
        match self {
            Value::String(s) => {
                extend_from(&mut s.data, newvalue.as_slice());
                Ok(s.data.len())
            },
            Value::Nil => {
                let n = newvalue.len();
                *self = Value::String(ValueString { data: newvalue });
                Ok(n)
            },
            _ => Err(OperationError::WrongTypeError),
        }
    }

    /// Adds `incr` to the integer that the string holds (nil counts as 0), stores the sum in
    /// decimal and gives it. `NotANumberError` when the string is not an integer,
    /// `OverflowError` when the sum does not fit in an `i64`; the value is then unchanged.
    pub fn incr(&mut self, incr: i64) -> (r: Result<i64, OperationError>)
        ensures
            with_message(r) == op_incr(old(self)@, incr).0,
            final(self)@ == op_incr(old(self)@, incr).1,
            match old(self)@ {
                ValueModel::Nil => r matches Ok(v) && v == incr && final(self)@ == ValueModel::Str(
                    signed_decimal_bytes(incr as int),
                ),
                ValueModel::Str(s) => match spec_parse_i64(s) {
                    Some(n) => if i64::MIN <= n + incr <= i64::MAX {
                        r matches Ok(v) && v == n + incr && final(self)@ == ValueModel::Str(
                            signed_decimal_bytes(v as int),
                        )
                    } else {
                        r matches Err(OperationError::OverflowError) && final(self)@ == old(self)@
                    },
                    None => r matches Err(OperationError::NotANumberError) && final(self)@ == old(
                        self,
                    )@,
                },
                _ => r matches Err(OperationError::WrongTypeError) && final(self)@ == old(self)@,
            },
    {
        let current: i64 = match self {
            Value::Nil => 0,
            Value::String(s) => match parse_i64(s.data.as_slice()) {
                Some(n) => n,
                None => {
                    return Err(OperationError::NotANumberError);
                },
            },
            _ => {
                return Err(OperationError::WrongTypeError);
            },
        };
        match checked_add_i64(current, incr) {
            Some(v) => {
                let mut data: Vec<u8> = Vec::new();
                push_decimal_i64(v, &mut data);
                assert(data@ =~= signed_decimal_bytes(v as int));
                *self = Value::String(ValueString { data });
                Ok(v)
            },
            None => Err(OperationError::OverflowError),
        }
    }

    /// The bytes of the string between the inclusive offsets `start` and `stop` (see
    /// `string_window`); nil gives nothing.
    pub fn getrange(&self, start: i64, stop: i64) -> (r: Result<Vec<u8>, OperationError>)
        ensures
            match r {
                Ok(v) => op_getrange(self@, start, stop) == Ok::<Seq<u8>, Seq<char>>(v@),
                Err(e) => op_getrange(self@, start, stop) == Err::<Seq<u8>, Seq<char>>(error_message(e)),
            },
            match self@ {
                ValueModel::Str(s) => r matches Ok(v) && v@ == s.subrange(
                    string_window(start as int, stop as int, s.len()).0,
                    string_window(start as int, stop as int, s.len()).1,
                ),
                ValueModel::Nil => r matches Ok(v) && v@.len() == 0,
                _ => r matches Err(OperationError::WrongTypeError),
            },
    {
        match self {
            Value::String(s) => {
                let len = s.data.len();
                let l: i128 = len as i128;
                let s0: i128 = if start < 0 { start as i128 + l } else { start as i128 };
                let e0: i128 = if stop < 0 { stop as i128 + l } else { stop as i128 };
                let a: i128 = if s0 < 0 { 0 } else { s0 };
                let e1: i128 = if e0 < 0 { 0 } else { e0 };
                let e: i128 = if e1 >= l { l - 1 } else { e1 };
                if len == 0 || a > e {
                    assert(s.data@.subrange(0, 0) =~= Seq::<u8>::empty());
                    Ok(Vec::new())
                } else {
                    let lo = a as usize;
                    let hi = (e + 1) as usize;
                    Ok(copy_bytes(&s.data.as_slice()[lo..hi]))
                }
            },
            Value::Nil => Ok(Vec::new()),
            _ => Err(OperationError::WrongTypeError),
        }
    }

    /// Writes `data` into the string from byte `index` on, filling any gap with zero bytes,
    /// and gives the new length (see `overwrite`; nil counts as empty and stays nil when
    /// `data` is empty).
    pub fn setrange(&mut self, index: usize, data: Vec<u8>) -> (r: Result<usize, OperationError>)
        requires
            index + data@.len() <= usize::MAX,
        ensures
            with_message(r) == op_setrange(old(self)@, index as nat, data@).0,
            final(self)@ == op_setrange(old(self)@, index as nat, data@).1,
            match old(self)@ {
                ValueModel::Str(s) => final(self)@ == ValueModel::Str(overwrite(s, index as nat, data@))
                    && (r matches Ok(n) && n == overwrite(s, index as nat, data@).len()),
                ValueModel::Nil => if data@.len() == 0 {
                    final(self)@ == old(self)@ && (r matches Ok(n) && n == 0)
                } else {
                    final(self)@ == ValueModel::Str(overwrite(Seq::empty(), index as nat, data@))
                        && (r matches Ok(n) && n == index + data@.len())
                },
                _ => r matches Err(OperationError::WrongTypeError) && final(self)@ == old(self)@,
            },
    {
        let mut v: Vec<u8> = match self {
            Value::String(s) => {
                if data.len() == 0 {
                    return Ok(s.data.len());
                }
                copy_bytes(s.data.as_slice())
            },
            Value::Nil => {
                if data.len() == 0 {
                    return Ok(0);
                }
                Vec::new()
            },
            _ => {
                return Err(OperationError::WrongTypeError);
            },
        };
        let ghost s = v@;
        pad_with_zeros(&mut v, index);
        let mut j: usize = 0;
        while j < data.len()
            invariant
                j <= data@.len(),
                index + data@.len() <= usize::MAX,
                v@.len() == (if s.len() > index + j { s.len() as int } else { index + j }),
                forall|k: int|
                    0 <= k < v@.len() ==> #[trigger] v@[k] == (if index <= k < index + j {
                        data@[k - index]
                    } else if k < s.len() {
                        s[k]
                    } else {
                        0u8
                    }),
            decreases data@.len() - j,
        {
            if index + j < v.len() {
                v.set(index + j, data[j]);
            } else {
                v.push(data[j]);
            }
            j = j + 1;
        }
        assert(v@ =~= overwrite(s, index as nat, data@));
        let n = v.len();
        *self = Value::String(ValueString { data: v });
        Ok(n)
    }

    /// Sets bit `bitoffset` of the string to `on` (extending it with zero bytes as needed;
    /// nil counts as empty) and gives the bit's previous value.
    pub fn setbit(&mut self, bitoffset: usize, on: bool) -> (r: Result<bool, OperationError>)
        ensures
            with_message(r) == op_setbit(old(self)@, bitoffset as nat, on).0,
            final(self)@ == op_setbit(old(self)@, bitoffset as nat, on).1,
            match old(self)@ {
                ValueModel::Str(s) => final(self)@ == ValueModel::Str(set_bit(s, bitoffset as nat, on))
                    && (r matches Ok(b) && b == get_bit(s, bitoffset as nat)),
                ValueModel::Nil => final(self)@ == ValueModel::Str(
                    set_bit(Seq::empty(), bitoffset as nat, on),
                ) && (r matches Ok(b) && !b),
                _ => r matches Err(OperationError::WrongTypeError) && final(self)@ == old(self)@,
            },
    {
        let mut v: Vec<u8> = match self {
            Value::String(s) => copy_bytes(s.data.as_slice()),
            Value::Nil => Vec::new(),
            _ => {
                return Err(OperationError::WrongTypeError);
            },
        };
        let ghost s = v@;
        let byte = bitoffset / 8;
        pad_with_zeros(&mut v, byte + 1);
        let mask: u8 = 128u8 >> ((bitoffset % 8) as u8);
        let b = v[byte];
        let old_bit = b & mask != 0;
        let nb: u8 = if on { b | mask } else { b & !mask };
        v.set(byte, nb);
        proof {
            if byte >= s.len() {
                assert(pad_to(s, (byte + 1) as nat)[byte as int] == 0u8);
                assert(0u8 & mask == 0u8) by (bit_vector);
            } else {
                assert(pad_to(s, (byte + 1) as nat)[byte as int] == s[byte as int]);
            }
        }
        *self = Value::String(ValueString { data: v });
        Ok(old_bit)
    }

    /// The bit at `bitoffset` of the string; bits past its end, and of nil, are 0.
    pub fn getbit(&self, bitoffset: usize) -> (r: Result<bool, OperationError>)
        ensures
            match self@ {
                ValueModel::Str(s) => r matches Ok(b) && b == get_bit(s, bitoffset as nat),
                ValueModel::Nil => r matches Ok(b) && !b,
                _ => r matches Err(OperationError::WrongTypeError),
            },
    {
        match self {
            Value::String(s) => {
                let byte = bitoffset / 8;
                if byte >= s.data.len() {
                    return Ok(false);
                }
                let mask: u8 = 128u8 >> ((bitoffset % 8) as u8);
                Ok(s.data[byte] & mask != 0)
            },
            Value::Nil => Ok(false),
            _ => Err(OperationError::WrongTypeError),
        }
    }

    /// Adds `el` at the tail (`right`) or head of the list (nil becomes a list), and gives
    /// the new length.
    pub fn push(&mut self, el: Vec<u8>, right: bool) -> (r: Result<usize, OperationError>)
        ensures
            with_message(r) == op_push(old(self)@, el@, right).0,
            final(self)@ == op_push(old(self)@, el@, right).1,
            match old(self)@ {
                ValueModel::List(l) => {
                    let nl = if right { l.push(el@) } else { seq![el@] + l };
                    final(self)@ == ValueModel::List(nl) && (r matches Ok(n) && n == nl.len())
                },
                ValueModel::Nil => final(self)@ == ValueModel::List(seq![el@]) && (r matches Ok(n)
                    && n == 1),
                _ => r matches Err(OperationError::WrongTypeError) && final(self)@ == old(self)@,
            },
    {
        match self {
            Value::List(list) => {
                list.push(el, right);
                Ok(list.llen())
            },
            Value::Nil => {
                let mut list = ValueList::new();
                list.push(el, right);
                assert(list@ =~= seq![el@]);
                *self = Value::List(list);
                Ok(1)
            },
            _ => Err(OperationError::WrongTypeError),
        }
    }

    /// Takes the element at the tail (`right`) or head of the list; `None` for an empty
    /// list or nil.
    pub fn pop(&mut self, right: bool) -> (r: Result<Option<Vec<u8>>, OperationError>)
        ensures
            match r {
                Ok(Some(v)) => op_pop(old(self)@, right).0 == Ok::<Option<Seq<u8>>, Seq<char>>(Some(v@)),
                Ok(None) => op_pop(old(self)@, right).0 == Ok::<Option<Seq<u8>>, Seq<char>>(None),
                Err(e) => op_pop(old(self)@, right).0 == Err::<Option<Seq<u8>>, Seq<char>>(error_message(e)),
            },
            final(self)@ == op_pop(old(self)@, right).1,
            match old(self)@ {
                ValueModel::List(l) => if l.len() == 0 {
                    r matches Ok(None) && final(self)@ == old(self)@
                } else if right {
                    r matches Ok(Some(v)) && v@ == l.last() && final(self)@ == ValueModel::List(
                        l.drop_last(),
                    )
                } else {
                    r matches Ok(Some(v)) && v@ == l[0] && final(self)@ == ValueModel::List(
                        l.drop_first(),
                    )
                },
                ValueModel::Nil => r matches Ok(None) && final(self)@ == old(self)@,
                _ => r matches Err(OperationError::WrongTypeError) && final(self)@ == old(self)@,
            },
    {
        match self {
            Value::List(list) => Ok(list.pop(right)),
            Value::Nil => Ok(None),
            _ => Err(OperationError::WrongTypeError),
        }
    }

    /// The list element at `index` (negative counts from the tail); `None` outside the list
    /// and for nil.
    pub fn lindex(&self, index: i64) -> (r: Result<Option<&[u8]>, OperationError>)
        ensures
            match self@ {
                ValueModel::List(l) => match normalize(index as int, l.len()) {
                    Ok(i) => r matches Ok(Some(b)) && b@ == l[i as int],
                    Err(_) => r matches Ok(None),
                },
                ValueModel::Nil => r matches Ok(None),
                _ => r matches Err(OperationError::WrongTypeError),
            },
    {
        match self {
            Value::List(list) => Ok(list.lindex(index)),
            Value::Nil => Ok(None),
            _ => Err(OperationError::WrongTypeError),
        }
    }

    /// Inserts `newvalue` before (or after) the first list element equal to `pivot` and gives
    /// the new length; `None` when there is no such element, or for nil.
    pub fn linsert(&mut self, before: bool, pivot: Vec<u8>, newvalue: Vec<u8>) -> (r: Result<
        Option<usize>,
        OperationError,
    >)
        ensures
            match old(self)@ {
                ValueModel::List(l) => match r {
                    Ok(None) => !l.contains(pivot@) && final(self)@ == old(self)@,
                    Ok(Some(n)) => l.contains(pivot@) && final(self)@ == ValueModel::List(
                        l.insert(
                            if before { first_index(l, pivot@) } else { first_index(l, pivot@) + 1 },
                            newvalue@,
                        ),
                    ) && n == l.len() + 1,
                    Err(_) => false,
                },
                ValueModel::Nil => r matches Ok(None) && final(self)@ == old(self)@,
                _ => r matches Err(OperationError::WrongTypeError) && final(self)@ == old(self)@,
            },
    {
        match self {
            Value::List(list) => Ok(list.linsert(before, pivot, newvalue)),
            Value::Nil => Ok(None),
            _ => Err(OperationError::WrongTypeError),
        }
    }

    /// The length of the list (0 for nil).
    pub fn llen(&self) -> (r: Result<usize, OperationError>)
        ensures
            match self@ {
                ValueModel::List(l) => r matches Ok(n) && n == l.len(),
                ValueModel::Nil => r matches Ok(n) && n == 0,
                _ => r matches Err(OperationError::WrongTypeError),
            },
    {
        match self {
            Value::List(list) => Ok(list.llen()),
            Value::Nil => Ok(0),
            _ => Err(OperationError::WrongTypeError),
        }
    }

    /// The list elements between the inclusive positions `start` and `stop`; nothing for
    /// nil.
    pub fn lrange(&self, start: i64, stop: i64) -> (r: Result<Vec<&[u8]>, OperationError>)
        ensures
            match self@ {
                ValueModel::List(l) => r matches Ok(v) && v@.map_values(|b: &[u8]| b@) == l.subrange(
                    range_window(start as int, stop as int, l.len()).0,
                    range_window(start as int, stop as int, l.len()).1,
                ),
                ValueModel::Nil => r matches Ok(v) && v@.len() == 0,
                _ => r matches Err(OperationError::WrongTypeError),
            },
    {
        match self {
            Value::List(list) => Ok(list.lrange(start, stop)),
            Value::Nil => Ok(Vec::new()),
            _ => Err(OperationError::WrongTypeError),
        }
    }

    /// Removes list elements equal to `newvalue` (see `ValueList::lrem`) and gives how many.
    pub fn lrem(&mut self, left: bool, limit: usize, newvalue: Vec<u8>) -> (r: Result<
        usize,
        OperationError,
    >)
        ensures
            match old(self)@ {
                ValueModel::List(l) => final(self)@ == ValueModel::List(
                    lrem_result(l, left, limit as nat, newvalue@),
                ) && (r matches Ok(n) && n == lrem_count(
                    count_occurrences(l, newvalue@),
                    limit as nat,
                )),
                ValueModel::Nil => r matches Ok(n) && n == 0 && final(self)@ == old(self)@,
                _ => r matches Err(OperationError::WrongTypeError) && final(self)@ == old(self)@,
            },
    {
        match self {
            Value::List(list) => Ok(list.lrem(left, limit, newvalue)),
            Value::Nil => Ok(0),
            _ => Err(OperationError::WrongTypeError),
        }
    }

    /// Replaces the list element at `index`; `OutOfBoundsError` outside the list,
    /// `UnknownKeyError` for nil.
    pub fn lset(&mut self, index: i64, newvalue: Vec<u8>) -> (r: Result<(), OperationError>)
        ensures
            match old(self)@ {
                ValueModel::List(l) => match normalize(index as int, l.len()) {
                    Ok(i) => r is Ok && final(self)@ == ValueModel::List(l.update(i as int, newvalue@)),
                    Err(_) => r matches Err(OperationError::OutOfBoundsError) && final(self)@ == old(
                        self,
                    )@,
                },
                ValueModel::Nil => r matches Err(OperationError::UnknownKeyError) && final(self)@
                    == old(self)@,
                _ => r matches Err(OperationError::WrongTypeError) && final(self)@ == old(self)@,
            },
    {
        match self {
            Value::List(list) => list.lset(index, newvalue),
            Value::Nil => Err(OperationError::UnknownKeyError),
            _ => Err(OperationError::WrongTypeError),
        }
    }

    /// Keeps only the list elements between the inclusive positions `start` and `end`.
    pub fn ltrim(&mut self, start: i64, end: i64) -> (r: Result<(), OperationError>)
        ensures
            match old(self)@ {
                ValueModel::List(l) => r is Ok && final(self)@ == ValueModel::List(
                    l.subrange(
                        range_window(start as int, end as int, l.len()).0,
                        range_window(start as int, end as int, l.len()).1,
                    ),
                ),
                ValueModel::Nil => r is Ok && final(self)@ == old(self)@,
                _ => r matches Err(OperationError::WrongTypeError) && final(self)@ == old(self)@,
            },
    {
        match self {
            Value::List(list) => list.ltrim(start, end),
            Value::Nil => Ok(()),
            _ => Err(OperationError::WrongTypeError),
        }
    }


    /// Adds the elements of `data` to the set (nil becomes a set). Gives whether the set
    /// changed, or was created. The set keeps every element it is given, so its count is
    /// exact.
    pub fn pfadd(&mut self, data: Vec<Vec<u8>>) -> (r: Result<bool, OperationError>)
        ensures
            match old(self)@ {
                ValueModel::UnorderedSet(m) => final(self)@ == ValueModel::UnorderedSet(
                    add_members(m, elements_model(data@)),
                ) && (r matches Ok(b) && b == (add_members(m, elements_model(data@)).len() > m.len())),
                ValueModel::Nil => final(self)@ == ValueModel::UnorderedSet(
                    add_members(Seq::empty(), elements_model(data@)),
                ) && (r matches Ok(b) && b),
                _ => r matches Err(OperationError::WrongTypeError) && final(self)@ == old(self)@,
            },
    {
        match self {
            Value::UnorderedSet(set) => {
                let before = set.members.len();
                add_all(&mut set.members, &data);
                Ok(set.members.len() > before)
            },
            Value::Nil => {
                let mut members: Vec<Vec<u8>> = Vec::new();
                assert(elements_model(members@) =~= Seq::<Seq<u8>>::empty());
                add_all(&mut members, &data);
                *self = Value::UnorderedSet(ValueSet { members });
                Ok(true)
            },
            _ => Err(OperationError::WrongTypeError),
        }
    }

    /// The number of elements of the set (0 for nil).
    pub fn pfcount(&self) -> (r: Result<usize, OperationError>)
        ensures
            match self@ {
                ValueModel::UnorderedSet(m) => r matches Ok(n) && n == m.len() && (m.no_duplicates()
                    ==> n == m.to_set().len()),
                ValueModel::Nil => r matches Ok(n) && n == 0,
                _ => r matches Err(OperationError::WrongTypeError),
            },
    {
        match self {
            Value::UnorderedSet(set) => {
                proof {
                    let m = elements_model(set.members@);
                    if m.no_duplicates() {
                        m.unique_seq_to_set();
                    }
                }
                Ok(set.members.len())
            },
            Value::Nil => Ok(0),
            _ => Err(OperationError::WrongTypeError),
        }
    }

    /// Makes the set the union of itself and each of `values`, in turn (nil counts as
    /// empty). `WrongTypeError`, and no change, when any of them is neither a set nor nil.
    pub fn pfmerge(&mut self, values: Vec<&Value>) -> (r: Result<(), OperationError>)
        ensures
            ({
                let vs = values@.map_values(|v: &Value| v@);
                if is_set_or_nil(old(self)@) && forall|i: int| 0 <= i < vs.len() ==> is_set_or_nil(#[trigger] vs[i]) {
                    r is Ok && final(self)@ == ValueModel::UnorderedSet(
                        merge_members(set_members(old(self)@), vs),
                    )
                } else {
                    r matches Err(OperationError::WrongTypeError) && final(self)@ == old(self)@
                }
            }),
    {
        let ghost vs = values@.map_values(|v: &Value| v@);
        if !(self.is_set() || self.is_nil()) {
            return Err(OperationError::WrongTypeError);
        }
        let mut i: usize = 0;
        while i < values.len()
            invariant
                i <= values@.len(),
                vs == values@.map_values(|v: &Value| v@),
                forall|j: int| 0 <= j < i ==> is_set_or_nil(#[trigger] vs[j]),
            decreases values@.len() - i,
        {
            if !(values[i].is_set() || values[i].is_nil()) {
                proof {
                    assert(!is_set_or_nil(vs[i as int]));
                }
                return Err(OperationError::WrongTypeError);
            }
            i = i + 1;
        }
        let mut members: Vec<Vec<u8>> = match self {
            Value::UnorderedSet(set) => copy_members(&set.members),
            _ => Vec::new(),
        };
        assert(elements_model(members@) == set_members(old(self)@));
        assert(vs.skip(0) =~= vs);
        let mut k: usize = 0;
        while k < values.len()
            invariant
                k <= values@.len(),
                vs == values@.map_values(|v: &Value| v@),
                merge_members(elements_model(members@), vs.skip(k as int)) == merge_members(
                    set_members(old(self)@),
                    vs,
                ),
            decreases values@.len() - k,
        {
            proof {
                assert(vs.skip(k as int).drop_first() =~= vs.skip(k + 1));
                assert(vs.skip(k as int)[0] == vs[k as int]);
            }
            match values[k] {
                Value::UnorderedSet(other) => {
                    add_all(&mut members, &other.members);
                },
                _ => {
                    proof {
                        assert(add_members(elements_model(members@), Seq::empty()) == elements_model(members@));
                    }
                },
            }
            k = k + 1;
        }
        assert(vs.skip(values@.len() as int) =~= Seq::<ValueModel>::empty());
        *self = Value::UnorderedSet(ValueSet { members });
        Ok(())
    }

    /// Appends the dump form of the value to `writer` (nothing for nil) and gives the
    /// number of bytes written.
    pub fn dump(&self, writer: &mut Vec<u8>) -> (r: usize)
        ensures
            final(writer)@ == old(writer)@ + spec_dump(self@),
            r == spec_dump(self@).len(),
    {
        let start_len = writer.len();
        match self {
            Value::Nil => {},
            Value::String(s) => {
                writer.push(TYPE_STRING);
                encode_bytes(s.data.as_slice(), writer);
                writer.push(RDB_VERSION);
                writer.push(0);
            },
            Value::List(l) => {
                l.dump(writer);
            },
            Value::UnorderedSet(set) => {
                writer.push(TYPE_SET);
                encode_len(set.members.len(), writer);
                let ghost m = elements_model(set.members@);
                let ghost header = writer@;
                let mut i: usize = 0;
                while i < set.members.len()
                    invariant
                        m == elements_model(set.members@),
                        i <= set.members@.len(),
                        writer@ == header + encode_members(m.take(i as int)),
                    decreases set.members@.len() - i,
                {
                    encode_bytes(set.members[i].as_slice(), writer);
                    assert(m.take(i + 1).drop_last() =~= m.take(i as int));
                    i = i + 1;
                }
                assert(m.take(m.len() as int) =~= m);
                writer.push(RDB_VERSION);
                writer.push(0);
            },
            Value::SortedSet(z) => {
                writer.push(TYPE_ZSET);
                encode_len(z.entries.len(), writer);
                let ghost m = z.entries@.map_values(|e: (u64, Vec<u8>)| (e.0, e.1@));
                let ghost header = writer@;
                let mut i: usize = 0;
                while i < z.entries.len()
                    invariant
                        m == z.entries@.map_values(|e: (u64, Vec<u8>)| (e.0, e.1@)),
                        i <= z.entries@.len(),
                        writer@ == header + encode_scored(m.take(i as int)),
                    decreases z.entries@.len() - i,
                {
                    encode_bytes(z.entries[i].1.as_slice(), writer);
                    push_score(z.entries[i].0, writer);
                    assert(m.take(i + 1).drop_last() =~= m.take(i as int));
                    i = i + 1;
                }
                assert(m.take(m.len() as int) =~= m);
                writer.push(RDB_VERSION);
                writer.push(0);
            },
        }
        assert(writer@ =~= old(writer)@ + spec_dump(self@));
        writer.len() - start_len
    }

    /// The line that `DEBUG OBJECT` shows for the value.
    pub fn debug_object(&self) -> (r: String)
        ensures
            r@ == debug_line(encoding_name(self@), spec_dump(self@).len()),
    {
        let mut data: Vec<u8> = Vec::new();
        let n = self.dump(&mut data);
        let encoding: &str = match self {
            Value::Nil => "none",
            Value::String(_) => "raw",
            Value::List(_) => "linkedlist",
            Value::UnorderedSet(_) => "hashtable",
            Value::SortedSet(_) => "skiplist",
        };
        let mut r = String::from_str("Value at:0x0000000000 refcount:1 encoding:");
        r.append(encoding);
        r.append(" serializedlength:");
        push_decimal_string(n as u64, &mut r);
        r.append(" lru:0 lru_seconds_idle:0");
        r
    }

}

} // verus!
