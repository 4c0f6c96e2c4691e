use vstd::prelude::*;
use vstd::string::*;

use crate::bytes::{bytes_eq, copy_bytes};
use crate::decimal::{decimal_chars, push_decimal_string};
use crate::errors::OperationError;
use crate::rdbutil::{encode_bytes, encode_len, spec_encode_bytes, spec_encode_len};

verus! {

/// The tag of a list in the dump format.
pub const TYPE_LIST: u8 = 1;

/// The version of the dump format that trails each dump, least significant byte first.
pub const RDB_VERSION: u8 = 6;

/// A list of byte strings, kept in order.
pub enum ValueList {
    Data(Vec<Vec<u8>>),
}

/// The byte strings held by a vector of buffers.
pub open spec fn elements_model(v: Seq<Vec<u8>>) -> Seq<Seq<u8>> {
    v.map_values(|x: Vec<u8>| x@)
}

impl View for ValueList {
    type V = Seq<Seq<u8>>;

    open spec fn view(&self) -> Seq<Seq<u8>> {
        match self {
            ValueList::Data(v) => elements_model(v@),
        }
    }
}

/// Where a position counted from the start (or, when negative, from the end) falls in a
/// list of `len` elements: `Ok` with the index inside the list, else `Err(0)` before its start
/// and `Err(len)` past its end.
pub open spec fn normalize(position: int, len: nat) -> Result<nat, nat> {
    let p = if position < 0 { position + len } else { position };
    if p < 0 {
        Err(0)
    } else if p >= len {
        Err(len)
    } else {
        Ok(p as nat)
    }
}

/// The part `[lo, hi)` of a list of `len` elements that the inclusive positions `start` and
/// `stop` select; negative positions count from the end, positions past either end are
/// moved to it, and an empty selection is `(0, 0)`.
pub open spec fn range_window(start: int, stop: int, len: nat) -> (int, int) {
    let s0 = if start < 0 { start + len } else { start };
    let s = if s0 < 0 { 0 } else { s0 };
    let e0 = if stop < 0 { stop + len } else { stop };
    let e = if e0 >= len { len - 1 } else { e0 };
    if s > e || s >= len {
        (0, 0)
    } else {
        (s, e + 1)
    }
}

/// How many elements of `s` equal `v`.
pub open spec fn count_occurrences(s: Seq<Seq<u8>>, v: Seq<u8>) -> nat
    decreases s.len(),
{
    if s.len() == 0 {
        0
    } else {
        (if s[0] == v { 1nat } else { 0nat }) + count_occurrences(s.drop_first(), v)
    }
}

/// `s` without some of its elements equal to `v`: going from the start, the first `keep`
/// of them stay, the next `remove` of them go, and any further ones stay.
pub open spec fn drop_matches(s: Seq<Seq<u8>>, v: Seq<u8>, keep: nat, remove: nat) -> Seq<Seq<u8>>
    decreases s.len(),
{
    if s.len() == 0 {
        Seq::empty()
    } else if s[0] == v && keep > 0 {
        seq![s[0]] + drop_matches(s.drop_first(), v, (keep - 1) as nat, remove)
    } else if s[0] == v && remove > 0 {
        drop_matches(s.drop_first(), v, keep, (remove - 1) as nat)
    } else {
        seq![s[0]] + drop_matches(s.drop_first(), v, keep, remove)
    }
}

/// How many elements `lrem` removes: all of the `c` matches when `limit` is 0, else at most
/// `limit` of them.
pub open spec fn lrem_count(c: nat, limit: nat) -> nat {
    if limit == 0 || limit > c {
        c
    } else {
        limit
    }
}

/// What `lrem` leaves of `s`: the first (from the head, `left`) or last (from the tail)
/// `lrem_count` elements equal to `v` are gone.
pub open spec fn lrem_result(s: Seq<Seq<u8>>, left: bool, limit: nat, v: Seq<u8>) -> Seq<Seq<u8>> {
    let c = count_occurrences(s, v);
    let k = lrem_count(c, limit);
    if left {
        drop_matches(s, v, 0, k)
    } else {
        drop_matches(s, v, (c - k) as nat, k)
    }
}

/// A change made to a list: a push of an element at the tail (`true`) or the head, or a
/// pop from the tail (`true`) or the head.
pub enum ListOp {
    Push(Seq<u8>, bool),
    Pop(bool),
}

/// The list after one change, as `push` and `pop` make it: a pop from an empty list changes
/// nothing.
pub open spec fn list_step(s: Seq<Seq<u8>>, op: ListOp) -> Seq<Seq<u8>> {
    match op {
        ListOp::Push(el, right) => if right { s.push(el) } else { seq![el] + s },
        ListOp::Pop(right) => if s.len() == 0 {
            s
        } else if right {
            s.drop_last()
        } else {
            s.drop_first()
        },
    }
}

/// The list after the changes `ops`, in order, starting from `s`.
pub open spec fn list_after(s: Seq<Seq<u8>>, ops: Seq<ListOp>) -> Seq<Seq<u8>>
    decreases ops.len(),
{
    if ops.len() == 0 {
        s
    } else {
        list_step(list_after(s, ops.drop_last()), ops.last())
    }
}

/// How many of `ops` are pushes.
pub open spec fn push_count(ops: Seq<ListOp>) -> nat
    decreases ops.len(),
{
    if ops.len() == 0 {
        0
    } else {
        push_count(ops.drop_last()) + (if ops.last() is Push { 1nat } else { 0nat })
    }
}

/// How many of `ops`, made in order from `s`, are pops that took an element (that is, pops
/// of a list that was not empty).
pub open spec fn taken_count(s: Seq<Seq<u8>>, ops: Seq<ListOp>) -> nat
    decreases ops.len(),
{
    if ops.len() == 0 {
        0
    } else {
        taken_count(s, ops.drop_last()) + (if ops.last() is Pop && list_after(s, ops.drop_last()).len() > 0 {
            1nat
        } else {
            0nat
        })
    }
}

/// Whether `idx` is the index of the first element of `s` equal to `v`.
pub open spec fn is_first_index(s: Seq<Seq<u8>>, v: Seq<u8>, idx: int) -> bool {
    &&& 0 <= idx < s.len()
    &&& s[idx] == v
    &&& forall|j: int| 0 <= j < idx ==> s[j] != v
}

/// The index of the first element of `s` equal to `v` (meaningful when there is one).
pub open spec fn first_index(s: Seq<Seq<u8>>, v: Seq<u8>) -> int {
    choose|idx: int| is_first_index(s, v, idx)
}

/// There is one first index.
pub proof fn lemma_first_index(s: Seq<Seq<u8>>, v: Seq<u8>, i: int)
    requires
        is_first_index(s, v, i),
    ensures
        first_index(s, v) == i,
{
    let j = first_index(s, v);
    assert(is_first_index(s, v, j));
    if j < i {
        assert(s[j] != v);
    } else if i < j {
        assert(s[i] != v);
    }
}

/// The dump form of a list: its tag, its length, each element, and the format version.
pub open spec fn spec_dump_list(s: Seq<Seq<u8>>) -> Seq<u8> {
    seq![TYPE_LIST] + spec_encode_len(s.len()) + encode_elements(s) + seq![RDB_VERSION, 0u8]
}

/// The dump forms of the elements of a list, one after the other.
pub open spec fn encode_elements(s: Seq<Seq<u8>>) -> Seq<u8>
    decreases s.len(),
{
    if s.len() == 0 {
        Seq::empty()
    } else {
        encode_elements(s.drop_last()) + spec_encode_bytes(s.last())
    }
}

/// The line that `DEBUG OBJECT` shows for a value.
pub open spec fn debug_line(encoding: Seq<char>, serialized: nat) -> Seq<char> {
    "Value at:0x0000000000 refcount:1 encoding:"@ + encoding + " serializedlength:"@
        + decimal_chars(serialized) + " lru:0 lru_seconds_idle:0"@
}

proof fn lemma_count_skip(s: Seq<Seq<u8>>, v: Seq<u8>, i: int)
    requires
        0 <= i < s.len(),
    ensures
        count_occurrences(s.skip(i), v) == (if s[i] == v { 1nat } else { 0nat })
            + count_occurrences(s.skip(i + 1), v),
{
    assert(s.skip(i).drop_first() =~= s.skip(i + 1));
}

/// Where a position falls in a list of `len` elements (see `normalize`).
pub fn normalize_position(position: i64, len: usize) -> (r: Result<usize, usize>)
    ensures
        match normalize(position as int, len as nat) {
            Ok(p) => r == Ok::<usize, usize>(p as usize),
            Err(p) => r == Err::<usize, usize>(p as usize),
        },
{
    let p: i128 = if position < 0 {
        position as i128 + len as i128
    } else {
        position as i128
    };
    if p < 0 {
        Err(0)
    } else if p >= len as i128 {
        Err(len)
    } else {
        Ok(p as usize)
    }
}

/// The part of a list of `len` elements selected by the inclusive positions `start`, `stop`.
pub fn range_bounds(start: i64, stop: i64, len: usize) -> (r: (usize, usize))
    ensures
        r.0 as int == range_window(start as int, stop as int, len as nat).0,
        r.1 as int == range_window(start as int, stop as int, len as nat).1,
        r.0 <= r.1 <= len,
{
    let l: i128 = len as i128;
    let s0: i128 = if start < 0 { start as i128 + l } else { start as i128 };
    let s: i128 = if s0 < 0 { 0 } else { s0 };
    let e0: i128 = if stop < 0 { stop as i128 + l } else { stop as i128 };
    let e: i128 = if e0 >= l { l - 1 } else { e0 };
    if s > e || s >= l {
        (0, 0)
    } else {
        (s as usize, (e + 1) as usize)
    }
}

/// The index of the first element of `list` equal to `v`, if any.
pub fn find_first(list: &Vec<Vec<u8>>, v: &[u8]) -> (r: Option<usize>)
    ensures
        match r {
            Some(i) => is_first_index(elements_model(list@), v@, i as int) && i < list@.len(),
            None => !elements_model(list@).contains(v@),
        },
{
    let ghost s = elements_model(list@);
    let mut i: usize = 0;
    while i < list.len()
        invariant
            s == elements_model(list@),
            i <= list@.len(),
            forall|j: int| 0 <= j < i ==> s[j] != v@,
        decreases list@.len() - i,
    {
        if bytes_eq(list[i].as_slice(), v) {
            return Some(i);
        }
        i = i + 1;
    }
    None
}

impl ValueList {
    /// An empty list.
    pub fn new() -> (r: ValueList)
        ensures
            r@ == Seq::<Seq<u8>>::empty(),
    {
        let r = ValueList::Data(Vec::new());
        assert(r@ =~= Seq::<Seq<u8>>::empty());
        r
    }

    /// Adds `el` at the tail (`right`) or at the head.
    pub fn push(&mut self, el: Vec<u8>, right: bool)
        ensures
            final(self)@ == (if right { old(self)@.push(el@) } else { seq![el@] + old(self)@ }),
            final(self)@ == list_step(old(self)@, ListOp::Push(el@, right)),
    {
        match self {
            ValueList::Data(list) => {
                let ghost e = el@;
                if right {
                    list.push(el);
                } else {
                    list.insert(0, el);
                }
                assert(elements_model(list@) =~= (if right { old(self)@.push(e) } else { seq![e] + old(self)@ }));
            },
        }
    }

    /// Takes the element at the tail (`right`) or at the head; `None` when the list is empty.
    pub fn pop(&mut self, right: bool) -> (r: Option<Vec<u8>>)
        ensures
            old(self)@.len() == 0 ==> r is None && final(self)@ == old(self)@,
            old(self)@.len() > 0 ==> (r matches Some(v) && (if right {
                v@ == old(self)@.last() && final(self)@ == old(self)@.drop_last()
            } else {
                v@ == old(self)@[0] && final(self)@ == old(self)@.drop_first()
            })),
            final(self)@ == list_step(old(self)@, ListOp::Pop(right)),
    {
        match self {
            ValueList::Data(list) => {
                if list.len() == 0 {
                    return None;
                }
                let r = if right {
                    list.pop()
                } else {
                    Some(list.remove(0))
                };
                assert(elements_model(list@) =~= (if right { old(self)@.drop_last() } else { old(self)@.drop_first() }));
                r
            },
        }
    }

    /// The element at `index` (negative counts from the tail); `None` outside the list.
    pub fn lindex(&self, index: i64) -> (r: Option<&[u8]>)
        ensures
            match normalize(index as int, self@.len()) {
                Ok(i) => r matches Some(b) && b@ == self@[i as int],
                Err(_) => r is None,
            },
    {
        match self {
            ValueList::Data(list) => {
                match normalize_position(index, list.len()) {
                    Ok(i) => Some(list[i].as_slice()),
                    Err(_) => None,
                }
            },
        }
    }

    /// Inserts `newvalue` before (or after) the first element equal to `pivot`, and gives
    /// the new length; `None`, and no change, when no element equals `pivot`.
    pub fn linsert(&mut self, before: bool, pivot: Vec<u8>, newvalue: Vec<u8>) -> (r: Option<usize>)
        ensures
            match r {
                None => !old(self)@.contains(pivot@) && final(self)@ == old(self)@,
                Some(n) => old(self)@.contains(pivot@) && final(self)@ == old(self)@.insert(
                    if before { first_index(old(self)@, pivot@) } else { first_index(old(self)@, pivot@) + 1 },
                    newvalue@,
                ) && n == old(self)@.len() + 1,
            },
    {
        match self {
            ValueList::Data(list) => {
                match find_first(list, pivot.as_slice()) {
                    Some(i) => {
                        let n = list.len();
                        assert(i < n);
                        let pos = if before { i } else { i + 1 };
                        let ghost e = newvalue@;
                        list.insert(pos, newvalue);
                        assert(elements_model(list@) =~= old(self)@.insert(pos as int, e));
                        proof {
                            lemma_first_index(old(self)@, pivot@, i as int);
                        }
                        Some(list.len())
                    },
                    None => None,
                }
            },
        }
    }

    /// The number of elements.
    pub fn llen(&self) -> (r: usize)
        ensures
            r == self@.len(),
    {
        match self {
            ValueList::Data(list) => list.len(),
        }
    }

    /// The elements between the inclusive positions `start` and `stop` (see `range_window`).
    pub fn lrange(&self, start: i64, stop: i64) -> (r: Vec<&[u8]>)
        ensures
            r@.map_values(|b: &[u8]| b@) == self@.subrange(
                range_window(start as int, stop as int, self@.len()).0,
                range_window(start as int, stop as int, self@.len()).1,
            ),
    {
        match self {
            ValueList::Data(list) => {
                let (lo, hi) = range_bounds(start, stop, list.len());
                let ghost s = elements_model(list@);
                let mut r: Vec<&[u8]> = Vec::new();
                let mut i: usize = lo;
                while i < hi
                    invariant
                        s == elements_model(list@),
                        lo <= i <= hi,
                        hi <= list@.len(),
                        r@.map_values(|b: &[u8]| b@) == s.subrange(lo as int, i as int),
                    decreases hi - i,
                {
                    let ghost before = r@;
                    let x: &[u8] = list[i].as_slice();
                    assert(x@ == s[i as int]);
                    r.push(x);
                    assert(r@ == before.push(x));
                    assert(before.push(x).map_values(|b: &[u8]| b@) =~= before.map_values(|b: &[u8]| b@).push(x@));
                    i = i + 1;
                    assert(r@.map_values(|b: &[u8]| b@) =~= s.subrange(lo as int, i as int));
                }
                r
            },
        }
    }

    /// Removes elements equal to `value`: up to `limit` of them (all when `limit` is 0),
    /// from the head when `left`, else from the tail. Gives how many it removed.
    pub fn lrem(&mut self, left: bool, limit: usize, value: Vec<u8>) -> (r: usize)
        ensures
            r == lrem_count(count_occurrences(old(self)@, value@), limit as nat),
            final(self)@ == lrem_result(old(self)@, left, limit as nat, value@),
    {
        match self {
            ValueList::Data(list) => {
                let ghost s = elements_model(list@);
                let v = value.as_slice();
                // how many elements match
                let mut c: usize = 0;
                let mut i: usize = 0;
                assert(s.skip(0) =~= s);
                while i < list.len()
                    invariant
                        s == elements_model(list@),
                        i <= list@.len(),
                        c + count_occurrences(s.skip(i as int), v@) == count_occurrences(s, v@),
                        c <= i,
                    decreases list@.len() - i,
                {
                    proof {
                        lemma_count_skip(s, v@, i as int);
                    }
                    if bytes_eq(list[i].as_slice(), v) {
                        c = c + 1;
                    }
                    i = i + 1;
                }
                assert(s.skip(s.len() as int) =~= Seq::<Seq<u8>>::empty());
                assert(s.skip(0) =~= s);
                let k: usize = if limit == 0 || limit > c { c } else { limit };
                let mut keep: usize = if left { 0 } else { c - k };
                let mut remove: usize = k;
                let ghost keep0 = keep as nat;
                let mut kept: Vec<Vec<u8>> = Vec::new();
                let mut j: usize = 0;
                while j < list.len()
                    invariant
                        s == elements_model(list@),
                        j <= list@.len(),
                        keep + remove <= count_occurrences(s.skip(j as int), v@),
                        elements_model(kept@) + drop_matches(s.skip(j as int), v@, keep as nat, remove as nat)
                            == drop_matches(s, v@, keep0, k as nat),
                    decreases list@.len() - j,
                {
                    proof {
                        lemma_count_skip(s, v@, j as int);
                        assert(s.skip(j as int).drop_first() =~= s.skip(j + 1));
                        assert(s.skip(j as int)[0] == s[j as int]);
                    }
                    let ghost before = elements_model(kept@);
                    let same = bytes_eq(list[j].as_slice(), v);
                    if same && keep > 0 {
                        kept.push(copy_bytes(list[j].as_slice()));
                        keep = keep - 1;
                    } else if same && remove > 0 {
                        remove = remove - 1;
                    } else {
                        kept.push(copy_bytes(list[j].as_slice()));
                    }
                    proof {
                        assert(elements_model(kept@) =~= if same && remove + 1 > 0 && elements_model(kept@).len() == before.len() {
                            before
                        } else {
                            before.push(s[j as int])
                        });
                    }
                    j = j + 1;
                    assert(elements_model(kept@) + drop_matches(s.skip(j as int), v@, keep as nat, remove as nat)
                        =~= drop_matches(s, v@, keep0, k as nat));
                }
                assert(s.skip(list@.len() as int) =~= Seq::<Seq<u8>>::empty());
                assert(elements_model(kept@) + Seq::<Seq<u8>>::empty() =~= elements_model(kept@));
                *list = kept;
                k
            },
        }
    }

    /// Replaces the element at `index` (negative counts from the tail) with `value`;
    /// `OutOfBoundsError`, and no change, outside the list.
    pub fn lset(&mut self, index: i64, value: Vec<u8>) -> (r: Result<(), OperationError>)
        ensures
            match normalize(index as int, old(self)@.len()) {
                Ok(i) => r is Ok && final(self)@ == old(self)@.update(i as int, value@),
                Err(_) => r matches Err(OperationError::OutOfBoundsError) && final(self)@ == old(self)@,
            },
    {
        match self {
            ValueList::Data(list) => {
                match normalize_position(index, list.len()) {
                    Ok(i) => {
                        let ghost e = value@;
                        list.set(i, value);
                        assert(elements_model(list@) =~= old(self)@.update(i as int, e));
                        Ok(())
                    },
                    Err(_) => Err(OperationError::OutOfBoundsError),
                }
            },
        }
    }

    /// Keeps only the elements between the inclusive positions `start` and `stop`.
    pub fn ltrim(&mut self, start: i64, stop: i64) -> (r: Result<(), OperationError>)
        ensures
            r is Ok,
            final(self)@ == old(self)@.subrange(
                range_window(start as int, stop as int, old(self)@.len()).0,
                range_window(start as int, stop as int, old(self)@.len()).1,
            ),
    {
        match self {
            ValueList::Data(list) => {
                let (lo, hi) = range_bounds(start, stop, list.len());
                let ghost s = list@;
                list.truncate(hi);
                let kept = list.split_off(lo);
                *list = kept;
                assert(list@ =~= s.subrange(lo as int, hi as int));
                assert(elements_model(list@) =~= elements_model(s).subrange(lo as int, hi as int));
                Ok(())
            },
        }
    }

    /// Appends the dump form of the list to `writer`, and gives the number of bytes written.
    pub fn dump(&self, writer: &mut Vec<u8>) -> (r: usize)
        ensures
            final(writer)@ == old(writer)@ + spec_dump_list(self@),
            r == spec_dump_list(self@).len(),
    {
        match self {
            ValueList::Data(list) => {
                let ghost s = elements_model(list@);
                let ghost start = writer@;
                let start_len = writer.len();
                writer.push(TYPE_LIST);
                encode_len(list.len(), writer);
                let ghost header = writer@;
                let mut i: usize = 0;
                while i < list.len()
                    invariant
                        s == elements_model(list@),
                        i <= list@.len(),
                        writer@ == header + encode_elements(s.take(i as int)),
                    decreases list@.len() - i,
                {
                    encode_bytes(list[i].as_slice(), writer);
                    assert(s.take(i + 1).drop_last() =~= s.take(i as int));
                    i = i + 1;
                }
                assert(s.take(s.len() as int) =~= s);
                writer.push(RDB_VERSION);
                writer.push(0);
                assert(writer@ =~= start + spec_dump_list(s));
                writer.len() - start_len
            },
        }
    }

    /// The line that `DEBUG OBJECT` shows for the list.
    pub fn debug_object(&self) -> (r: String)
        ensures
            r@ == debug_line("linkedlist"@, spec_dump_list(self@).len()),
    {
        let mut data: Vec<u8> = Vec::new();
        let n = self.dump(&mut data);
        let mut r = String::from_str("Value at:0x0000000000 refcount:1 encoding:");
        r.append("linkedlist");
        r.append(" serializedlength:");
        push_decimal_string(n as u64, &mut r);
        r.append(" lru:0 lru_seconds_idle:0");
        r
    }
}

impl Default for ValueList {
    fn default() -> (r: ValueList)
        ensures
            r@ == Seq::<Seq<u8>>::empty(),
    {
        ValueList::new()
    }
}

} // verus!
