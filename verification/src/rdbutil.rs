use vstd::prelude::*;

verus! {

/// Why a value could not be written in the dump format.
#[derive(Debug)]
pub enum EncodeError {
    IOError(std::io::Error),
    OverflowError,
}

/// The `n` low bytes of `u`, least significant first.
pub open spec fn le_bytes(u: nat, n: nat) -> Seq<u8>
    decreases n,
{
    if n == 0 {
        Seq::empty()
    } else {
        seq![(u % 256) as u8] + le_bytes(u / 256, (n - 1) as nat)
    }
}

/// The `n` low bytes of `u`, most significant first.
pub open spec fn be_bytes(u: nat, n: nat) -> Seq<u8>
    decreases n,
{
    if n == 0 {
        Seq::empty()
    } else {
        be_bytes(u / 256, (n - 1) as nat) + seq![(u % 256) as u8]
    }
}

/// `v` in two's complement on `n` bytes, as an unsigned number.
pub open spec fn twos_complement(v: int, n: nat) -> nat {
    if v < 0 {
        (v + vstd::arithmetic::power2::pow2(8 * n)) as nat
    } else {
        v as nat
    }
}

/// The dump form of an integer: a tag byte for its width (`0xC0` for 8 bits, `0xC1` for 16,
/// `0xC2` for 32), then the value in two's complement, least significant byte first.
/// A value that does not fit in 32 bits has no such form.
pub open spec fn spec_encode_i64(v: int) -> Option<Seq<u8>> {
    if -128 <= v < 128 {
        Some(seq![0xC0u8] + le_bytes(twos_complement(v, 1), 1))
    } else if -32768 <= v < 32768 {
        Some(seq![0xC1u8] + le_bytes(twos_complement(v, 2), 2))
    } else if -2147483648 <= v < 2147483648 {
        Some(seq![0xC2u8] + le_bytes(twos_complement(v, 4), 4))
    } else {
        None
    }
}

/// The dump form of a length: one byte below 64, two bytes (tag `01`) below 16384, then
/// `0x80` and four bytes, or `0x81` and eight bytes, most significant first.
pub open spec fn spec_encode_len(len: nat) -> Seq<u8> {
    if len < 64 {
        seq![len as u8]
    } else if len < 16384 {
        seq![(64 + len / 256) as u8, (len % 256) as u8]
    } else if len <= u32::MAX {
        seq![0x80u8] + be_bytes(len, 4)
    } else {
        seq![0x81u8] + be_bytes(len, 8)
    }
}

/// The dump form of a byte string: its length, then its bytes.
pub open spec fn spec_encode_bytes(b: Seq<u8>) -> Seq<u8> {
    spec_encode_len(b.len()) + b
}

/// Appends the `n` low bytes of `u` to `out`, least significant first.
fn push_le(u: u64, n: usize, out: &mut Vec<u8>)
    ensures
        final(out)@ == old(out)@ + le_bytes(u as nat, n as nat),
{
    let ghost start = out@;
    let mut v: u64 = u;
    let mut k: usize = 0;
    while k < n
        invariant
            k <= n,
            out@ + le_bytes(v as nat, (n - k) as nat) == start + le_bytes(u as nat, n as nat),
        decreases n - k,
    {
        let b: u8 = (v % 256) as u8;
        proof {
            assert(le_bytes(v as nat, (n - k) as nat) == seq![b] + le_bytes(
                (v / 256) as nat,
                (n - k - 1) as nat,
            ));
            assert(out@.push(b) + le_bytes((v / 256) as nat, (n - k - 1) as nat) =~= out@ + (seq![b]
                + le_bytes((v / 256) as nat, (n - k - 1) as nat)));
        }
        out.push(b);
        v = v / 256;
        k = k + 1;
    }
    assert(le_bytes(v as nat, 0) =~= Seq::<u8>::empty());
    assert(out@ + Seq::<u8>::empty() =~= out@);
}

/// Appends the `n` low bytes of `u` to `out`, most significant first.
fn push_be(u: u64, n: usize, out: &mut Vec<u8>)
    ensures
        final(out)@ == old(out)@ + be_bytes(u as nat, n as nat),
    decreases n,
{
    if n > 0 {
        push_be(u / 256, n - 1, out);
        out.push((u % 256) as u8);
        assert(final(out)@ =~= old(out)@ + be_bytes(u as nat, n as nat));
    } else {
        assert(final(out)@ =~= old(out)@ + be_bytes(u as nat, n as nat));
    }
}

/// Appends the dump form of `value` to `enc`; `OverflowError` (and nothing written) when it
/// does not fit in 32 bits.
pub fn encode_i64(value: i64, enc: &mut Vec<u8>) -> (r: Result<(), EncodeError>)
    ensures
        match spec_encode_i64(value as int) {
            Some(b) => r is Ok && final(enc)@ == old(enc)@ + b,
            None => r matches Err(EncodeError::OverflowError) && final(enc)@ == old(enc)@,
        },
{
    proof {
        vstd::arithmetic::power2::lemma2_to64();
    }
    if -128 <= value && value < 128 {
        enc.push(0xC0);
        let u: u64 = if value < 0 { (value + 256) as u64 } else { value as u64 };
        push_le(u, 1, enc);
        Ok(())
    } else if -32768 <= value && value < 32768 {
        enc.push(0xC1);
        let u: u64 = if value < 0 { (value + 65536) as u64 } else { value as u64 };
        push_le(u, 2, enc);
        Ok(())
    } else if -2147483648 <= value && value < 2147483648 {
        enc.push(0xC2);
        let u: u64 = if value < 0 { (value + 4294967296) as u64 } else { value as u64 };
        push_le(u, 4, enc);
        Ok(())
    } else {
        Err(EncodeError::OverflowError)
    }
}

/// Appends the dump form of the length `len` to `out`.
pub fn encode_len(len: usize, out: &mut Vec<u8>)
    ensures
        final(out)@ == old(out)@ + spec_encode_len(len as nat),
{
    if len < 64 {
        out.push(len as u8);
    } else if len < 16384 {
        out.push((64 + len / 256) as u8);
        out.push((len % 256) as u8);
    } else if len as u64 <= 4294967295u64 {
        out.push(0x80);
        push_be(len as u64, 4, out);
    } else {
        out.push(0x81);
        push_be(len as u64, 8, out);
    }
    assert(final(out)@ =~= old(out)@ + spec_encode_len(len as nat));
}

/// Appends the dump form of the byte string `b` to `out`.
pub fn encode_bytes(b: &[u8], out: &mut Vec<u8>)
    ensures
        final(out)@ == old(out)@ + spec_encode_bytes(b@),
{
    encode_len(b.len(), out);
    let ghost mid = out@;
    let mut i: usize = 0;
    while i < b.len()
        invariant
            i <= b@.len(),
            out@ == mid + b@.take(i as int),
        decreases b@.len() - i,
    {
        out.push(b[i]);
        i = i + 1;
        assert(out@ =~= mid + b@.take(i as int));
    }
    assert(b@.take(b@.len() as int) =~= b@);
    assert(out@ =~= old(out)@ + spec_encode_bytes(b@));
}

impl From<std::io::Error> for EncodeError {
    /// An I/O failure while writing, carried as it is.
    fn from(e: std::io::Error) -> (r: EncodeError) {
        EncodeError::IOError(e)
    }
}

impl vstd::std_specs::convert::FromSpecImpl<std::io::Error> for EncodeError {
    open spec fn obeys_from_spec() -> bool {
        true
    }

    open spec fn from_spec(v: std::io::Error) -> EncodeError {
        EncodeError::IOError(v)
    }
}

} // verus!
