use vstd::prelude::*;
use vstd::string::*;

verus! {

/// Whether `b` is an ASCII decimal digit.
pub open spec fn is_digit(b: u8) -> bool {
    48 <= b <= 57
}

/// Whether every byte of `s` is an ASCII decimal digit.
pub open spec fn all_digits(s: Seq<u8>) -> bool {
    forall|i: int| 0 <= i < s.len() ==> is_digit(#[trigger] s[i])
}

/// The number written by the decimal digits `s` (most significant first).
pub open spec fn digits_value(s: Seq<u8>) -> nat
    decreases s.len(),
{
    if s.len() == 0 {
        0
    } else {
        digits_value(s.drop_last()) * 10 + ((s.last() - 48) as nat)
    }
}

/// The shortest decimal writing of `n`, most significant digit first.
pub open spec fn decimal_bytes(n: nat) -> Seq<u8>
    decreases n,
{
    if n < 10 {
        seq![(48 + n) as u8]
    } else {
        decimal_bytes(n / 10) + seq![(48 + n % 10) as u8]
    }
}

/// The decimal writing of a signed integer: a `-` for negative values, then the digits of
/// its magnitude.
pub open spec fn signed_decimal_bytes(v: int) -> Seq<u8> {
    if v < 0 {
        seq![45u8] + decimal_bytes((-v) as nat)
    } else {
        decimal_bytes(v as nat)
    }
}

/// What Rust's `i64::from_str` makes of the bytes `b`: an optional `+` or `-` sign, then one
/// or more decimal digits, whose signed value must fit in an `i64`.
pub open spec fn spec_parse_i64(b: Seq<u8>) -> Option<i64> {
    let neg = b.len() > 0 && b[0] == 45;
    let signed = b.len() > 0 && (b[0] == 45 || b[0] == 43);
    let digits = if signed { b.drop_first() } else { b };
    let v: int = if neg { -(digits_value(digits) as int) } else { digits_value(digits) as int };
    if digits.len() == 0 || !all_digits(digits) || v < i64::MIN || v > i64::MAX {
        None
    } else {
        Some(v as i64)
    }
}

/// A longer run of digits never has a smaller value than its prefix.
pub proof fn lemma_digits_value_prefix(s: Seq<u8>, i: int)
    requires
        0 <= i <= s.len(),
        all_digits(s),
    ensures
        digits_value(s.take(i)) <= digits_value(s),
    decreases s.len() - i,
{
    if i < s.len() {
        lemma_digits_value_prefix(s, i + 1);
        assert(s.take(i + 1).drop_last() =~= s.take(i));
    } else {
        assert(s.take(i) =~= s);
    }
}

/// Appending one digit to a run multiplies its value by ten and adds the digit.
pub proof fn lemma_digits_value_push(s: Seq<u8>, d: u8)
    ensures
        digits_value(s.push(d)) == digits_value(s) * 10 + ((d - 48) as nat),
{
    assert(s.push(d).drop_last() =~= s);
}

/// Every digit of a decimal writing is a digit, and there is at least one.
pub proof fn lemma_decimal_bytes_digits(n: nat)
    ensures
        all_digits(decimal_bytes(n)),
        decimal_bytes(n).len() >= 1,
        digits_value(decimal_bytes(n)) == n,
    decreases n,
{
    if n >= 10 {
        lemma_decimal_bytes_digits(n / 10);
        lemma_digits_value_push(decimal_bytes(n / 10), (48 + n % 10) as u8);
        assert(decimal_bytes(n) =~= decimal_bytes(n / 10).push((48 + n % 10) as u8));
    } else {
        lemma_digits_value_push(Seq::empty(), (48 + n) as u8);
        assert(decimal_bytes(n) =~= Seq::<u8>::empty().push((48 + n) as u8));
    }
}

/// Writing an `i64` in decimal and reading it back gives the same number.
pub proof fn lemma_parse_i64_roundtrip(v: i64)
    ensures
        spec_parse_i64(signed_decimal_bytes(v as int)) == Some(v),
{
    let m: nat = if v < 0 { (-(v as int)) as nat } else { v as nat };
    lemma_decimal_bytes_digits(m);
    let b = signed_decimal_bytes(v as int);
    if v < 0 {
        assert(b.drop_first() =~= decimal_bytes(m));
    } else {
        assert(b =~= decimal_bytes(m));
        assert(b[0] != 45 && b[0] != 43) by {
            assert(is_digit(decimal_bytes(m)[0]));
        }
    }
}

/// Appends the decimal writing of `n` to `out`.
pub fn push_decimal_u64(n: u64, out: &mut Vec<u8>)
    ensures
        final(out)@ == old(out)@ + decimal_bytes(n as nat),
    decreases n,
{
    if n >= 10 {
        push_decimal_u64(n / 10, out);
    }
    let d: u8 = (n % 10) as u8;
    out.push(48 + d);
    proof {
        if n >= 10 {
            assert(decimal_bytes(n as nat) == decimal_bytes((n / 10) as nat) + seq![(48 + n % 10) as u8]);
        }
    }
    assert(final(out)@ =~= old(out)@ + decimal_bytes(n as nat));
}

/// Appends the decimal writing of `v`, with a leading `-` when it is negative, to `out`.
pub fn push_decimal_i64(v: i64, out: &mut Vec<u8>)
    ensures
        final(out)@ == old(out)@ + signed_decimal_bytes(v as int),
{
    if v < 0 {
        out.push(45);
        let m: u64 = if v == i64::MIN {
            9223372036854775808u64
        } else {
            (-v) as u64
        };
        let ghost mid = out@;
        push_decimal_u64(m, out);
        assert(final(out)@ =~= old(out)@ + signed_decimal_bytes(v as int));
    } else {
        push_decimal_u64(v as u64, out);
    }
}

/// Reads the bytes `b` as `i64::from_str` does: `None` for anything that is not an optional
/// sign followed by digits whose value fits in an `i64`.
pub fn parse_i64(b: &[u8]) -> (r: Option<i64>)
    ensures
        r == spec_parse_i64(b@),
{
    let len = b.len();
    if len == 0 {
        return None;
    }
    let neg = b[0] == 45;
    let start: usize = if b[0] == 45 || b[0] == 43 { 1 } else { 0 };
    if start == len {
        proof {
            assert(b@.drop_first().len() == 0);
        }
        return None;
    }
    let ghost digits = if start == 1 { b@.drop_first() } else { b@ };
    proof {
        assert(digits =~= b@.subrange(start as int, len as int));
    }
    // the magnitude may reach 2^63 for the most negative value
    let limit: u64 = if neg { 9223372036854775808u64 } else { 9223372036854775807u64 };
    let mut acc: u64 = 0;
    let mut i: usize = start;
    while i < len
        invariant
            start <= i <= len,
            len == b@.len(),
            start == 0 || start == 1,
            digits == b@.subrange(start as int, len as int),
            digits == (if b@[0] == 45 || b@[0] == 43 { b@.drop_first() } else { b@ }),
            neg == (b@[0] == 45),
            b@.len() > 0,
            all_digits(b@.subrange(start as int, i as int)),
            acc as nat == digits_value(b@.subrange(start as int, i as int)),
            acc <= limit,
            limit == (if neg { 9223372036854775808u64 } else { 9223372036854775807u64 }),
        decreases len - i,
    {
        let c = b[i];
        if c < 48 || c > 57 {
            proof {
                assert(digits[i - start] == c);
            }
            return None;
        }
        let d: u64 = (c - 48) as u64;
        proof {
            lemma_digits_value_push(b@.subrange(start as int, i as int), c);
            assert(b@.subrange(start as int, i as int).push(c) =~= b@.subrange(start as int, i + 1));
        }
        if acc > (limit - d) / 10 {
            proof {
                assert(acc * 10 + d > limit) by (nonlinear_arith)
                    requires acc > (limit - d) / 10, d <= 9, d <= limit;
                if all_digits(digits) {
                    lemma_digits_value_prefix(digits, (i + 1 - start) as int);
                    assert(digits.take((i + 1 - start) as int) =~= b@.subrange(start as int, i + 1));
                }
            }
            return None;
        }
        proof {
            assert(acc * 10 + d <= limit) by (nonlinear_arith)
                requires acc <= (limit - d) / 10, d <= 9, d <= limit;
        }
        acc = acc * 10 + d;
        i = i + 1;
    }
    proof {
        assert(b@.subrange(start as int, len as int) =~= digits);
        if start == 0 {
            assert(digits =~= b@);
        } else {
            assert(digits =~= b@.drop_first());
        }
    }
    if neg {
        if acc == 9223372036854775808u64 {
            Some(i64::MIN)
        } else {
            Some(-(acc as i64))
        }
    } else {
        Some(acc as i64)
    }
}

/// The decimal writing of `n` as text.
pub open spec fn decimal_chars(n: nat) -> Seq<char> {
    decimal_bytes(n).map_values(|b: u8| b as char)
}

fn digit_str(d: u64) -> (r: &'static str)
    requires
        d < 10,
    ensures
        r@ == seq![(48 + d) as char],
{
    proof {
        reveal_strlit("0");
        reveal_strlit("1");
        reveal_strlit("2");
        reveal_strlit("3");
        reveal_strlit("4");
        reveal_strlit("5");
        reveal_strlit("6");
        reveal_strlit("7");
        reveal_strlit("8");
        reveal_strlit("9");
    }
    if d == 0 {
        "0"
    } else if d == 1 {
        "1"
    } else if d == 2 {
        "2"
    } else if d == 3 {
        "3"
    } else if d == 4 {
        "4"
    } else if d == 5 {
        "5"
    } else if d == 6 {
        "6"
    } else if d == 7 {
        "7"
    } else if d == 8 {
        "8"
    } else {
        "9"
    }
}

/// Appends the decimal writing of `n` to the text `s`.
pub fn push_decimal_string(n: u64, s: &mut String)
    ensures
        final(s)@ == old(s)@ + decimal_chars(n as nat),
    decreases n,
{
    if n >= 10 {
        push_decimal_string(n / 10, s);
    }
    s.append(digit_str(n % 10));
    proof {
        if n >= 10 {
            assert(decimal_bytes(n as nat) == decimal_bytes((n / 10) as nat) + seq![(48 + n % 10) as u8]);
        }
        assert(decimal_chars(n as nat) =~= if n >= 10 {
            decimal_chars((n / 10) as nat) + seq![(48 + n % 10) as char]
        } else {
            seq![(48 + n % 10) as char]
        });
    }
    assert(final(s)@ =~= old(s)@ + decimal_chars(n as nat));
}

} // verus!
