//! Integers as decimal text.

use vstd::prelude::*;
use vstd::string::*;

verus! {

broadcast use vstd::string::group_string_axioms;

/// The character of a decimal digit.
pub open spec fn digit(d: int) -> char {
    (48 + d) as char
}

/// The decimal digits of `n`, without leading zeros.
pub open spec fn digits(n: nat) -> Seq<char>
    decreases n,
{
    if n < 10 {
        seq![digit(n as int)]
    } else {
        digits(n / 10).push(digit((n % 10) as int))
    }
}

/// `n` in decimal, with a leading minus sign if it is negative.
pub open spec fn decimal(n: int) -> Seq<char> {
    if n < 0 {
        seq!['-'] + digits((-n) as nat)
    } else {
        digits(n as nat)
    }
}

fn digit_char(d: u64) -> (r: char)
    requires
        d < 10,
    ensures
        r == digit(d as int),
{
    (48u8 + d as u8) as char
}

fn append_digits(n: u64, out: &mut String)
    ensures
        final(out)@ == old(out)@ + digits(n as nat),
    decreases n,
{
    if n >= 10 {
        append_digits(n / 10, out);
    }
    out.push(digit_char(n % 10));
    assert(out@ =~= old(out)@ + digits(n as nat));
}

/// An unsigned number in decimal.
pub fn unsigned_text(n: u64) -> (r: String)
    ensures
        r@ == decimal(n as int),
{
    let mut out: String = String::new();
    append_digits(n, &mut out);
    assert(out@ =~= digits(n as nat));
    out
}

/// A revision number in decimal.
pub fn signed_text(n: i64) -> (r: String)
    ensures
        r@ == decimal(n as int),
{
    if n >= 0 {
        return unsigned_text(n as u64);
    }
    let size: u64 = if n == i64::MIN {
        9_223_372_036_854_775_808
    } else {
        (-n) as u64
    };
    let mut out: String = String::new();
    out.push('-');
    append_digits(size, &mut out);
    assert(out@ =~= seq!['-'] + digits((-n) as nat));
    out
}

/// Whether the bytes are one or more ASCII digits.
pub open spec fn all_digits(b: Seq<u8>) -> bool {
    b.len() > 0 && forall|i: int| 0 <= i < b.len() ==> 48 <= #[trigger] b[i] <= 57
}

/// The number that a sequence of ASCII digits writes.
pub open spec fn value_of(b: Seq<u8>) -> int
    decreases b.len(),
{
    if b.len() == 0 {
        0
    } else {
        value_of(b.drop_last()) * 10 + (b.last() - 48)
    }
}

/// The bytes after an optional sign.
pub open spec fn unsigned_part(b: Seq<u8>) -> Seq<u8> {
    if b.len() > 0 && (b[0] == 43 || b[0] == 45) {
        b.skip(1)
    } else {
        b
    }
}

/// The signed value that the bytes write.
pub open spec fn signed_value(b: Seq<u8>) -> int {
    if b.len() > 0 && b[0] == 45 {
        -value_of(unsigned_part(b))
    } else {
        value_of(unsigned_part(b))
    }
}

/// The integer that the bytes write: an optional sign, then digits and nothing
/// else, with a value of 64 bits.
pub open spec fn parsed_integer(b: Seq<u8>) -> Option<i64> {
    if all_digits(unsigned_part(b)) && i64::MIN <= signed_value(b) <= i64::MAX {
        Some(signed_value(b) as i64)
    } else {
        None
    }
}

/// Reads an integer written in decimal.
pub fn parse_integer(bytes: &Vec<u8>) -> (r: Option<i64>)
    ensures
        r == parsed_integer(bytes@),
{
    let signed: bool = bytes.len() > 0 && (bytes[0] == 43 || bytes[0] == 45);
    let negative: bool = bytes.len() > 0 && bytes[0] == 45;
    let from: usize = if signed {
        1
    } else {
        0
    };
    let ghost body = unsigned_part(bytes@);
    assert(bytes@.skip(0) =~= bytes@);
    assert(body == bytes@.skip(from as int));
    if bytes.len() == from {
        return None;
    }
    let mut size: u64 = 0;
    let mut large: bool = false;
    let mut i: usize = from;
    assert(body.take(0) =~= Seq::<u8>::empty());
    while i < bytes.len()
        invariant
            from <= i <= bytes.len(),
            from <= 1,
            body == unsigned_part(bytes@),
            body == bytes@.skip(from as int),
            forall|j: int| 0 <= j < i - from ==> 48 <= #[trigger] body[j] <= 57,
            !large ==> size == value_of(body.take(i - from)) && size <= 9_223_372_036_854_775_808,
            large ==> value_of(body.take(i - from)) > 9_223_372_036_854_775_808,
        decreases bytes.len() - i,
    {
        let b = bytes[i];
        assert(body[i - from] == b);
        if b < 48 || b > 57 {
            assert(!all_digits(body));
            return None;
        }
        assert(body.take(i - from + 1).drop_last() =~= body.take(i - from));
        assert(body.take(i - from + 1).last() == b);
        if !large {
            let wide: u128 = size as u128 * 10 + (b - 48) as u128;
            if wide > 9_223_372_036_854_775_808 {
                large = true;
            } else {
                size = wide as u64;
            }
        }
        i = i + 1;
    }
    assert(body.take(i - from) =~= body);
    assert(all_digits(body));
    if large {
        return None;
    }
    if negative {
        if size == 9_223_372_036_854_775_808 {
            Some(i64::MIN)
        } else {
            Some(-(size as i64))
        }
    } else if size > 9_223_372_036_854_775_807 {
        None
    } else {
        Some(size as i64)
    }
}

/// The ASCII bytes of a text.
pub open spec fn ascii_bytes(s: Seq<char>) -> Seq<u8> {
    s.map_values(|c: char| c as u8)
}

proof fn lemma_digits_read_back(n: nat)
    ensures
        all_digits(ascii_bytes(digits(n))),
        value_of(ascii_bytes(digits(n))) == n,
    decreases n,
{
    let b = ascii_bytes(digits(n));
    if n < 10 {
        assert(b =~= seq![(48 + n) as u8]);
        assert(b.drop_last() =~= Seq::<u8>::empty());
        assert(value_of(b.drop_last()) == 0);
    } else {
        lemma_digits_read_back(n / 10);
        let front = ascii_bytes(digits(n / 10));
        assert(b =~= front.push((48 + n % 10) as u8));
        assert(b.drop_last() =~= front);
        assert forall|i: int| 0 <= i < b.len() implies 48 <= #[trigger] b[i] <= 57 by {
            if i < front.len() {
                assert(b[i] == front[i]);
            }
        }
    }
}

/// Reading the decimal text of a 64-bit number gives the number back.
pub proof fn lemma_decimal_read_back(n: i64)
    ensures
        parsed_integer(ascii_bytes(decimal(n as int))) == Some(n),
{
    let b = ascii_bytes(decimal(n as int));
    if n < 0 {
        lemma_digits_read_back((-n) as nat);
        let body = ascii_bytes(digits((-n) as nat));
        assert(b =~= seq![45u8] + body);
        assert(b.skip(1) =~= body);
    } else {
        lemma_digits_read_back(n as nat);
        assert(b == ascii_bytes(digits(n as nat)));
        assert(48 <= b[0] <= 57);
    }
}

} // verus!
