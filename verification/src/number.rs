//! Decimal integers as text.

use vstd::prelude::*;

use crate::text::{append_char, is_digit, digit, to_chars};

verus! {

// ---------------------------------------------------------------------------
// Reading
// ---------------------------------------------------------------------------

pub open spec fn digit_value(c: char) -> nat {
    (c as u32 - '0' as u32) as nat
}

pub open spec fn all_digits(s: Seq<char>) -> bool {
    forall|i: int| 0 <= i < s.len() ==> is_digit(#[trigger] s[i])
}

/// The number that a run of decimal digits stands for.
pub open spec fn digits_value(s: Seq<char>) -> nat
    decreases s.len(),
{
    if s.len() == 0 {
        0
    } else {
        digits_value(s.drop_last()) * 10 + digit_value(s.last())
    }
}

/// The number written by one or more digits, where it does not exceed `max`.
pub open spec fn bounded_digits(s: Seq<char>, max: nat) -> Option<nat> {
    if s.len() > 0 && all_digits(s) && digits_value(s) <= max {
        Some(digits_value(s))
    } else {
        None
    }
}

/// The unsigned number that a text stands for: digits after an optional plus
/// sign, up to `max`.
pub open spec fn unsigned_value(s: Seq<char>, max: nat) -> Option<nat> {
    if s.len() > 0 && s[0] == '+' {
        bounded_digits(s.drop_first(), max)
    } else {
        bounded_digits(s, max)
    }
}

/// The signed number that a text stands for: digits after an optional sign,
/// from `-max - 1` up to `max`.
pub open spec fn signed_value(s: Seq<char>, max: nat) -> Option<int> {
    if s.len() > 0 && s[0] == '-' {
        match bounded_digits(s.drop_first(), max + 1) {
            Some(n) => Some(-(n as int)),
            None => None,
        }
    } else {
        match unsigned_value(s, max) {
            Some(n) => Some(n as int),
            None => None,
        }
    }
}

proof fn lemma_prefix_value(s: Seq<char>, k: int)
    requires
        0 <= k <= s.len(),
        all_digits(s),
    ensures
        digits_value(s.take(k)) <= digits_value(s),
    decreases s.len() - k,
{
    if k < s.len() {
        lemma_prefix_value(s, k + 1);
        assert(s.take(k + 1).drop_last() =~= s.take(k));
        assert(is_digit(s[k]));
    } else {
        assert(s.take(k) =~= s);
    }
}

fn parse_digits(chars: &Vec<char>, from: usize, max: u64) -> (value: Option<u64>)
    requires
        from <= chars@.len(),
    ensures
        match value {
            Some(n) => bounded_digits(chars@.skip(from as int), max as nat) == Some(n as nat),
            None => bounded_digits(chars@.skip(from as int), max as nat) is None,
        },
{
    let ghost s = chars@.skip(from as int);
    if from == chars.len() {
        return None;
    }
    let mut value: u64 = 0;
    let mut i: usize = from;
    while i < chars.len()
        invariant
            from <= i <= chars@.len(),
            s == chars@.skip(from as int),
            value <= max,
            value == digits_value(s.take(i - from)),
            forall|k: int| 0 <= k < i - from ==> is_digit(#[trigger] s[k]),
        decreases chars@.len() - i,
    {
        let c = chars[i];
        proof {
            assert(s[i - from] == c);
            assert(s.take(i - from + 1).drop_last() =~= s.take(i - from));
            assert(s.take(i - from + 1).last() == c);
        }
        if !digit(c) {
            return None;
        }
        let d: u64 = (c as u32 - 48) as u64;
        proof {
            assert(digits_value(s.take(i - from + 1)) == value * 10 + d);
            if all_digits(s) {
                lemma_prefix_value(s, i - from + 1);
            }
        }
        match value.checked_mul(10) {
            Some(scaled) => match scaled.checked_add(d) {
                Some(next) => {
                    if next > max {
                        return None;
                    }
                    value = next;
                },
                None => {
                    return None;
                },
            },
            None => {
                return None;
            },
        }
        i += 1;
    }
    proof {
        assert(s.take(s.len() as int) =~= s);
    }
    Some(value)
}

fn parse_unsigned(s: &str, max: u64) -> (value: Option<u64>)
    ensures
        match value {
            Some(n) => unsigned_value(s@, max as nat) == Some(n as nat),
            None => unsigned_value(s@, max as nat) is None,
        },
{
    let chars = to_chars(s);
    proof {
        assert(s@.skip(0) =~= s@);
        assert(s@.len() > 0 ==> s@.skip(1) =~= s@.drop_first());
    }
    if chars.len() > 0 && chars[0] == '+' {
        parse_digits(&chars, 1, max)
    } else {
        parse_digits(&chars, 0, max)
    }
}

/// Reads a `u64`.
pub fn parse_u64(s: &str) -> (value: Option<u64>)
    ensures
        match value {
            Some(n) => unsigned_value(s@, u64::MAX as nat) == Some(n as nat),
            None => unsigned_value(s@, u64::MAX as nat) is None,
        },
{
    parse_unsigned(s, u64::MAX)
}

/// Reads a `u32`.
pub fn parse_u32(s: &str) -> (value: Option<u32>)
    ensures
        match value {
            Some(n) => unsigned_value(s@, u32::MAX as nat) == Some(n as nat),
            None => unsigned_value(s@, u32::MAX as nat) is None,
        },
{
    match parse_unsigned(s, u32::MAX as u64) {
        Some(n) => Some(n as u32),
        None => None,
    }
}

/// Reads a `usize`.
pub fn parse_usize(s: &str) -> (value: Option<usize>)
    ensures
        match value {
            Some(n) => unsigned_value(s@, usize::MAX as nat) == Some(n as nat),
            None => unsigned_value(s@, usize::MAX as nat) is None,
        },
{
    match parse_unsigned(s, usize::MAX as u64) {
        Some(n) => Some(n as usize),
        None => None,
    }
}

/// Reads an `i64`.
pub fn parse_i64(s: &str) -> (value: Option<i64>)
    ensures
        match value {
            Some(n) => signed_value(s@, i64::MAX as nat) == Some(n as int),
            None => signed_value(s@, i64::MAX as nat) is None,
        },
{
    let chars = to_chars(s);
    if chars.len() > 0 && chars[0] == '-' {
        proof {
            assert(s@.skip(1) =~= s@.drop_first());
        }
        match parse_digits(&chars, 1, 0x8000_0000_0000_0000) {
            Some(n) => {
                if n == 0x8000_0000_0000_0000 {
                    Some(i64::MIN)
                } else {
                    Some(-(n as i64))
                }
            },
            None => None,
        }
    } else {
        match parse_unsigned(s, i64::MAX as u64) {
            Some(n) => Some(n as i64),
            None => None,
        }
    }
}

/// Reads an `i32`.
pub fn parse_i32(s: &str) -> (value: Option<i32>)
    ensures
        match value {
            Some(n) => signed_value(s@, i32::MAX as nat) == Some(n as int),
            None => signed_value(s@, i32::MAX as nat) is None,
        },
{
    let chars = to_chars(s);
    if chars.len() > 0 && chars[0] == '-' {
        proof {
            assert(s@.skip(1) =~= s@.drop_first());
        }
        match parse_digits(&chars, 1, 0x8000_0000) {
            Some(n) => Some((-(n as i64)) as i32),
            None => None,
        }
    } else {
        match parse_unsigned(s, i32::MAX as u64) {
            Some(n) => Some(n as i32),
            None => None,
        }
    }
}

// ---------------------------------------------------------------------------
// Writing
// ---------------------------------------------------------------------------

pub open spec fn digit_char(d: nat) -> char {
    (d + '0' as u32) as char
}

/// The decimal digits of a number.
pub open spec fn decimal(n: nat) -> Seq<char>
    decreases n,
{
    if n < 10 {
        seq![digit_char(n)]
    } else {
        decimal(n / 10).push(digit_char(n % 10))
    }
}

/// The decimal text of a signed number.
pub open spec fn signed_decimal(n: int) -> Seq<char> {
    if n < 0 {
        seq!['-'] + decimal((-n) as nat)
    } else {
        decimal(n as nat)
    }
}

fn append_decimal(out: &mut String, n: u64)
    ensures
        final(out)@ == old(out)@ + decimal(n as nat),
    decreases n,
{
    let last: u8 = (n % 10) as u8;
    let c = (last + 48) as char;
    if n < 10 {
        append_char(out, c);
        proof {
            assert(old(out)@.push(c) =~= old(out)@ + decimal(n as nat));
        }
    } else {
        append_decimal(out, n / 10);
        append_char(out, c);
        proof {
            assert(out@ =~= old(out)@ + decimal(n as nat));
        }
    }
}

/// The decimal text of a number.
pub fn u64_text(n: u64) -> (out: String)
    ensures
        out@ == decimal(n as nat),
{
    let mut out = String::new();
    append_decimal(&mut out, n);
    proof {
        assert(Seq::<char>::empty() + decimal(n as nat) =~= decimal(n as nat));
    }
    out
}

/// The decimal text of a large number.
pub fn u128_text(n: u128) -> (out: String)
    ensures
        out@ == decimal(n as nat),
    decreases n,
{
    let last: u8 = (n % 10) as u8;
    let c = (last + 48) as char;
    let mut out = if n < 10 {
        String::new()
    } else {
        u128_text(n / 10)
    };
    append_char(&mut out, c);
    proof {
        assert(out@ =~= decimal(n as nat));
    }
    out
}

/// The decimal text of a signed number.
pub fn i64_text(n: i64) -> (out: String)
    ensures
        out@ == signed_decimal(n as int),
{
    if n >= 0 {
        return u64_text(n as u64);
    }
    let mut out = String::new();
    append_char(&mut out, '-');
    let magnitude: u64 = if n == i64::MIN {
        0x8000_0000_0000_0000
    } else {
        (-n) as u64
    };
    append_decimal(&mut out, magnitude);
    proof {
        assert(Seq::<char>::empty().push('-') =~= seq!['-']);
    }
    out
}

pub proof fn lemma_decimal_digits(n: nat)
    ensures
        decimal(n).len() > 0,
        all_digits(decimal(n)),
        digits_value(decimal(n)) == n,
    decreases n,
{
    if n < 10 {
        let s = decimal(n);
        assert(s.drop_last() =~= Seq::<char>::empty());
        assert(digits_value(s.drop_last()) == 0);
    } else {
        lemma_decimal_digits(n / 10);
        let s = decimal(n);
        assert(s.drop_last() =~= decimal(n / 10));
        assert forall|i: int| 0 <= i < s.len() implies is_digit(#[trigger] s[i]) by {
            if i < s.len() - 1 {
                assert(s[i] == decimal(n / 10)[i]);
            }
        }
    }
}

/// Reading back the decimal text of a number gives the number.
pub proof fn decimal_reads_back(n: nat, max: nat)
    requires
        n <= max,
    ensures
        unsigned_value(decimal(n), max) == Some(n),
{
    lemma_decimal_digits(n);
    assert(is_digit(decimal(n)[0]));
}

/// A number that is written is read back, whatever its sign.
pub proof fn signed_decimal_reads_back(n: int, max: nat)
    requires
        -max - 1 <= n <= max,
    ensures
        signed_value(signed_decimal(n), max) == Some(n),
{
    if n < 0 {
        let size = (-n) as nat;
        decimal_reads_back(size, max + 1);
        lemma_decimal_digits(size);
        assert(is_digit(decimal(size)[0]));
        assert(signed_decimal(n).drop_first() =~= decimal(size));
    } else {
        decimal_reads_back(n as nat, max);
        lemma_decimal_digits(n as nat);
        assert(is_digit(decimal(n as nat)[0]));
    }
}

} // verus!
