//! Reading and writing unsigned numbers as text, in base ten and others.
//!
//! A numeral is read the way the standard library reads one: an optional `+`,
//! then at least one digit, scanned from the left, and the first character
//! that is no digit or makes the number too large ends the scan with an error.

use crate::string_manip::{chars_of, string_of};
use vstd::prelude::*;

verus! {

/// Why a text is not a numeral.
#[derive(Debug, Clone, Copy, PartialEq, Eq, Structural)]
pub enum IntErrorKind {
    /// The text is empty.
    Empty,
    /// A character is no digit of the base, or no digit follows the sign.
    InvalidDigit,
    /// The number is larger than the type holds.
    PosOverflow,
}

/// The value of `c` as a digit: `0` to `9`, then the letters of either case
/// from 10 on; `None` where that is not below `radix`.
pub open spec fn digit_value(c: char, radix: nat) -> Option<nat> {
    let v = c as u32;
    let d: nat = if 0x30 <= v <= 0x39 {
        (v - 0x30) as nat
    } else if 0x61 <= v <= 0x7A {
        (v - 0x61 + 10) as nat
    } else if 0x41 <= v <= 0x5A {
        (v - 0x41 + 10) as nat
    } else {
        radix
    };
    if d < radix {
        Some(d)
    } else {
        None
    }
}

/// The number that the digits `s` spell in base `radix`, at most `max`, or
/// the first error that a scan from the left meets.
pub open spec fn digits_value(s: Seq<char>, radix: nat, max: nat) -> Result<nat, IntErrorKind>
    decreases s.len(),
{
    if s.len() == 0 {
        Ok(0)
    } else {
        match digits_value(s.drop_last(), radix, max) {
            Err(e) => Err(e),
            Ok(v) => match digit_value(s.last(), radix) {
                None => Err(IntErrorKind::InvalidDigit),
                Some(d) => if v * radix + d > max {
                    Err(IntErrorKind::PosOverflow)
                } else {
                    Ok(v * radix + d)
                },
            },
        }
    }
}

/// The number that the numeral `s` spells in base `radix`, at most `max`.
pub open spec fn numeral_value(s: Seq<char>, radix: nat, max: nat) -> Result<nat, IntErrorKind> {
    if s.len() == 0 {
        Err(IntErrorKind::Empty)
    } else {
        let digits = if s[0] == '+' {
            s.skip(1)
        } else {
            s
        };
        if digits.len() == 0 {
            Err(IntErrorKind::InvalidDigit)
        } else {
            digits_value(digits, radix, max)
        }
    }
}

/// The character for the decimal digit `d`.
pub open spec fn digit_char(d: nat) -> char
    recommends
        d < 10,
{
    (0x30 + d) as u32 as char
}

/// `n` in base ten, without sign or leading zeros.
pub open spec fn decimal(n: nat) -> Seq<char>
    decreases n,
{
    if n < 10 {
        seq![digit_char(n)]
    } else {
        decimal(n / 10).push(digit_char(n % 10))
    }
}

/// The value of `c` as a digit of base `radix`.
pub fn to_digit(c: char, radix: u32) -> (d: Option<u32>)
    requires
        2 <= radix <= 36,
    ensures
        match d {
            Some(v) => digit_value(c, radix as nat) == Some(v as nat),
            None => digit_value(c, radix as nat) is None,
        },
{
    let v: u32 = c as u32;
    let d: u32 = if 0x30 <= v && v <= 0x39 {
        v - 0x30
    } else if 0x61 <= v && v <= 0x7A {
        v - 0x61 + 10
    } else if 0x41 <= v && v <= 0x5A {
        v - 0x41 + 10
    } else {
        radix
    };
    if d < radix {
        Some(d)
    } else {
        None
    }
}

/// Reads the characters from `from` on as a numeral of base `radix` with a
/// value of at most `max`.
pub fn parse_chars(
    chars: &Vec<char>,
    from: usize,
    radix: u32,
    max: u64,
) -> (parsed: Result<u64, IntErrorKind>)
    requires
        from <= chars.len(),
        2 <= radix <= 36,
    ensures
        match parsed {
            Ok(n) => numeral_value(chars@.skip(from as int), radix as nat, max as nat) == Ok::<
                nat,
                IntErrorKind,
            >(n as nat),
            Err(e) => numeral_value(chars@.skip(from as int), radix as nat, max as nat) == Err::<
                nat,
                IntErrorKind,
            >(e),
        },
{
    let n = chars.len();
    if from == n {
        return Err(IntErrorKind::Empty);
    }
    let start: usize = if chars[from] == '+' {
        from + 1
    } else {
        from
    };
    if start == n {
        proof {
            assert(chars@.skip(from as int).skip(1).len() == 0);
        }
        return Err(IntErrorKind::InvalidDigit);
    }
    let ghost digits = chars@.skip(start as int);
    proof {
        assert(chars@.skip(from as int)[0] == chars@[from as int]);
        if start == from + 1 {
            assert(chars@.skip(from as int).skip(1) =~= digits);
        }
        assert(digits.take(0) =~= Seq::<char>::empty());
        assert(numeral_value(chars@.skip(from as int), radix as nat, max as nat) == digits_value(
            digits,
            radix as nat,
            max as nat,
        ));
    }
    let mut value: u64 = 0;
    let mut i: usize = start;
    while i < n
        invariant
            start <= i <= n,
            n == chars.len(),
            2 <= radix <= 36,
            value <= max,
            digits == chars@.skip(start as int),
            numeral_value(chars@.skip(from as int), radix as nat, max as nat) == digits_value(
                digits,
                radix as nat,
                max as nat,
            ),
            digits_value(digits.take(i - start), radix as nat, max as nat) == Ok::<
                nat,
                IntErrorKind,
            >(value as nat),
        decreases n - i,
    {
        let ghost upto = digits.take(i - start + 1);
        proof {
            assert(upto.drop_last() =~= digits.take(i - start));
            assert(upto.last() == chars@[i as int]);
        }
        match to_digit(chars[i], radix) {
            None => {
                proof {
                    lemma_error_stays(digits, i - start + 1, radix as nat, max as nat);
                }
                return Err(IntErrorKind::InvalidDigit);
            },
            Some(d) => {
                proof {
                    assert(value as u128 * radix as u128 <= 0xFFFF_FFFF_FFFF_FFFF * 36)
                        by (nonlinear_arith)
                        requires
                            value <= 0xFFFF_FFFF_FFFF_FFFF,
                            radix <= 36,
                    ;
                }
                let wide: u128 = (value as u128) * (radix as u128) + (d as u128);
                if wide > max as u128 {
                    proof {
                        lemma_error_stays(digits, i - start + 1, radix as nat, max as nat);
                    }
                    return Err(IntErrorKind::PosOverflow);
                }
                value = wide as u64;
            },
        }
        i = i + 1;
    }
    proof {
        assert(digits.take(n - start) =~= digits);
    }
    Ok(value)
}

/// Reads `text` as a numeral of base `radix` with a value of at most `max`.
pub fn parse_radix(text: &str, radix: u32, max: u64) -> (parsed: Result<u64, IntErrorKind>)
    requires
        2 <= radix <= 36,
    ensures
        match parsed {
            Ok(n) => numeral_value(text@, radix as nat, max as nat) == Ok::<nat, IntErrorKind>(
                n as nat,
            ),
            Err(e) => numeral_value(text@, radix as nat, max as nat) == Err::<nat, IntErrorKind>(
                e,
            ),
        },
{
    let chars = chars_of(text);
    proof {
        assert(chars@.skip(0) =~= chars@);
    }
    parse_chars(&chars, 0, radix, max)
}

/// Reads `text` as a `u64` in base ten.
pub fn parse_u64(text: &str) -> (parsed: Result<u64, IntErrorKind>)
    ensures
        match parsed {
            Ok(n) => numeral_value(text@, 10, u64::MAX as nat) == Ok::<nat, IntErrorKind>(
                n as nat,
            ),
            Err(e) => numeral_value(text@, 10, u64::MAX as nat) == Err::<nat, IntErrorKind>(e),
        },
{
    parse_radix(text, 10, u64::MAX)
}

/// Reads `text` as a `u32` in base ten.
pub fn parse_u32(text: &str) -> (parsed: Result<u32, IntErrorKind>)
    ensures
        match parsed {
            Ok(n) => numeral_value(text@, 10, u32::MAX as nat) == Ok::<nat, IntErrorKind>(
                n as nat,
            ),
            Err(e) => numeral_value(text@, 10, u32::MAX as nat) == Err::<nat, IntErrorKind>(e),
        },
{
    match parse_radix(text, 10, 0xFFFF_FFFF) {
        Ok(n) => Ok(n as u32),
        Err(e) => Err(e),
    }
}

/// Reads the two characters at `at` as a hexadecimal numeral: two digits, or
/// a `+` and one digit.
pub fn parse_hex_pair(chars: &Vec<char>, at: usize) -> (parsed: Result<u8, IntErrorKind>)
    requires
        at + 2 <= chars.len(),
    ensures
        match parsed {
            Ok(n) => numeral_value(chars@.subrange(at as int, at + 2), 16, 255) == Ok::<
                nat,
                IntErrorKind,
            >(n as nat),
            Err(e) => numeral_value(chars@.subrange(at as int, at + 2), 16, 255) == Err::<
                nat,
                IntErrorKind,
            >(e),
        },
{
    let mut pair: Vec<char> = Vec::new();
    pair.push(chars[at]);
    pair.push(chars[at + 1]);
    proof {
        assert(pair@ =~= chars@.subrange(at as int, at + 2));
        assert(pair@.skip(0) =~= pair@);
    }
    match parse_chars(&pair, 0, 16, 255) {
        Ok(n) => Ok(n as u8),
        Err(e) => Err(e),
    }
}

/// `n` in base ten.
pub fn to_decimal(n: u64) -> (text: String)
    ensures
        text@ == decimal(n as nat),
{
    let mut digits: Vec<char> = Vec::new();
    push_decimal(&mut digits, n);
    string_of(&digits)
}

/// Appends `n` in base ten.
pub fn push_decimal(out: &mut Vec<char>, n: u64)
    ensures
        final(out)@ == old(out)@ + decimal(n as nat),
    decreases n,
{
    if n >= 10 {
        push_decimal(out, n / 10);
    }
    let d: u8 = (n % 10) as u8;
    let c: char = (0x30 + d) as char;
    out.push(c);
    proof {
        assert(c == digit_char((n % 10) as nat));
        if n < 10 {
            assert(out@ =~= old(out)@ + decimal(n as nat));
        } else {
            assert(out@ =~= old(out)@ + decimal(n as nat));
        }
    }
}

/// `n` in base ten, with a minus sign where it is negative.
pub open spec fn signed_decimal(n: int) -> Seq<char> {
    if n < 0 {
        seq!['-'] + decimal((-n) as nat)
    } else {
        decimal(n as nat)
    }
}

/// Appends `n` in base ten, with a minus sign where it is negative.
pub fn push_signed_decimal(out: &mut Vec<char>, n: i64)
    ensures
        final(out)@ == old(out)@ + signed_decimal(n as int),
{
    if n < 0 {
        out.push('-');
        let size: u64 = if n == i64::MIN {
            0x8000_0000_0000_0000
        } else {
            (-n) as u64
        };
        push_decimal(out, size);
        proof {
            assert(out@ =~= old(out)@ + signed_decimal(n as int));
        }
    } else {
        push_decimal(out, n as u64);
    }
}

/// `n` in base ten with at least two digits, a zero in front of a single one.
pub open spec fn two_digits(n: nat) -> Seq<char> {
    if n < 10 {
        seq!['0'] + decimal(n)
    } else {
        decimal(n)
    }
}

/// Appends `n` in base ten with at least two digits.
pub fn push_two_digits(out: &mut Vec<char>, n: u64)
    ensures
        final(out)@ == old(out)@ + two_digits(n as nat),
{
    if n < 10 {
        out.push('0');
    }
    push_decimal(out, n);
    proof {
        assert(out@ =~= old(out)@ + two_digits(n as nat));
    }
}

/// The character for the hexadecimal digit `d`, in upper case.
pub open spec fn upper_hex_char(d: nat) -> char
    recommends
        d < 16,
{
    if d < 10 {
        (0x30 + d) as u32 as char
    } else {
        (0x41 + d - 10) as u32 as char
    }
}

/// `n` in base sixteen with upper-case letters, without leading zeros.
pub open spec fn upper_hex(n: nat) -> Seq<char>
    decreases n,
{
    if n < 16 {
        seq![upper_hex_char(n)]
    } else {
        upper_hex(n / 16).push(upper_hex_char(n % 16))
    }
}

/// Appends `n` in base sixteen with upper-case letters.
pub fn push_upper_hex(out: &mut Vec<char>, n: u64)
    ensures
        final(out)@ == old(out)@ + upper_hex(n as nat),
    decreases n,
{
    if n >= 16 {
        push_upper_hex(out, n / 16);
    }
    let d: u8 = (n % 16) as u8;
    let c: char = if d < 10 {
        (0x30 + d) as char
    } else {
        (0x41 + d - 10) as char
    };
    out.push(c);
    proof {
        assert(c == upper_hex_char((n % 16) as nat));
        assert(out@ =~= old(out)@ + upper_hex(n as nat));
    }
}

/// `n` in base sixteen with upper-case letters.
pub fn to_upper_hex(n: u64) -> (text: String)
    ensures
        text@ == upper_hex(n as nat),
{
    let mut digits: Vec<char> = Vec::new();
    push_upper_hex(&mut digits, n);
    string_of(&digits)
}

/// Once a scan has met an error, more characters do not change it.
pub proof fn lemma_error_stays(s: Seq<char>, k: int, radix: nat, max: nat)
    requires
        0 <= k <= s.len(),
        digits_value(s.take(k), radix, max) is Err,
    ensures
        digits_value(s, radix, max) == digits_value(s.take(k), radix, max),
    decreases s.len() - k,
{
    if k == s.len() {
        assert(s.take(k) =~= s);
    } else {
        assert(s.drop_last().take(k) =~= s.take(k));
        lemma_error_stays(s.drop_last(), k, radix, max);
    }
}

/// A number in base ten consists of digits and spells itself.
pub proof fn lemma_decimal_digits(n: nat, max: nat)
    requires
        n <= max,
    ensures
        decimal(n).len() > 0,
        decimal(n)[0] != '+',
        digits_value(decimal(n), 10, max) == Ok::<nat, IntErrorKind>(n),
    decreases n,
{
    if n < 10 {
        let s = decimal(n);
        assert(s.drop_last() =~= Seq::<char>::empty());
        assert(digits_value(s.drop_last(), 10, max) == Ok::<nat, IntErrorKind>(0));
        assert(digit_value(digit_char(n), 10) == Some(n));
    } else {
        lemma_decimal_digits(n / 10, max);
        let s = decimal(n);
        assert(s.drop_last() =~= decimal(n / 10));
        assert(s.last() == digit_char(n % 10));
        assert(digit_value(digit_char(n % 10), 10) == Some(n % 10));
        assert(s[0] == decimal(n / 10)[0]);
    }
}

/// Reading what was written gives the number back.
pub proof fn lemma_read_written(n: nat, max: nat)
    requires
        n <= max,
    ensures
        numeral_value(decimal(n), 10, max) == Ok::<nat, IntErrorKind>(n),
{
    lemma_decimal_digits(n, max);
}

} // verus!
