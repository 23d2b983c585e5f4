//! Reading numbers out of what a system file or a web service sent, and a
//! colour as one hexadecimal number.

use crate::numerals::{numeral_value, parse_chars, to_upper_hex, upper_hex, IntErrorKind};
use crate::string_manip::{chars_of, string_of};
use vstd::prelude::*;

verus! {

/// How many characters of `s` stand before its first `sep`; the length of
/// `s` where it holds none.
pub open spec fn first_part_len(s: Seq<char>, sep: char) -> nat
    decreases s.len(),
{
    if s.len() == 0 || s[0] == sep {
        0
    } else {
        1 + first_part_len(s.drop_first(), sep)
    }
}

/// What stands before the first full stop of `s`.
pub open spec fn whole_part(s: Seq<char>) -> Seq<char> {
    s.take(first_part_len(s, '.') as int)
}

/// The whole seconds in the text of an uptime such as `350735.47 234388.90`.
pub open spec fn uptime_of(contents: Seq<char>) -> Result<nat, IntErrorKind> {
    numeral_value(whole_part(contents), 10, u64::MAX as nat)
}

/// The whole seconds of an uptime: the number that stands before the first
/// full stop.
pub fn parse_uptime(contents: &str) -> (seconds: Result<u64, IntErrorKind>)
    ensures
        match seconds {
            Ok(n) => uptime_of(contents@) == Ok::<nat, IntErrorKind>(n as nat),
            Err(e) => uptime_of(contents@) == Err::<nat, IntErrorKind>(e),
        },
{
    let chars = chars_of(contents);
    let mut whole: Vec<char> = Vec::new();
    let mut i: usize = 0;
    proof {
        assert(chars@.skip(0) =~= chars@);
    }
    while i < chars.len() && chars[i] != '.'
        invariant
            i <= chars.len(),
            whole@ == chars@.take(i as int),
            first_part_len(chars@, '.') == i + first_part_len(chars@.skip(i as int), '.'),
        decreases chars.len() - i,
    {
        whole.push(chars[i]);
        proof {
            assert(chars@.skip(i as int).drop_first() =~= chars@.skip(i + 1));
            assert(whole@ =~= chars@.take(i + 1));
        }
        i = i + 1;
    }
    proof {
        assert(whole@.skip(0) =~= whole@);
    }
    parse_chars(&whole, 0, 10, u64::MAX)
}

/// Why the answer of the random number service could not be used.
#[derive(Debug, PartialEq, Eq)]
pub enum ResponseError {
    /// The answer, without its last character, is no number.
    RandomResponseError(String, IntErrorKind),
}

/// `s` without its last character.
pub open spec fn without_last(s: Seq<char>) -> Seq<char> {
    if s.len() == 0 {
        s
    } else {
        s.drop_last()
    }
}

/// The number in the answer of the random number service: the answer ends
/// in a line break, which is dropped, and the rest is the number.
pub fn parse_response(body: &str) -> (number: Result<u32, ResponseError>)
    ensures
        match number {
            Ok(n) => numeral_value(without_last(body@), 10, u32::MAX as nat) == Ok::<
                nat,
                IntErrorKind,
            >(n as nat),
            Err(ResponseError::RandomResponseError(text, e)) => {
                &&& text@ == without_last(body@)
                &&& numeral_value(without_last(body@), 10, u32::MAX as nat) == Err::<
                    nat,
                    IntErrorKind,
                >(e)
            },
        },
{
    let mut chars = chars_of(body);
    let ghost all = chars@;
    let _ = chars.pop();
    proof {
        assert(chars@ =~= without_last(all));
        assert(chars@.skip(0) =~= chars@);
    }
    match parse_chars(&chars, 0, 10, 0xFFFF_FFFF) {
        Ok(n) => Ok(n as u32),
        Err(e) => Err(ResponseError::RandomResponseError(string_of(&chars), e)),
    }
}

/// A colour by its red, blue and green parts.
#[derive(Debug, Clone, Copy, PartialEq, Eq, Structural)]
pub struct Rgb {
    pub red: u8,
    pub blue: u8,
    pub green: u8,
}

impl Rgb {
    /// The colour as one number: red, then blue, then green, a byte each.
    pub open spec fn number(self) -> nat {
        (self.red as nat) * 65536 + (self.blue as nat) * 256 + self.green as nat
    }

    /// The colour as one number: red, then blue, then green, a byte each.
    pub fn hexa(&self) -> (n: u32)
        ensures
            n == self.number(),
    {
        let n: u32 = (self.red as u32) << 16 | (self.blue as u32) << 8 | (self.green as u32);
        proof {
            let r = self.red as u32;
            let b = self.blue as u32;
            let g = self.green as u32;
            assert((r << 16 | b << 8 | g) == r * 65536 + b * 256 + g) by (bit_vector)
                requires
                    r < 256,
                    b < 256,
                    g < 256,
            ;
        }
        n
    }

    /// The colour as a hexadecimal number in upper case, without leading
    /// zeros.
    pub fn upper_hex(&self) -> (text: String)
        ensures
            text@ == upper_hex(self.number()),
    {
        to_upper_hex(self.hexa() as u64)
    }
}

} // verus!
