//! Bytes as text and back: hexadecimal, base64, a small binary record, and
//! colours written as hexadecimal triples.

use base64::engine::general_purpose;
use base64::Engine;
use byteorder::{LittleEndian, ReadBytesExt, WriteBytesExt};
use data_encoding::HEXUPPER;
use percent_encoding::{percent_decode, percent_encode_byte};
use url::form_urlencoded::{byte_serialize, parse};
use crate::numerals::{digit_value, numeral_value, parse_hex_pair};
use crate::string_manip::{chars_of, utf8_len, utf8_width, width_of};
use vstd::prelude::*;
use vstd::slice::slice_subrange;
use vstd::string::StringSliceAdditionalSpecFns;

verus! {

/// Why a text could not be decoded.
#[derive(Debug, Clone, Copy, PartialEq, Eq, Structural)]
pub enum CodingError {
    /// The text is not the upper-case hexadecimal form of any bytes.
    InvalidHex,
    /// The text is not the unpadded base64 form of any bytes.
    InvalidBase64,
    /// The bytes end before the record does.
    UnexpectedEof,
    /// The bytes behind the percent signs are not UTF-8.
    InvalidUtf8,
}

/// The character for the hexadecimal digit `d`, in upper case.
pub open spec fn hex_digit(d: int) -> char {
    if d < 10 {
        (0x30 + d) as u32 as char
    } else {
        (0x41 + d - 10) as u32 as char
    }
}

/// `bytes` in upper-case hexadecimal, two digits for each byte.
pub open spec fn hex_upper(bytes: Seq<u8>) -> Seq<char>
    decreases bytes.len(),
{
    if bytes.len() == 0 {
        seq![]
    } else {
        hex_upper(bytes.drop_last()).push(hex_digit(bytes.last() as int / 16)).push(
            hex_digit(bytes.last() as int % 16),
        )
    }
}

/// Whether `text` is the upper-case hexadecimal form of some bytes.
pub open spec fn is_hex_upper(text: Seq<char>) -> bool {
    exists|bytes: Seq<u8>| hex_upper(bytes) == text
}

/// The characters that the bytes `bytes` stand for, one for one.
pub open spec fn latin(bytes: Seq<u8>) -> Seq<char> {
    Seq::new(bytes.len(), |i: int| bytes[i] as char)
}

/// `bytes` in base64 with the standard alphabet and without padding.
pub uninterp spec fn base64_no_pad(bytes: Seq<u8>) -> Seq<char>;

/// Whether `text` is the unpadded base64 form of some bytes.
pub open spec fn is_base64_no_pad(text: Seq<char>) -> bool {
    exists|bytes: Seq<u8>| base64_no_pad(bytes) == text
}

/// Whether `bytes` are the only bytes with the unpadded base64 form `text`.
pub open spec fn decodes_to(text: Seq<char>, bytes: Seq<u8>) -> bool {
    &&& base64_no_pad(bytes) == text
    &&& forall|other: Seq<u8>| base64_no_pad(other) == text ==> other == bytes
}

/// `data_encoding::DecodeError`, position and kind of a decoding error.
#[verifier::external_type_specification]
#[verifier::external_body]
pub struct ExHexDecodeError(data_encoding::DecodeError);

/// `base64::DecodeError`, the reason why a text is not base64.
#[verifier::external_type_specification]
#[verifier::external_body]
pub struct ExBase64DecodeError(base64::DecodeError);

/// `std::str::Utf8Error`, the error of bytes that are not UTF-8.
#[verifier::external_type_specification]
#[verifier::external_body]
pub struct ExUtf8Error(std::str::Utf8Error);

/// `std::io::Error`.
#[verifier::external_type_specification]
#[verifier::external_body]
pub struct ExIoError(std::io::Error);

/// `Encoding::encode` of `HEXUPPER`: two upper-case hexadecimal digits for
/// each byte, in order.
#[verifier::external_body]
fn hexupper_encode(input: &[u8]) -> (text: String)
    requires
        input@.len() <= usize::MAX / 2,
    ensures
        text@ == hex_upper(input@),
{
    HEXUPPER.encode(input)
}

/// `Encoding::decode` of `HEXUPPER`: the bytes whose upper-case hexadecimal
/// form the input is, and an error where it is the form of none.
#[verifier::external_body]
fn hexupper_decode(input: &[u8]) -> (bytes: Result<Vec<u8>, data_encoding::DecodeError>)
    ensures
        bytes is Ok ==> hex_upper(bytes->Ok_0@) == latin(input@),
        bytes is Err ==> !is_hex_upper(latin(input@)),
{
    HEXUPPER.decode(input)
}

/// `Engine::encode` of `STANDARD_NO_PAD`: the text named `base64_no_pad`.
#[verifier::external_body]
fn base64_encode(input: &[u8]) -> (text: String)
    requires
        input@.len() <= usize::MAX / 2,
    ensures
        text@ == base64_no_pad(input@),
{
    general_purpose::STANDARD_NO_PAD.encode(input)
}

/// `Engine::decode` of `STANDARD_NO_PAD`: the one sequence of bytes whose
/// unpadded base64 form the input is, and an error where it is the form of
/// none. The engine takes canonical input only, so no two inputs decode to
/// the same bytes.
#[verifier::external_body]
fn base64_decode(input: &str) -> (bytes: Result<Vec<u8>, base64::DecodeError>)
    ensures
        bytes is Ok ==> decodes_to(input@, bytes->Ok_0@),
        bytes is Err ==> !is_base64_no_pad(input@),
{
    general_purpose::STANDARD_NO_PAD.decode(input)
}

/// `bytes` in upper-case hexadecimal.
pub fn to_hex(bytes: &[u8]) -> (text: String)
    requires
        bytes@.len() <= usize::MAX / 2,
    ensures
        text@ == hex_upper(bytes@),
{
    hexupper_encode(bytes)
}

/// The bytes that `text` spells in upper-case hexadecimal.
pub fn from_hex(text: &[u8]) -> (bytes: Result<Vec<u8>, CodingError>)
    ensures
        bytes is Ok <==> is_hex_upper(latin(text@)),
        bytes is Ok ==> hex_upper(bytes->Ok_0@) == latin(text@),
        bytes is Err ==> bytes->Err_0 == CodingError::InvalidHex,
{
    match hexupper_decode(text) {
        Ok(bytes) => Ok(bytes),
        Err(_) => Err(CodingError::InvalidHex),
    }
}

/// Encodes `original` in hexadecimal and decodes it again: the result is
/// `original`.
pub fn hex_coding(original: &[u8]) -> (decoded: Result<Vec<u8>, CodingError>)
    requires
        original@.len() <= usize::MAX / 2,
    ensures
        decoded is Ok,
        decoded->Ok_0@ == original@,
{
    let encoded = hexupper_encode(original);
    let text = encoded.as_str();
    proof {
        lemma_hex_is_ascii(original@);
        vstd::utf8::is_ascii_chars_encode_utf8(text@);
        assert(latin(text.spec_bytes()) =~= text@);
    }
    let decoded = from_hex(text.as_bytes());
    proof {
        if decoded is Ok {
            lemma_hex_injective(decoded->Ok_0@, original@);
        }
    }
    decoded
}

/// `bytes` in unpadded base64.
pub fn to_base64(bytes: &[u8]) -> (text: String)
    requires
        bytes@.len() <= usize::MAX / 2,
    ensures
        text@ == base64_no_pad(bytes@),
{
    base64_encode(bytes)
}

/// The bytes that `text` spells in unpadded base64.
pub fn from_base64(text: &str) -> (bytes: Result<Vec<u8>, CodingError>)
    ensures
        bytes is Ok <==> is_base64_no_pad(text@),
        bytes is Ok ==> decodes_to(text@, bytes->Ok_0@),
        bytes is Err ==> bytes->Err_0 == CodingError::InvalidBase64,
{
    match base64_decode(text) {
        Ok(bytes) => Ok(bytes),
        Err(_) => Err(CodingError::InvalidBase64),
    }
}

/// Encodes `original` in unpadded base64 and decodes it again: the text,
/// and `original` as decoded from it.
pub fn base64_enc(original: &[u8]) -> (coded: Result<(String, Vec<u8>), CodingError>)
    requires
        original@.len() <= usize::MAX / 2,
    ensures
        coded is Ok,
        coded->Ok_0.0@ == base64_no_pad(original@),
        coded->Ok_0.1@ == original@,
{
    let encoded = base64_encode(original);
    match from_base64(encoded.as_str()) {
        Ok(decoded) => Ok((encoded, decoded)),
        Err(e) => Err(e),
    }
}

/// Whether a byte is written as a percent sign and two digits in the
/// fragment of an address: the controls, the space, `"`, `<`, `>`, the
/// backtick, and every byte that is not ASCII.
pub open spec fn is_escaped_in_fragment(b: u8) -> bool {
    ||| b < 0x20
    ||| b >= 0x7F
    ||| b == 0x20
    ||| b == 0x22
    ||| b == 0x3C
    ||| b == 0x3E
    ||| b == 0x60
}

/// `bytes` with every escaped byte written as a percent sign and two
/// upper-case hexadecimal digits.
pub open spec fn fragment_encoded(bytes: Seq<u8>) -> Seq<char>
    decreases bytes.len(),
{
    if bytes.len() == 0 {
        seq![]
    } else {
        let b = bytes.last();
        fragment_encoded(bytes.drop_last()) + if is_escaped_in_fragment(b) {
            seq!['%', hex_digit(b as int / 16), hex_digit(b as int % 16)]
        } else {
            seq![b as char]
        }
    }
}

/// `bytes` with every percent sign that two hexadecimal digits follow
/// replaced, together with them, by the byte that the digits spell.
pub open spec fn percent_decoded(bytes: Seq<u8>) -> Seq<u8>
    decreases bytes.len(),
{
    if bytes.len() == 0 {
        seq![]
    } else if bytes[0] == 0x25 && bytes.len() >= 3 && digit_value(bytes[1] as char, 16) is Some
        && digit_value(bytes[2] as char, 16) is Some {
        seq![
            (digit_value(bytes[1] as char, 16)->0 * 16 + digit_value(bytes[2] as char, 16)->0) as u8,
        ] + percent_decoded(bytes.skip(3))
    } else {
        seq![bytes[0]] + percent_decoded(bytes.skip(1))
    }
}

/// Whether a byte stands for itself in form data: a letter, a digit, `*`,
/// `-`, `.` or `_`.
pub open spec fn is_plain_in_form(b: u8) -> bool {
    ||| b == 0x2A
    ||| b == 0x2D
    ||| b == 0x2E
    ||| 0x30 <= b <= 0x39
    ||| 0x41 <= b <= 0x5A
    ||| b == 0x5F
    ||| 0x61 <= b <= 0x7A
}

/// `bytes` in the syntax of form data: plain bytes as they are, a blank as
/// `+`, and every other byte as a percent sign and two upper-case
/// hexadecimal digits.
pub open spec fn form_serialized(bytes: Seq<u8>) -> Seq<char>
    decreases bytes.len(),
{
    if bytes.len() == 0 {
        seq![]
    } else {
        let b = bytes.last();
        form_serialized(bytes.drop_last()) + if is_plain_in_form(b) {
            seq![b as char]
        } else if b == 0x20 {
            seq!['+']
        } else {
            seq!['%', hex_digit(b as int / 16), hex_digit(b as int % 16)]
        }
    }
}

/// The names and values that `bytes` hold in the syntax of form data.
pub uninterp spec fn form_pairs(bytes: Seq<u8>) -> Seq<(Seq<char>, Seq<char>)>;

/// Each name followed by its value, one pair after the other.
pub open spec fn joined(pairs: Seq<(Seq<char>, Seq<char>)>) -> Seq<char>
    decreases pairs.len(),
{
    if pairs.len() == 0 {
        seq![]
    } else {
        joined(pairs.drop_last()) + pairs.last().0 + pairs.last().1
    }
}

/// Name and value of each pair, as texts.
pub open spec fn pair_texts(pairs: Seq<(String, String)>) -> Seq<(Seq<char>, Seq<char>)> {
    Seq::new(pairs.len(), |i: int| (pairs[i].0@, pairs[i].1@))
}

/// `percent_encode_byte`: a percent sign and the two upper-case hexadecimal
/// digits of the byte.
#[verifier::external_body]
fn percent_escape(byte: u8) -> (text: &'static str)
    ensures
        text@ == seq!['%', hex_digit(byte as int / 16), hex_digit(byte as int % 16)],
{
    percent_encode_byte(byte)
}

/// `percent_decode` and `PercentDecode::decode_utf8`: the input with its
/// percent escapes replaced, as text where that is UTF-8, and an error where
/// it is not.
#[verifier::external_body]
fn percent_decode_utf8(input: &[u8]) -> (text: Result<String, std::str::Utf8Error>)
    ensures
        text is Ok <==> vstd::utf8::valid_utf8(percent_decoded(input@)),
        text is Ok ==> text->Ok_0@ == vstd::utf8::decode_utf8(percent_decoded(input@)),
{
    percent_decode(input).decode_utf8().map(|text| text.into_owned())
}

/// `form_urlencoded::byte_serialize`, collected: letters, digits, `*`, `-`,
/// `.` and `_` as they are, a blank as `+`, and every other byte as a percent
/// sign and two upper-case hexadecimal digits.
#[verifier::external_body]
fn form_serialize(input: &[u8]) -> (text: String)
    ensures
        text@ == form_serialized(input@),
{
    byte_serialize(input).collect()
}

/// `form_urlencoded::parse`: the pairs named `form_pairs`.
#[verifier::external_body]
fn form_parse(input: &[u8]) -> (pairs: Vec<(String, String)>)
    ensures
        pair_texts(pairs@) == form_pairs(input@),
{
    parse(input).into_owned().collect()
}

/// Whether `byte` is written as a percent escape in the fragment of an
/// address.
pub fn escaped_in_fragment(byte: u8) -> (escaped: bool)
    ensures
        escaped == is_escaped_in_fragment(byte),
{
    byte < 0x20 || byte >= 0x7F || byte == 0x20 || byte == 0x22 || byte == 0x3C || byte == 0x3E
        || byte == 0x60
}

/// `input` as it stands in the fragment of an address.
pub fn to_fragment(input: &str) -> (text: String)
    ensures
        text@ == fragment_encoded(input.spec_bytes()),
{
    let bytes = input.as_bytes();
    let mut out: Vec<char> = Vec::new();
    let mut i: usize = 0;
    proof {
        assert(bytes@.take(0) =~= Seq::<u8>::empty());
    }
    while i < bytes.len()
        invariant
            i <= bytes.len(),
            out@ == fragment_encoded(bytes@.take(i as int)),
        decreases bytes.len() - i,
    {
        let b = bytes[i];
        proof {
            assert(bytes@.take(i + 1).drop_last() =~= bytes@.take(i as int));
        }
        if escaped_in_fragment(b) {
            let mut escape = chars_of(percent_escape(b));
            out.append(&mut escape);
        } else {
            out.push(b as char);
        }
        i = i + 1;
    }
    proof {
        assert(bytes@.take(bytes.len() as int) =~= bytes@);
    }
    crate::string_manip::string_of(&out)
}

/// The text that `input` stands for once its percent escapes are replaced.
pub fn from_percent(input: &[u8]) -> (text: Result<String, CodingError>)
    ensures
        text is Ok <==> vstd::utf8::valid_utf8(percent_decoded(input@)),
        text is Ok ==> text->Ok_0@ == vstd::utf8::decode_utf8(percent_decoded(input@)),
        text is Err ==> text->Err_0 == CodingError::InvalidUtf8,
{
    match percent_decode_utf8(input) {
        Ok(text) => Ok(text),
        Err(_) => Err(CodingError::InvalidUtf8),
    }
}

/// Escapes `input` for the fragment of an address and reads the result back:
/// the escaped text, and what it decodes to.
pub fn percent_encoding(input: &str) -> (coded: Result<(String, String), CodingError>)
    ensures
        match coded {
            Ok((encoded, decoded)) => {
                &&& encoded@ == fragment_encoded(input.spec_bytes())
                &&& vstd::utf8::valid_utf8(percent_decoded(vstd::utf8::encode_utf8(encoded@)))
                &&& decoded@ == vstd::utf8::decode_utf8(
                    percent_decoded(vstd::utf8::encode_utf8(encoded@)),
                )
            },
            Err(e) => e == CodingError::InvalidUtf8 && !vstd::utf8::valid_utf8(
                percent_decoded(vstd::utf8::encode_utf8(fragment_encoded(input.spec_bytes()))),
            ),
        },
{
    let encoded = to_fragment(input);
    match from_percent(encoded.as_str().as_bytes()) {
        Ok(decoded) => Ok((encoded, decoded)),
        Err(e) => Err(e),
    }
}

/// Writes `input` in the syntax of form data and reads the result back: the
/// serialized text, and names and values as read from it, joined.
pub fn form_urlencoded(input: &str) -> (coded: (String, String))
    ensures
        coded.0@ == form_serialized(input.spec_bytes()),
        coded.1@ == joined(form_pairs(vstd::utf8::encode_utf8(coded.0@))),
{
    let urlencoded = form_serialize(input.as_bytes());
    let pairs = form_parse(urlencoded.as_str().as_bytes());
    let mut decoded: Vec<char> = Vec::new();
    let mut i: usize = 0;
    proof {
        assert(pair_texts(pairs@).take(0) =~= Seq::<(Seq<char>, Seq<char>)>::empty());
    }
    while i < pairs.len()
        invariant
            i <= pairs.len(),
            decoded@ == joined(pair_texts(pairs@).take(i as int)),
        decreases pairs.len() - i,
    {
        let mut key = chars_of(pairs[i].0.as_str());
        let mut val = chars_of(pairs[i].1.as_str());
        proof {
            let upto = pair_texts(pairs@).take(i + 1);
            assert(upto.drop_last() =~= pair_texts(pairs@).take(i as int));
            assert(upto.last() == (key@, val@));
        }
        decoded.append(&mut key);
        decoded.append(&mut val);
        i = i + 1;
    }
    proof {
        assert(pair_texts(pairs@).take(pairs.len() as int) =~= pair_texts(pairs@));
    }
    (urlencoded, crate::string_manip::string_of(&decoded))
}

/// A record of a kind and a value.
#[derive(Debug, Clone, Copy, PartialEq, Eq, Structural)]
pub struct Payload {
    pub kind: u8,
    pub value: u16,
}

impl Default for Payload {
    fn default() -> (payload: Self)
        ensures
            payload == (Payload { kind: 0, value: 0 }),
    {
        Payload { kind: 0, value: 0 }
    }
}

/// The bytes of a record: its kind, then its value with the low byte first.
pub open spec fn payload_bytes(payload: Payload) -> Seq<u8> {
    seq![payload.kind, (payload.value % 256) as u8, (payload.value / 256) as u8]
}

/// The record at the start of `bytes`, which takes three bytes.
pub open spec fn payload_of(bytes: Seq<u8>) -> Result<Payload, CodingError> {
    if bytes.len() < 3 {
        Err(CodingError::UnexpectedEof)
    } else {
        Ok(Payload { kind: bytes[0], value: (bytes[1] + 256 * bytes[2]) as u16 })
    }
}

/// `WriteBytesExt::write_u8` on a vector: the byte is appended, and writing
/// to a vector does not fail.
#[verifier::external_body]
fn write_u8(bytes: &mut Vec<u8>, n: u8) -> (done: Result<(), std::io::Error>)
    ensures
        done is Ok,
        final(bytes)@ == old(bytes)@.push(n),
{
    bytes.write_u8(n)
}

/// `WriteBytesExt::write_u16` with `LittleEndian` on a vector: the low byte
/// and then the high byte are appended, and writing to a vector does not
/// fail.
#[verifier::external_body]
fn write_u16_le(bytes: &mut Vec<u8>, n: u16) -> (done: Result<(), std::io::Error>)
    ensures
        done is Ok,
        final(bytes)@ == old(bytes)@.push((n % 256) as u8).push((n / 256) as u8),
{
    bytes.write_u16::<LittleEndian>(n)
}

/// `ReadBytesExt::read_u8` on a slice: its first byte, and an error where
/// it is empty.
#[verifier::external_body]
fn read_u8(bytes: &[u8]) -> (byte: Result<u8, std::io::Error>)
    ensures
        byte is Ok <==> bytes@.len() >= 1,
        byte is Ok ==> byte->Ok_0 == bytes@[0],
{
    let mut reader = bytes;
    reader.read_u8()
}

/// `ReadBytesExt::read_u16` with `LittleEndian` on a slice: the number whose
/// low byte is the first byte and whose high byte is the second, and an
/// error where the slice is shorter.
#[verifier::external_body]
fn read_u16_le(bytes: &[u8]) -> (number: Result<u16, std::io::Error>)
    ensures
        number is Ok <==> bytes@.len() >= 2,
        number is Ok ==> number->Ok_0 == bytes@[0] + 256 * bytes@[1],
{
    let mut reader = bytes;
    reader.read_u16::<LittleEndian>()
}

/// The bytes of `payload`.
pub fn encode(payload: &Payload) -> (bytes: Result<Vec<u8>, CodingError>)
    ensures
        bytes is Ok,
        bytes->Ok_0@ == payload_bytes(*payload),
{
    let mut bytes: Vec<u8> = Vec::new();
    if write_u8(&mut bytes, payload.kind).is_err() {
        return Err(CodingError::UnexpectedEof);
    }
    if write_u16_le(&mut bytes, payload.value).is_err() {
        return Err(CodingError::UnexpectedEof);
    }
    proof {
        assert(bytes@ =~= payload_bytes(*payload));
    }
    Ok(bytes)
}

/// The record at the start of `bytes`; what follows it is not looked at.
pub fn decode(bytes: &[u8]) -> (payload: Result<Payload, CodingError>)
    ensures
        payload == payload_of(bytes@),
{
    let kind = match read_u8(bytes) {
        Ok(kind) => kind,
        Err(_) => {
            return Err(CodingError::UnexpectedEof);
        },
    };
    let rest = slice_subrange(bytes, 1, bytes.len());
    let value = match read_u16_le(rest) {
        Ok(value) => value,
        Err(_) => {
            return Err(CodingError::UnexpectedEof);
        },
    };
    Ok(Payload { kind, value })
}

/// Decoding the bytes of a record gives the record back, whatever follows
/// them.
pub proof fn lemma_decode_encoded(payload: Payload, more: Seq<u8>)
    ensures
        payload_of(payload_bytes(payload) + more) == Ok::<Payload, CodingError>(payload),
{
    let bytes = payload_bytes(payload) + more;
    assert(bytes[0] == payload.kind);
    assert(bytes[1] == (payload.value % 256) as u8);
    assert(bytes[2] == (payload.value / 256) as u8);
}

/// A colour by its red, green and blue parts.
#[derive(Debug, Clone, Copy, PartialEq, Eq, Structural)]
pub struct HexColor {
    pub red: u8,
    pub green: u8,
    pub blue: u8,
}

/// Why a text is no colour.
#[derive(Debug, Clone, Copy, PartialEq, Eq, Structural)]
pub enum ColorError {
    /// Without its number signs the text does not take six bytes.
    InvalidLength,
    /// The six bytes are not three hexadecimal numerals.
    InvalidDigit,
}

impl ColorError {
    /// The message of the error.
    pub fn message(&self) -> (text: &'static str)
        ensures
            text@ == match *self {
                ColorError::InvalidLength => "Invalid length of hex string"@,
                ColorError::InvalidDigit => "Invalid digit in hex string"@,
            },
    {
        match self {
            ColorError::InvalidLength => "Invalid length of hex string",
            ColorError::InvalidDigit => "Invalid digit in hex string",
        }
    }
}

/// How many characters at the start of `s` are `c`.
pub open spec fn leading(s: Seq<char>, c: char) -> nat
    decreases s.len(),
{
    if s.len() > 0 && s[0] == c {
        1 + leading(s.drop_first(), c)
    } else {
        0
    }
}

/// How many characters at the end of `s` are `c`.
pub open spec fn trailing(s: Seq<char>, c: char) -> nat
    decreases s.len(),
{
    if s.len() > 0 && s.last() == c {
        1 + trailing(s.drop_last(), c)
    } else {
        0
    }
}

/// `s` without the `c` at its start and at its end.
pub open spec fn trim_matches(s: Seq<char>, c: char) -> Seq<char> {
    let rest = s.skip(leading(s, c) as int);
    rest.take(rest.len() - trailing(rest, c))
}

/// The colour that `text` spells: number signs at either end are dropped,
/// and what is left must be six bytes, each pair of them a hexadecimal
/// numeral.
pub open spec fn color_of(text: Seq<char>) -> Result<HexColor, ColorError> {
    let t = trim_matches(text, '#');
    if utf8_len(t) != 6 {
        Err(ColorError::InvalidLength)
    } else if t.len() != 6 {
        Err(ColorError::InvalidDigit)
    } else {
        match (
            numeral_value(t.subrange(0, 2), 16, 255),
            numeral_value(t.subrange(2, 4), 16, 255),
            numeral_value(t.subrange(4, 6), 16, 255),
        ) {
            (Ok(r), Ok(g), Ok(b)) => Ok(HexColor { red: r as u8, green: g as u8, blue: b as u8 }),
            _ => Err(ColorError::InvalidDigit),
        }
    }
}

impl HexColor {
    /// Reads a colour such as `#ff00ff`.
    pub fn from_str(hex_color: &str) -> (color: Result<HexColor, ColorError>)
        ensures
            color == color_of(hex_color@),
    {
        let chars = chars_of(hex_color);
        let n = chars.len();
        let mut from: usize = 0;
        proof {
            assert(chars@.skip(0) =~= chars@);
        }
        while from < n && chars[from] == '#'
            invariant
                from <= n == chars.len(),
                leading(chars@, '#') == from + leading(chars@.skip(from as int), '#'),
            decreases n - from,
        {
            proof {
                assert(chars@.skip(from as int).drop_first() =~= chars@.skip(from + 1));
            }
            from = from + 1;
        }
        let ghost rest = chars@.skip(from as int);
        let mut to: usize = n;
        proof {
            assert(chars@.skip(0) =~= chars@);
            assert(chars@.subrange(from as int, n as int) =~= rest);
        }
        while to > from && chars[to - 1] == '#'
            invariant
                from <= to <= n == chars.len(),
                rest == chars@.skip(from as int),
                trailing(rest, '#') == (n - to) + trailing(
                    chars@.subrange(from as int, to as int),
                    '#',
                ),
            decreases to,
        {
            proof {
                assert(chars@.subrange(from as int, to as int).drop_last() =~= chars@.subrange(
                    from as int,
                    to - 1,
                ));
            }
            to = to - 1;
        }
        let ghost t = chars@.subrange(from as int, to as int);
        proof {
            assert(trim_matches(chars@, '#') =~= t);
        }
        // The length in bytes, counted no further than seven.
        let mut bytes: usize = 0;
        let mut i: usize = from;
        while i < to && bytes <= 6
            invariant
                from <= i <= to <= n == chars.len(),
                bytes == utf8_len(chars@.subrange(from as int, i as int)),
                bytes <= 10,
                t == chars@.subrange(from as int, to as int),
            decreases to - i,
        {
            proof {
                lemma_utf8_len_push(chars@.subrange(from as int, i as int), chars@[i as int]);
                assert(chars@.subrange(from as int, i as int).push(chars@[i as int])
                    =~= chars@.subrange(from as int, i + 1));
            }
            bytes = bytes + width_of(chars[i]);
            i = i + 1;
        }
        proof {
            crate::string_manip::lemma_utf8_len_split(t, i - from);
            assert(t.take(i - from) =~= chars@.subrange(from as int, i as int));
            crate::string_manip::lemma_utf8_len_lower(t);
        }
        if i < to || bytes != 6 {
            return Err(ColorError::InvalidLength);
        }
        if to - from != 6 {
            return Err(ColorError::InvalidDigit);
        }
        proof {
            assert(t.subrange(0, 2) =~= chars@.subrange(from as int, from + 2));
            assert(t.subrange(2, 4) =~= chars@.subrange(from + 2, from + 4));
            assert(t.subrange(4, 6) =~= chars@.subrange(from + 4, from + 6));
        }
        let red = parse_hex_pair(&chars, from);
        let green = parse_hex_pair(&chars, from + 2);
        let blue = parse_hex_pair(&chars, from + 4);
        match (red, green, blue) {
            (Ok(red), Ok(green), Ok(blue)) => Ok(HexColor { red, green, blue }),
            _ => Err(ColorError::InvalidDigit),
        }
    }
}

/// One more character adds its width to the byte length.
pub proof fn lemma_utf8_len_push(s: Seq<char>, c: char)
    ensures
        utf8_len(s.push(c)) == utf8_len(s) + utf8_width(c),
{
    let t = s.push(c);
    crate::string_manip::lemma_utf8_len_split(t, s.len() as int);
    assert(t.take(s.len() as int) =~= s);
    assert(t.skip(s.len() as int) =~= seq![c]);
    assert(seq![c].drop_first() =~= Seq::<char>::empty());
    assert(utf8_len(Seq::<char>::empty()) == 0);
    assert(utf8_len(seq![c]) == utf8_width(c));
}

/// Every character of a hexadecimal form is ASCII, and there are two for
/// each byte.
pub proof fn lemma_hex_is_ascii(bytes: Seq<u8>)
    ensures
        vstd::utf8::is_ascii_chars(hex_upper(bytes)),
        hex_upper(bytes).len() == 2 * bytes.len(),
    decreases bytes.len(),
{
    if bytes.len() > 0 {
        lemma_hex_is_ascii(bytes.drop_last());
    }
}

/// Different bytes have different hexadecimal forms.
pub proof fn lemma_hex_injective(a: Seq<u8>, b: Seq<u8>)
    requires
        hex_upper(a) == hex_upper(b),
    ensures
        a == b,
    decreases a.len(),
{
    lemma_hex_is_ascii(a);
    lemma_hex_is_ascii(b);
    if a.len() > 0 {
        let ha = hex_upper(a);
        let hb = hex_upper(b);
        assert(ha.drop_last().drop_last() =~= hex_upper(a.drop_last()));
        assert(hb.drop_last().drop_last() =~= hex_upper(b.drop_last()));
        lemma_hex_injective(a.drop_last(), b.drop_last());
        assert(ha[ha.len() - 1] == hb[hb.len() - 1]);
        assert(ha[ha.len() - 2] == hb[hb.len() - 2]);
        assert(ha[ha.len() - 1] == hex_digit(a.last() as int % 16));
        assert(ha[ha.len() - 2] == hex_digit(a.last() as int / 16));
        assert(hb[hb.len() - 1] == hex_digit(b.last() as int % 16));
        assert(hb[hb.len() - 2] == hex_digit(b.last() as int / 16));
        assert(a.last() == b.last());
        assert(a =~= a.drop_last().push(a.last()));
        assert(b =~= b.drop_last().push(b.last()));
    } else {
        assert(a =~= b);
    }
}

} // verus!
