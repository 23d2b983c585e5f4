//! Finding things in text: the login of an e-mail address, hashtags, phone
//! numbers, dates, and colours.
//!
//! Patterns are matched by the `regex` crate. What a pattern matches is named
//! here, not spelled out; what is done with the matches is proved.

use crate::numerals::{numeral_value, parse_chars, IntErrorKind};
use crate::string_manip::{
    chars_of, slices, split_whitespace, string_of, utf8_width, width_of, words,
};
use regex::Regex;
use vstd::prelude::*;

verus! {

/// The group `group` of the first match of `pattern` in `input`: `None`
/// where `pattern` is no pattern, `Some(None)` where it does not match or the
/// group took no part in the match.
pub uninterp spec fn regex_capture(pattern: Seq<char>, group: Seq<char>, input: Seq<char>) -> Option<Option<Seq<char>>>;

/// The matches of `pattern` in `input` from left to right, none overlapping
/// another; `None` where `pattern` is no pattern.
pub uninterp spec fn regex_matches(pattern: Seq<char>, input: Seq<char>) -> Option<Seq<Seq<char>>>;

/// The groups of each match of `pattern` in `input`, the whole match as group
/// 0 and `None` for a group that took no part; `None` where `pattern` is no
/// pattern.
pub uninterp spec fn regex_groups(pattern: Seq<char>, input: Seq<char>) -> Option<Seq<Seq<Option<Seq<char>>>>>;

/// `input` with every match of `pattern` replaced by `replacement`, in which
/// `$name` stands for a group; `None` where `pattern` is no pattern.
pub uninterp spec fn regex_replaced(pattern: Seq<char>, input: Seq<char>, replacement: Seq<char>) -> Option<Seq<char>>;

/// The texts of `items`.
pub open spec fn texts(items: Seq<String>) -> Seq<Seq<char>> {
    Seq::new(items.len(), |i: int| items[i]@)
}

/// The texts of the groups of one match.
pub open spec fn group_texts(groups: Seq<Option<String>>) -> Seq<Option<Seq<char>>> {
    Seq::new(
        groups.len(),
        |i: int|
            match groups[i] {
                Some(text) => Some(text@),
                None => None,
            },
    )
}

/// The texts of the groups of each match.
pub open spec fn match_texts(matches: Seq<Vec<Option<String>>>) -> Seq<Seq<Option<Seq<char>>>> {
    Seq::new(matches.len(), |i: int| group_texts(matches[i]@))
}

/// `Regex::new`, `Regex::captures` and `Captures::name`: the text of a named
/// group of the first match, as `regex_capture` names it.
#[verifier::external_body]
fn capture_named(pattern: &str, group: &str, input: &str) -> (found: Option<Option<String>>)
    ensures
        match found {
            Some(Some(text)) => regex_capture(pattern@, group@, input@) == Some(Some(text@)),
            Some(None) => regex_capture(pattern@, group@, input@) == Some(None::<Seq<char>>),
            None => regex_capture(pattern@, group@, input@) is None,
        },
{
    let re = Regex::new(pattern).ok()?;
    Some(re.captures(input).and_then(|cap| cap.name(group).map(|m| m.as_str().to_owned())))
}

/// `Regex::new` and `Regex::find_iter`: the text of each match, as
/// `regex_matches` names them.
#[verifier::external_body]
fn find_all(pattern: &str, input: &str) -> (found: Option<Vec<String>>)
    ensures
        match found {
            Some(items) => regex_matches(pattern@, input@) == Some(texts(items@)),
            None => regex_matches(pattern@, input@) is None,
        },
{
    let re = Regex::new(pattern).ok()?;
    Some(re.find_iter(input).map(|m| m.as_str().to_owned()).collect())
}

/// `Regex::new`, `Regex::captures_iter` and `Captures::iter`: the text of
/// each group of each match, as `regex_groups` names them.
#[verifier::external_body]
pub(crate) fn captures_all(pattern: &str, input: &str) -> (found: Option<Vec<Vec<Option<String>>>>)
    ensures
        match found {
            Some(matches) => regex_groups(pattern@, input@) == Some(match_texts(matches@)),
            None => regex_groups(pattern@, input@) is None,
        },
{
    let re = Regex::new(pattern).ok()?;
    Some(
        re.captures_iter(input).map(
            |cap| cap.iter().map(|group| group.map(|m| m.as_str().to_owned())).collect(),
        ).collect(),
    )
}

/// `Regex::new` and `Regex::replace_all`: the text with every match
/// replaced, as `regex_replaced` names it.
#[verifier::external_body]
fn replace_all(pattern: &str, input: &str, replacement: &str) -> (replaced: Option<String>)
    ensures
        match replaced {
            Some(text) => regex_replaced(pattern@, input@, replacement@) == Some(text@),
            None => regex_replaced(pattern@, input@, replacement@) is None,
        },
{
    let re = Regex::new(pattern).ok()?;
    Some(re.replace_all(input, replacement).into_owned())
}

/// `text` in lower case.
pub uninterp spec fn lowercase(text: Seq<char>) -> Seq<char>;

/// `str::to_lowercase`: the text named `lowercase`.
#[verifier::external_body]
pub(crate) fn to_lowercase(text: &str) -> (lower: String)
    ensures
        lower@ == lowercase(text@),
{
    text.to_lowercase()
}

/// Each of `ws` in lower case.
pub open spec fn lowered(ws: Seq<Seq<char>>) -> Seq<Seq<char>> {
    Seq::new(ws.len(), |i: int| lowercase(ws[i]))
}

/// The words of `text` in lower case, each once, in the order in which they
/// first occur.
pub fn unique_words(text: &str) -> (found: Vec<String>)
    ensures
        texts(found@) == distinct(lowered(words(text@))),
{
    let chars = chars_of(text);
    let ranges = split_whitespace(&chars);
    let mut all: Vec<String> = Vec::new();
    let mut i: usize = 0;
    while i < ranges.len()
        invariant
            i <= ranges.len(),
            chars@ == text@,
            slices(chars@, ranges@) == words(chars@),
            forall|k: int|
                0 <= k < ranges.len() ==> (#[trigger] ranges[k]).0 <= ranges[k].1 <= chars.len(),
            all@.len() == i,
            forall|k: int| 0 <= k < i ==> (#[trigger] all@[k])@ == lowercase(words(text@)[k]),
        decreases ranges.len() - i,
    {
        let (from, to) = ranges[i];
        let mut word: Vec<char> = Vec::new();
        let mut j: usize = from;
        while j < to
            invariant
                from <= j <= to <= chars.len(),
                word@ == chars@.subrange(from as int, j as int),
            decreases to - j,
        {
            word.push(chars[j]);
            proof {
                assert(word@ =~= chars@.subrange(from as int, j + 1));
            }
            j = j + 1;
        }
        proof {
            assert(slices(chars@, ranges@)[i as int] == chars@.subrange(from as int, to as int));
        }
        let lower = to_lowercase(string_of(&word).as_str());
        all.push(lower);
        i = i + 1;
    }
    proof {
        assert(slices(chars@, ranges@).len() == ranges@.len());
        assert(texts(all@) =~= lowered(words(text@)));
    }
    unique(&all)
}

/// The pattern of an e-mail address: a login without `@` and white space,
/// an `@`, and a domain of words joined by full stops.
pub open spec fn login_pattern() -> Seq<char> {
    r"(?x)
            ^(?P<login>[^@\s]+)@
            ([[:word:]]+\.)*
            [[:word:]]+$
            "@
}

/// The pattern of a hashtag: `#`, a letter, then letters, digits and `_`.
pub open spec fn hashtag_pattern() -> Seq<char> {
    r"\#[a-zA-Z][0-9a-zA-Z_]*"@
}

/// The pattern of a date as year, month and day.
pub open spec fn date_pattern() -> Seq<char> {
    r"(?P<y>\d{4})-(?P<m>\d{2})-(?P<d>\d{2})"@
}

/// The pattern of a North American phone number.
pub open spec fn phone_pattern() -> Seq<char> {
    r#"(?x)
          (?:\+?1)?                       # Country Code Optional
          [\s\.]?
          (([2-9]\d{2})|\(([2-9]\d{2})\)) # Area Code
          [\s\.\-]?
          ([2-9]\d{2})                    # Exchange Code
          [\s\.\-]?
          (\d{4})                         # Subscriber Number"#@
}

/// Each text of `s` once, in the order of first occurrence.
pub open spec fn distinct(s: Seq<Seq<char>>) -> Seq<Seq<char>>
    decreases s.len(),
{
    if s.len() == 0 {
        seq![]
    } else {
        let before = distinct(s.drop_last());
        if before.contains(s.last()) {
            before
        } else {
            before.push(s.last())
        }
    }
}

/// Whether `item` is among `items`.
pub fn contains_text(items: &Vec<String>, item: &String) -> (found: bool)
    ensures
        found == texts(items@).contains(item@),
{
    let mut i: usize = 0;
    while i < items.len()
        invariant
            i <= items.len(),
            forall|k: int| 0 <= k < i ==> texts(items@)[k] != item@,
        decreases items.len() - i,
    {
        if items[i] == *item {
            proof {
                assert(texts(items@)[i as int] == item@);
            }
            return true;
        }
        i = i + 1;
    }
    false
}

/// Each text of `items` once, in the order of first occurrence.
pub fn unique(items: &Vec<String>) -> (kept: Vec<String>)
    ensures
        texts(kept@) == distinct(texts(items@)),
{
    let mut kept: Vec<String> = Vec::new();
    let mut i: usize = 0;
    proof {
        assert(texts(items@).take(0) =~= Seq::<Seq<char>>::empty());
        assert(texts(kept@) =~= Seq::<Seq<char>>::empty());
    }
    while i < items.len()
        invariant
            i <= items.len(),
            texts(kept@) == distinct(texts(items@).take(i as int)),
        decreases items.len() - i,
    {
        let ghost before = kept@;
        proof {
            let upto = texts(items@).take(i + 1);
            assert(upto.drop_last() =~= texts(items@).take(i as int));
            assert(upto.last() == items@[i as int]@);
        }
        if !contains_text(&kept, &items[i]) {
            let item = items[i].clone();
            kept.push(item);
            proof {
                assert(texts(kept@) =~= texts(before).push(items@[i as int]@));
            }
        }
        i = i + 1;
    }
    proof {
        assert(texts(items@).take(items.len() as int) =~= texts(items@));
    }
    kept
}

/// No text occurs twice in `distinct(s)`, and it holds what `s` holds.
pub proof fn lemma_distinct(s: Seq<Seq<char>>)
    ensures
        distinct(s).no_duplicates(),
        forall|t: Seq<char>| #[trigger] distinct(s).contains(t) <==> s.contains(t),
        distinct(s).len() <= s.len(),
    decreases s.len(),
{
    if s.len() > 0 {
        let rest = s.drop_last();
        let before = distinct(rest);
        lemma_distinct(rest);
        let d = distinct(s);
        assert forall|t: Seq<char>| #[trigger] d.contains(t) <==> s.contains(t) by {
            assert(before.contains(t) <==> rest.contains(t));
            if s.contains(t) {
                let i = choose|i: int| 0 <= i < s.len() && s[i] == t;
                if i < s.len() - 1 {
                    assert(rest[i] == t);
                    assert(rest.contains(t));
                }
                if before.contains(t) {
                    let j = choose|j: int| 0 <= j < before.len() && before[j] == t;
                    assert(d[j] == t);
                } else {
                    assert(s.last() == t);
                    assert(d[d.len() - 1] == t);
                }
            }
            if d.contains(t) {
                let j = choose|j: int| 0 <= j < d.len() && d[j] == t;
                if j < before.len() {
                    assert(before[j] == t);
                    assert(before.contains(t));
                    let i = choose|i: int| 0 <= i < rest.len() && rest[i] == t;
                    assert(s[i] == t);
                } else {
                    assert(s[s.len() - 1] == t);
                }
            }
        }
    }
}

/// What was captured, if the pattern is one and the group took part.
pub open spec fn captured(found: Option<Option<Seq<char>>>) -> Option<Seq<char>> {
    match found {
        Some(Some(text)) => Some(text),
        _ => None,
    }
}

/// The login of an e-mail address, where `input` is one.
pub fn extract_login(input: &str) -> (login: Option<String>)
    ensures
        match login {
            Some(text) => captured(regex_capture(login_pattern(), "login"@, input@)) == Some(
                text@,
            ),
            None => captured(regex_capture(login_pattern(), "login"@, input@)) is None,
        },
{
    let pattern = r"(?x)
            ^(?P<login>[^@\s]+)@
            ([[:word:]]+\.)*
            [[:word:]]+$
            ";
    match capture_named(pattern, "login", input) {
        Some(found) => found,
        None => None,
    }
}

/// The hashtags of `text`, each once, in the order in which they first occur.
pub fn extract_hashtags(text: &str) -> (tags: Vec<String>)
    ensures
        match regex_matches(hashtag_pattern(), text@) {
            Some(found) => texts(tags@) == distinct(found),
            None => tags@.len() == 0,
        },
{
    match find_all(r"\#[a-zA-Z][0-9a-zA-Z_]*", text) {
        Some(found) => unique(&found),
        None => Vec::new(),
    }
}

/// `before` with every date `yyyy-mm-dd` rewritten as `mm/dd/yyyy`.
pub fn reformat_dates(before: &str) -> (after: String)
    ensures
        match regex_replaced(date_pattern(), before@, "$m/$d/$y"@) {
            Some(text) => after@ == text,
            None => after@ == before@,
        },
{
    match replace_all(r"(?P<y>\d{4})-(?P<m>\d{2})-(?P<d>\d{2})", before, "$m/$d/$y") {
        Some(text) => text,
        None => before.to_owned(),
    }
}

/// A phone number by its three parts.
#[derive(Debug, PartialEq, Eq)]
pub struct PhoneNumber {
    pub area: String,
    pub exchange: String,
    pub subscriber: String,
}

/// A phone number as it is written: `1 (area) exchange-subscriber`.
pub open spec fn phone_text(area: Seq<char>, exchange: Seq<char>, subscriber: Seq<char>) -> Seq<char> {
    "1 ("@ + area + ") "@ + exchange + "-"@ + subscriber
}

impl PhoneNumber {
    /// The number as it is written.
    pub fn to_string(&self) -> (text: String)
        ensures
            text@ == phone_text(self.area@, self.exchange@, self.subscriber@),
    {
        let mut text = "1 (".to_owned();
        text.append(self.area.as_str());
        text.append(") ");
        text.append(self.exchange.as_str());
        text.append("-");
        text.append(self.subscriber.as_str());
        text
    }
}

/// The phone number in the groups of one match: the area code is group 2 or,
/// failing that, group 3; exchange and subscriber are groups 4 and 5. `None`
/// where one of the three is missing.
pub open spec fn phone_of(groups: Seq<Option<Seq<char>>>) -> Option<(Seq<char>, Seq<char>, Seq<char>)> {
    if groups.len() < 6 {
        None
    } else {
        let area = if groups[2] is Some {
            groups[2]
        } else {
            groups[3]
        };
        match (area, groups[4], groups[5]) {
            (Some(a), Some(e), Some(s)) => Some((a, e, s)),
            _ => None,
        }
    }
}

/// The phone numbers in the matches `found`, in order.
pub open spec fn phones_of(found: Seq<Seq<Option<Seq<char>>>>) -> Seq<(Seq<char>, Seq<char>, Seq<char>)>
    decreases found.len(),
{
    if found.len() == 0 {
        seq![]
    } else {
        match phone_of(found.last()) {
            Some(phone) => phones_of(found.drop_last()).push(phone),
            None => phones_of(found.drop_last()),
        }
    }
}

/// The parts of each of `numbers`.
pub open spec fn phone_parts(numbers: Seq<PhoneNumber>) -> Seq<(Seq<char>, Seq<char>, Seq<char>)> {
    Seq::new(numbers.len(), |i: int| (numbers[i].area@, numbers[i].exchange@, numbers[i].subscriber@))
}

/// The phone number in the groups of one match.
pub fn phone_from_groups(groups: &Vec<Option<String>>) -> (phone: Option<PhoneNumber>)
    ensures
        match phone {
            Some(number) => phone_of(group_texts(groups@)) == Some(
                (number.area@, number.exchange@, number.subscriber@),
            ),
            None => phone_of(group_texts(groups@)) is None,
        },
{
    if groups.len() < 6 {
        return None;
    }
    let area = match &groups[2] {
        Some(text) => Some(text),
        None => match &groups[3] {
            Some(text) => Some(text),
            None => None,
        },
    };
    proof {
        let g = group_texts(groups@);
        assert(g[2] is Some <==> groups@[2] is Some);
        assert(g[3] is Some <==> groups@[3] is Some);
        assert(g[4] is Some <==> groups@[4] is Some);
        assert(g[5] is Some <==> groups@[5] is Some);
    }
    match (area, &groups[4], &groups[5]) {
        (Some(area), Some(ext), Some(sub)) => Some(
            PhoneNumber { area: area.clone(), exchange: ext.clone(), subscriber: sub.clone() },
        ),
        _ => None,
    }
}

/// The phone numbers that stand in `text`, in order.
pub fn phone_numbers(text: &str) -> (numbers: Vec<PhoneNumber>)
    ensures
        match regex_groups(phone_pattern(), text@) {
            Some(found) => phone_parts(numbers@) == phones_of(found),
            None => numbers@.len() == 0,
        },
{
    let pattern = r#"(?x)
          (?:\+?1)?                       # Country Code Optional
          [\s\.]?
          (([2-9]\d{2})|\(([2-9]\d{2})\)) # Area Code
          [\s\.\-]?
          ([2-9]\d{2})                    # Exchange Code
          [\s\.\-]?
          (\d{4})                         # Subscriber Number"#;
    let found = match captures_all(pattern, text) {
        Some(found) => found,
        None => {
            return Vec::new();
        },
    };
    let mut numbers: Vec<PhoneNumber> = Vec::new();
    let mut i: usize = 0;
    proof {
        assert(match_texts(found@).take(0) =~= Seq::<Seq<Option<Seq<char>>>>::empty());
        assert(phone_parts(numbers@) =~= Seq::<(Seq<char>, Seq<char>, Seq<char>)>::empty());
    }
    while i < found.len()
        invariant
            i <= found.len(),
            phone_parts(numbers@) == phones_of(match_texts(found@).take(i as int)),
        decreases found.len() - i,
    {
        let ghost before = numbers@;
        proof {
            let upto = match_texts(found@).take(i + 1);
            assert(upto.drop_last() =~= match_texts(found@).take(i as int));
            assert(upto.last() == group_texts(found@[i as int]@));
        }
        match phone_from_groups(&found[i]) {
            Some(number) => {
                let ghost parts = (number.area@, number.exchange@, number.subscriber@);
                numbers.push(number);
                proof {
                    assert(phone_parts(numbers@) =~= phone_parts(before).push(parts));
                }
            },
            None => {},
        }
        i = i + 1;
    }
    proof {
        assert(match_texts(found@).take(found.len() as int) =~= match_texts(found@));
    }
    numbers
}

/// A colour by its red, green and blue parts.
#[derive(Debug, Clone, Copy, PartialEq, Eq, Structural)]
pub struct Rgb {
    pub r: u8,
    pub g: u8,
    pub b: u8,
}

/// Why a text is no colour code.
#[derive(Debug, Clone, Copy, PartialEq, Eq, Structural)]
pub enum RgbError {
    /// The text is too short for the pair that is to be read, or the pair
    /// would begin or end within a character.
    Malformed,
    /// A pair is no hexadecimal numeral.
    Invalid(IntErrorKind),
}

/// The characters that fill exactly the bytes `from..to` of `s` in UTF-8;
/// `None` where `s` has fewer bytes or a character lies across `from` or
/// `to`.
pub open spec fn byte_piece(s: Seq<char>, from: nat, to: nat) -> Option<Seq<char>>
    recommends
        from <= to,
    decreases s.len(),
{
    if from == 0 && to == 0 {
        Some(seq![])
    } else if s.len() == 0 {
        None
    } else if from == 0 {
        if utf8_width(s[0]) > to {
            None
        } else {
            match byte_piece(s.drop_first(), 0, (to - utf8_width(s[0])) as nat) {
                Some(rest) => Some(seq![s[0]] + rest),
                None => None,
            }
        }
    } else if utf8_width(s[0]) > from {
        None
    } else {
        byte_piece(
            s.drop_first(),
            (from - utf8_width(s[0])) as nat,
            (to - utf8_width(s[0])) as nat,
        )
    }
}

/// The number that the pair in the bytes `from..from + 2` of `code` spells
/// in base sixteen.
pub open spec fn pair_value(code: Seq<char>, from: nat) -> Result<nat, RgbError> {
    match byte_piece(code, from, from + 2) {
        None => Err(RgbError::Malformed),
        Some(pair) => match numeral_value(pair, 16, 255) {
            Ok(n) => Ok(n),
            Err(e) => Err(RgbError::Invalid(e)),
        },
    }
}

/// The colour that a code of the form `#rRgGbB` spells: the first byte is
/// passed over, the six that follow are three hexadecimal numerals, and
/// whatever follows them is not looked at. The pairs are read from the left,
/// and the first that cannot be read decides the error.
pub open spec fn rgb_of(code: Seq<char>) -> Result<Rgb, RgbError> {
    match pair_value(code, 1) {
        Err(e) => Err(e),
        Ok(r) => match pair_value(code, 3) {
            Err(e) => Err(e),
            Ok(g) => match pair_value(code, 5) {
                Err(e) => Err(e),
                Ok(b) => Ok(Rgb { r: r as u8, g: g as u8, b: b as u8 }),
            },
        },
    }
}

/// The characters that fill exactly the bytes `from..to` of `chars`.
pub fn slice_bytes(chars: &Vec<char>, from: usize, to: usize) -> (piece: Option<Vec<char>>)
    requires
        from <= to,
    ensures
        match piece {
            Some(found) => byte_piece(chars@, from as nat, to as nat) == Some(found@),
            None => byte_piece(chars@, from as nat, to as nat) is None,
        },
{
    let mut i: usize = 0;
    let mut at: usize = 0;
    proof {
        assert(chars@.skip(0) =~= chars@);
    }
    while at < from
        invariant
            i <= chars.len(),
            at <= from <= to,
            byte_piece(chars@, from as nat, to as nat) == byte_piece(
                chars@.skip(i as int),
                (from - at) as nat,
                (to - at) as nat,
            ),
        decreases chars.len() - i,
    {
        if i == chars.len() {
            return None;
        }
        let w = width_of(chars[i]);
        if w > from - at {
            return None;
        }
        proof {
            assert(chars@.skip(i as int).drop_first() =~= chars@.skip(i + 1));
            assert(chars@.skip(i as int)[0] == chars@[i as int]);
        }
        at = at + w;
        i = i + 1;
    }
    let mut piece: Vec<char> = Vec::new();
    while at < to
        invariant
            i <= chars.len(),
            from <= at <= to,
            match byte_piece(chars@.skip(i as int), 0, (to - at) as nat) {
                Some(rest) => byte_piece(chars@, from as nat, to as nat) == Some(piece@ + rest),
                None => byte_piece(chars@, from as nat, to as nat) is None,
            },
        decreases chars.len() - i,
    {
        if i == chars.len() {
            return None;
        }
        let w = width_of(chars[i]);
        if w > to - at {
            return None;
        }
        proof {
            assert(chars@.skip(i as int).drop_first() =~= chars@.skip(i + 1));
            assert(chars@.skip(i as int)[0] == chars@[i as int]);
            match byte_piece(chars@.skip(i + 1), 0, (to - at - w) as nat) {
                Some(rest) => {
                    assert(piece@.push(chars@[i as int]) + rest =~= piece@ + (seq![chars@[i as int]]
                        + rest));
                },
                None => {},
            }
        }
        piece.push(chars[i]);
        at = at + w;
        i = i + 1;
    }
    proof {
        assert(piece@ + Seq::<char>::empty() =~= piece@);
    }
    Some(piece)
}

/// The number that the pair in the bytes `from..from + 2` of `chars` spells
/// in base sixteen.
pub fn read_pair(chars: &Vec<char>, from: usize) -> (value: Result<u8, RgbError>)
    requires
        from <= 8,
    ensures
        match value {
            Ok(n) => pair_value(chars@, from as nat) == Ok::<nat, RgbError>(n as nat),
            Err(e) => pair_value(chars@, from as nat) == Err::<nat, RgbError>(e),
        },
{
    let pair = match slice_bytes(chars, from, from + 2) {
        Some(pair) => pair,
        None => {
            return Err(RgbError::Malformed);
        },
    };
    proof {
        assert(pair@.skip(0) =~= pair@);
    }
    match parse_chars(&pair, 0, 16, 255) {
        Ok(n) => Ok(n as u8),
        Err(e) => Err(RgbError::Invalid(e)),
    }
}

impl Rgb {
    /// Reads a colour code of the form `#rRgGbB`.
    pub fn from_str(hex_code: &str) -> (color: Result<Rgb, RgbError>)
        ensures
            color == rgb_of(hex_code@),
    {
        let chars = chars_of(hex_code);
        let r = match read_pair(&chars, 1) {
            Ok(r) => r,
            Err(e) => {
                return Err(e);
            },
        };
        let g = match read_pair(&chars, 3) {
            Ok(g) => g,
            Err(e) => {
                return Err(e);
            },
        };
        let b = match read_pair(&chars, 5) {
            Ok(b) => b,
            Err(e) => {
                return Err(e);
            },
        };
        Ok(Rgb { r, g, b })
    }
}

} // verus!
