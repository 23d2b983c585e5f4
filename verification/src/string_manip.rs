//! Aligning a line of text within a given width.
//!
//! Widths are counted the way the standard library counts them: the input's
//! own length is its number of UTF-8 bytes, while centring counts characters.

use vstd::prelude::*;
use vstd::utf8::*;

verus! {

/// Where the text goes on its line.
#[derive(Debug, Clone, Copy, PartialEq, Eq, Structural)]
pub enum TextAlign {
    Left,
    Center,
    Right,
    Justify,
}

/// Whether `c` is Unicode white space (the property `White_Space`).
pub open spec fn is_space(c: char) -> bool {
    let v = c as u32;
    ||| 0x09 <= v <= 0x0D
    ||| v == 0x20
    ||| v == 0x85
    ||| v == 0xA0
    ||| v == 0x1680
    ||| 0x2000 <= v <= 0x200A
    ||| v == 0x2028
    ||| v == 0x2029
    ||| v == 0x202F
    ||| v == 0x205F
    ||| v == 0x3000
}

/// The number of bytes that `c` takes in UTF-8.
pub open spec fn utf8_width(c: char) -> nat {
    let v = c as u32;
    if v < 0x80 {
        1
    } else if v < 0x800 {
        2
    } else if v < 0x10000 {
        3
    } else {
        4
    }
}

/// The number of bytes that `s` takes in UTF-8.
pub open spec fn utf8_len(s: Seq<char>) -> nat
    decreases s.len(),
{
    if s.len() == 0 {
        0
    } else {
        utf8_width(s[0]) + utf8_len(s.drop_first())
    }
}

/// The length of the longest prefix of `s` whose characters are all white
/// space (`space` true) or all not (`space` false).
pub open spec fn run_len(s: Seq<char>, space: bool) -> nat
    decreases s.len(),
{
    if s.len() > 0 && is_space(s[0]) == space {
        1 + run_len(s.drop_first(), space)
    } else {
        0
    }
}

/// The length of the longest suffix of `s` that is all white space.
pub open spec fn trailing_spaces(s: Seq<char>) -> nat
    decreases s.len(),
{
    if s.len() > 0 && is_space(s.last()) {
        1 + trailing_spaces(s.drop_last())
    } else {
        0
    }
}

/// `s` without its leading white space.
pub open spec fn trim_start(s: Seq<char>) -> Seq<char> {
    s.skip(run_len(s, true) as int)
}

/// `s` without its trailing white space.
pub open spec fn trim_end(s: Seq<char>) -> Seq<char> {
    s.take(s.len() - trailing_spaces(s))
}

/// `s` without leading and trailing white space.
pub open spec fn trim(s: Seq<char>) -> Seq<char> {
    trim_end(trim_start(s))
}

/// The words of `s`: its maximal runs of characters that are not white space.
pub open spec fn words(s: Seq<char>) -> Seq<Seq<char>>
    decreases s.len(),
{
    let rest = trim_start(s);
    let n = run_len(rest, false);
    if n == 0 {
        seq![]
    } else {
        proof {
            lemma_run_len_bound(s, true);
            lemma_run_len_bound(rest, false);
        }
        seq![rest.take(n as int)] + words(rest.skip(n as int))
    }
}

/// A run is no longer than the text it starts.
pub proof fn lemma_run_len_bound(s: Seq<char>, space: bool)
    ensures
        run_len(s, space) <= s.len(),
    decreases s.len(),
{
    if s.len() > 0 && is_space(s[0]) == space {
        lemma_run_len_bound(s.drop_first(), space);
    }
}

/// The number of characters of `s` that are not white space.
pub open spec fn ink(s: Seq<char>) -> nat
    decreases s.len(),
{
    if s.len() == 0 {
        0
    } else {
        ink(s.drop_last()) + if is_space(s.last()) {
            0nat
        } else {
            1nat
        }
    }
}

/// `n` blanks.
pub open spec fn blanks(n: nat) -> Seq<char> {
    Seq::new(n, |i: int| ' ')
}

/// The larger of the two.
pub open spec fn larger(a: nat, b: nat) -> nat {
    if a >= b {
        a
    } else {
        b
    }
}

/// The width of gap `i` when `fill` blanks are dealt out over `gaps` gaps:
/// every gap gets the same share, and the last `fill % gaps` gaps one more.
pub open spec fn gap_width(i: nat, gaps: nat, fill: nat) -> nat
    recommends
        gaps > 0,
{
    fill / gaps + if i + fill % gaps >= gaps {
        1nat
    } else {
        0nat
    }
}

/// The first `upto` of `ws`, each but the last word of `ws` followed by its gap.
pub open spec fn spread(ws: Seq<Seq<char>>, fill: nat, upto: nat) -> Seq<char>
    recommends
        upto <= ws.len(),
        ws.len() >= 2,
    decreases upto,
{
    if upto == 0 {
        seq![]
    } else {
        let i = (upto - 1) as nat;
        let gaps = (ws.len() - 1) as nat;
        spread(ws, fill, i) + ws[i as int] + if i < gaps {
            blanks(gap_width(i, gaps, fill))
        } else {
            seq![]
        }
    }
}

/// `s` with leading white space removed and blanks added at the end, up to
/// `line_length` bytes or the byte length of `s`, whichever is larger.
pub open spec fn left_aligned(s: Seq<char>, line_length: nat) -> Seq<char> {
    let t = trim_start(s);
    t + blanks((larger(utf8_len(s), line_length) - utf8_len(t)) as nat)
}

/// `s` with trailing white space removed and blanks added in front, up to
/// `line_length` bytes or the byte length of `s`, whichever is larger.
pub open spec fn right_aligned(s: Seq<char>, line_length: nat) -> Seq<char> {
    let t = trim_end(s);
    blanks((larger(utf8_len(s), line_length) - utf8_len(t)) as nat) + t
}

/// `s` trimmed and, where it has fewer than `line_length` characters, blanks
/// on both sides; an odd blank goes to the right.
pub open spec fn centered(s: Seq<char>, line_length: nat) -> Seq<char> {
    let t = trim(s);
    if t.len() >= line_length {
        t
    } else {
        let pad = (line_length - t.len()) as nat;
        blanks(pad / 2) + t + blanks((pad + 1) / 2)
    }
}

/// The words of `s` with the blanks between them dealt out evenly, so that
/// words and blanks together count as many characters as `line_length` or
/// the byte length of `s`, whichever is larger. A text of fewer than two
/// words stays as it is.
pub open spec fn justified(s: Seq<char>, line_length: nat) -> Seq<char> {
    let ws = words(s);
    if ws.len() < 2 {
        s
    } else {
        spread(ws, (larger(line_length, utf8_len(s)) - ink(s)) as nat, ws.len())
    }
}

/// What `text_align` makes of `s`.
pub open spec fn aligned(s: Seq<char>, line_length: nat, align: TextAlign) -> Seq<char> {
    match align {
        TextAlign::Left => left_aligned(s, line_length),
        TextAlign::Center => centered(s, line_length),
        TextAlign::Right => right_aligned(s, line_length),
        TextAlign::Justify => justified(s, line_length),
    }
}

/// The byte length that the standard library reports for a string is the sum
/// of the widths of its characters.
pub proof fn lemma_utf8_len_is_encoded_len(s: Seq<char>)
    ensures
        encode_utf8(s).len() == utf8_len(s),
    decreases s.len(),
{
    if s.len() > 0 {
        lemma_utf8_len_is_encoded_len(s.drop_first());
        char_is_scalar(s[0]);
        assert(encode_scalar(s[0] as u32).len() == utf8_width(s[0]));
    }
}

/// Byte lengths add up over the two parts of a text.
pub proof fn lemma_utf8_len_split(s: Seq<char>, k: int)
    requires
        0 <= k <= s.len(),
    ensures
        utf8_len(s) == utf8_len(s.take(k)) + utf8_len(s.skip(k)),
    decreases k,
{
    if k == 0 {
        assert(s.skip(0) =~= s);
    } else {
        lemma_utf8_len_split(s.drop_first(), k - 1);
        assert(s.take(k).drop_first() =~= s.drop_first().take(k - 1));
        assert(s.skip(k) =~= s.drop_first().skip(k - 1));
    }
}

/// Every character takes at least one byte.
pub proof fn lemma_utf8_len_lower(s: Seq<char>)
    ensures
        s.len() <= utf8_len(s),
    decreases s.len(),
{
    if s.len() > 0 {
        lemma_utf8_len_lower(s.drop_first());
    }
}

/// A text has no more ink than characters.
pub proof fn lemma_ink_bound(s: Seq<char>)
    ensures
        ink(s) <= s.len(),
    decreases s.len(),
{
    if s.len() > 0 {
        lemma_ink_bound(s.drop_last());
    }
}

/// Trailing white space is no longer than the text.
pub proof fn lemma_trailing_spaces_bound(s: Seq<char>)
    ensures
        trailing_spaces(s) <= s.len(),
    decreases s.len(),
{
    if s.len() > 0 && is_space(s.last()) {
        lemma_trailing_spaces_bound(s.drop_last());
    }
}

/// The number of characters in all of `ws`.
pub open spec fn total_len(ws: Seq<Seq<char>>) -> nat
    decreases ws.len(),
{
    if ws.len() == 0 {
        0
    } else {
        total_len(ws.drop_last()) + ws.last().len()
    }
}

/// The number of blanks in the first `upto` gaps.
pub open spec fn gaps_sum(gaps: nat, fill: nat, upto: nat) -> nat
    decreases upto,
{
    if upto == 0 {
        0
    } else {
        gaps_sum(gaps, fill, (upto - 1) as nat) + gap_width((upto - 1) as nat, gaps, fill)
    }
}

/// Ink adds up over the two parts of a text.
pub proof fn lemma_ink_concat(a: Seq<char>, b: Seq<char>)
    ensures
        ink(a + b) == ink(a) + ink(b),
    decreases b.len(),
{
    if b.len() == 0 {
        assert(a + b =~= a);
    } else {
        assert((a + b).drop_last() =~= a + b.drop_last());
        lemma_ink_concat(a, b.drop_last());
    }
}

/// A run of white space holds no ink, and a run of anything else is all ink.
pub proof fn lemma_ink_of_run(s: Seq<char>, space: bool)
    ensures
        run_len(s, space) <= s.len(),
        ink(s.take(run_len(s, space) as int)) == if space {
            0
        } else {
            run_len(s, space)
        },
    decreases s.len(),
{
    if s.len() > 0 && is_space(s[0]) == space {
        let rest = s.drop_first();
        lemma_ink_of_run(rest, space);
        let n = run_len(rest, space) as int;
        assert(s.take(n + 1) =~= seq![s[0]] + rest.take(n));
        lemma_ink_concat(seq![s[0]], rest.take(n));
        assert(seq![s[0]].drop_last() =~= Seq::<char>::empty());
        assert(ink(Seq::<char>::empty()) == 0);
    } else {
        assert(s.take(0) =~= Seq::<char>::empty());
    }
}

/// One more word in front adds its length.
pub proof fn lemma_total_len_prepend(w: Seq<char>, ws: Seq<Seq<char>>)
    ensures
        total_len(seq![w] + ws) == w.len() + total_len(ws),
    decreases ws.len(),
{
    if ws.len() == 0 {
        assert(seq![w] + ws =~= seq![w]);
        assert(seq![w].drop_last() =~= Seq::<Seq<char>>::empty());
        assert(total_len(Seq::<Seq<char>>::empty()) == 0);
    } else {
        assert((seq![w] + ws).drop_last() =~= seq![w] + ws.drop_last());
        lemma_total_len_prepend(w, ws.drop_last());
    }
}

/// The words of a text hold all of its ink and nothing else.
pub proof fn lemma_words_hold_the_ink(s: Seq<char>)
    ensures
        total_len(words(s)) == ink(s),
    decreases s.len(),
{
    let lead = run_len(s, true) as int;
    lemma_ink_of_run(s, true);
    let rest = trim_start(s);
    let n = run_len(rest, false) as int;
    lemma_ink_of_run(rest, false);
    assert(s =~= s.take(lead) + rest);
    lemma_ink_concat(s.take(lead), rest);
    if n == 0 {
        if rest.len() > 0 {
            assert(is_space(rest[0]));
            lemma_run_ends(s, true);
        }
        assert(rest =~= Seq::<char>::empty());
    } else {
        let tail = rest.skip(n);
        lemma_words_hold_the_ink(tail);
        lemma_total_len_prepend(rest.take(n), words(tail));
        assert(rest =~= rest.take(n) + tail);
        lemma_ink_concat(rest.take(n), tail);
    }
}

/// What follows a run does not continue it.
pub proof fn lemma_run_ends(s: Seq<char>, space: bool)
    ensures
        run_len(s, space) <= s.len(),
        run_len(s, space) < s.len() ==> is_space(s[run_len(s, space) as int]) != space,
    decreases s.len(),
{
    if s.len() > 0 && is_space(s[0]) == space {
        lemma_run_ends(s.drop_first(), space);
    }
}

/// The blanks of the first `upto` gaps: the even share for each, and one
/// more for each of the last gaps that get one.
pub proof fn lemma_gaps_sum(gaps: nat, fill: nat, upto: nat)
    requires
        gaps > 0,
        upto <= gaps,
    ensures
        gaps_sum(gaps, fill, upto) == upto * (fill / gaps) + if upto + fill % gaps > gaps {
            upto + fill % gaps - gaps
        } else {
            0
        },
    decreases upto,
{
    let share = fill / gaps;
    if upto > 0 {
        lemma_gaps_sum(gaps, fill, (upto - 1) as nat);
        assert((upto - 1) * share + share == upto * share) by (nonlinear_arith);
    } else {
        assert(0 * share == 0) by (nonlinear_arith);
    }
}

/// All gaps together take exactly the blanks that there are to deal out.
pub proof fn lemma_gaps_take_the_fill(gaps: nat, fill: nat)
    requires
        gaps > 0,
    ensures
        gaps_sum(gaps, fill, gaps) == fill,
{
    lemma_gaps_sum(gaps, fill, gaps);
    vstd::arithmetic::div_mod::lemma_fundamental_div_mod(fill as int, gaps as int);
    assert(gaps * (fill / gaps) == (gaps as int) * (fill as int / gaps as int));
}

/// The length of words spread out: their letters and the blanks of their gaps.
pub proof fn lemma_spread_len(ws: Seq<Seq<char>>, fill: nat, upto: nat)
    requires
        ws.len() >= 2,
        upto <= ws.len(),
    ensures
        spread(ws, fill, upto).len() == total_len(ws.take(upto as int)) + gaps_sum(
            (ws.len() - 1) as nat,
            fill,
            if upto < ws.len() {
                upto
            } else {
                (ws.len() - 1) as nat
            },
        ),
    decreases upto,
{
    if upto == 0 {
        assert(ws.take(0) =~= Seq::<Seq<char>>::empty());
    } else {
        lemma_spread_len(ws, fill, (upto - 1) as nat);
        assert(ws.take(upto as int).drop_last() =~= ws.take(upto - 1));
        assert(ws.take(upto as int).last() == ws[upto - 1]);
    }
}

/// A justified line of two words or more has as many characters as the line
/// is long, or as the text has bytes where those are more.
pub proof fn lemma_justified_len(s: Seq<char>, line_length: nat)
    requires
        words(s).len() >= 2,
    ensures
        justified(s, line_length).len() == larger(line_length, utf8_len(s)),
{
    let ws = words(s);
    let fill = (larger(line_length, utf8_len(s)) - ink(s)) as nat;
    lemma_ink_bound(s);
    lemma_utf8_len_lower(s);
    lemma_spread_len(ws, fill, ws.len());
    assert(ws.take(ws.len() as int) =~= ws);
    lemma_words_hold_the_ink(s);
    lemma_gaps_take_the_fill((ws.len() - 1) as nat, fill);
}

/// The parts of `s` that `ranges` points out.
pub open spec fn slices(s: Seq<char>, ranges: Seq<(usize, usize)>) -> Seq<Seq<char>> {
    Seq::new(ranges.len(), |k: int| s.subrange(ranges[k].0 as int, ranges[k].1 as int))
}

/// Whether `c` is Unicode white space.
pub fn is_whitespace(c: char) -> (b: bool)
    ensures
        b == is_space(c),
{
    let v: u32 = c as u32;
    (0x09 <= v && v <= 0x0D) || v == 0x20 || v == 0x85 || v == 0xA0 || v == 0x1680 || (0x2000 <= v
        && v <= 0x200A) || v == 0x2028 || v == 0x2029 || v == 0x202F || v == 0x205F || v == 0x3000
}

/// The number of bytes that `c` takes in UTF-8.
pub fn width_of(c: char) -> (n: usize)
    ensures
        n == utf8_width(c),
{
    let v: u32 = c as u32;
    if v < 0x80 {
        1
    } else if v < 0x800 {
        2
    } else if v < 0x10000 {
        3
    } else {
        4
    }
}

/// The characters of `text`, in order.
pub fn chars_of(text: &str) -> (chars: Vec<char>)
    ensures
        chars@ == text@,
{
    let mut chars: Vec<char> = Vec::new();
    for c in iter: text.chars()
        invariant
            chars@ == iter.seq().take(iter.index()),
            iter.seq() == text@,
    {
        chars.push(c);
    }
    chars
}

/// `String::from_iter` over the characters of a vector: the string made of
/// exactly these characters, in order.
#[verifier::external_body]
pub(crate) fn string_of(chars: &Vec<char>) -> (text: String)
    ensures
        text@ == chars@,
{
    chars.iter().collect()
}

/// The index at which the run that starts at `from` ends.
fn run_end(chars: &Vec<char>, from: usize, space: bool) -> (to: usize)
    requires
        from <= chars.len(),
    ensures
        from <= to <= chars.len(),
        to - from == run_len(chars@.skip(from as int), space),
{
    let mut to: usize = from;
    while to < chars.len() && is_whitespace(chars[to]) == space
        invariant
            from <= to <= chars.len(),
            run_len(chars@.skip(from as int), space) == (to - from) + run_len(
                chars@.skip(to as int),
                space,
            ),
        decreases chars.len() - to,
    {
        proof {
            assert(chars@.skip(to as int).drop_first() =~= chars@.skip(to + 1));
        }
        to = to + 1;
    }
    to
}

/// The index at which the trailing white space of the part from `from` on
/// starts.
fn trailing_start(chars: &Vec<char>, from: usize) -> (end: usize)
    requires
        from <= chars.len(),
    ensures
        from <= end <= chars.len(),
        chars.len() - end == trailing_spaces(chars@.skip(from as int)),
{
    let mut end: usize = chars.len();
    while end > from && is_whitespace(chars[end - 1])
        invariant
            from <= end <= chars.len(),
            trailing_spaces(chars@.skip(from as int)) == (chars.len() - end) + trailing_spaces(
                chars@.subrange(from as int, end as int),
            ),
        decreases end,
    {
        proof {
            assert(chars@.subrange(from as int, end as int).drop_last() =~= chars@.subrange(
                from as int,
                end - 1,
            ));
        }
        end = end - 1;
    }
    proof {
        assert(chars@.skip(from as int) =~= chars@.subrange(from as int, chars.len() as int));
    }
    end
}

/// The number of UTF-8 bytes of the characters in `from..to`.
fn byte_len(chars: &Vec<char>, from: usize, to: usize) -> (n: usize)
    requires
        from <= to <= chars.len(),
        utf8_len(chars@) <= usize::MAX,
    ensures
        n == utf8_len(chars@.subrange(from as int, to as int)),
{
    let mut n: usize = 0;
    let mut i: usize = from;
    while i < to
        invariant
            from <= i <= to <= chars.len(),
            n == utf8_len(chars@.subrange(from as int, i as int)),
            utf8_len(chars@) <= usize::MAX,
        decreases to - i,
    {
        proof {
            let next = chars@.subrange(from as int, i + 1);
            lemma_utf8_len_split(next, i - from);
            assert(next.take(i - from) =~= chars@.subrange(from as int, i as int));
            assert(next.skip(i - from) =~= seq![chars@[i as int]]);
            assert(seq![chars@[i as int]].drop_first() =~= Seq::<char>::empty());
            assert(utf8_len(Seq::<char>::empty()) == 0);
            assert(utf8_len(seq![chars@[i as int]]) == utf8_width(chars@[i as int]));
            lemma_utf8_len_split(chars@, i + 1);
            lemma_utf8_len_split(chars@.take(i + 1), from as int);
            assert(chars@.take(i + 1).skip(from as int) =~= next);
        }
        n = n + width_of(chars[i]);
        i = i + 1;
    }
    n
}

/// The number of characters that are not white space.
fn count_ink(chars: &Vec<char>) -> (n: usize)
    ensures
        n == ink(chars@),
{
    let mut n: usize = 0;
    let mut i: usize = 0;
    while i < chars.len()
        invariant
            i <= chars.len(),
            n == ink(chars@.take(i as int)),
            n <= i,
        decreases chars.len() - i,
    {
        proof {
            assert(chars@.take(i + 1).drop_last() =~= chars@.take(i as int));
        }
        if !is_whitespace(chars[i]) {
            n = n + 1;
        }
        i = i + 1;
    }
    proof {
        assert(chars@.take(chars.len() as int) =~= chars@);
    }
    n
}

/// Where the words of `chars` start and end.
pub fn split_whitespace(chars: &Vec<char>) -> (ranges: Vec<(usize, usize)>)
    ensures
        slices(chars@, ranges@) == words(chars@),
        forall|k: int|
            0 <= k < ranges.len() ==> (#[trigger] ranges[k]).0 <= ranges[k].1 <= chars.len(),
{
    let mut ranges: Vec<(usize, usize)> = Vec::new();
    let mut i: usize = 0;
    proof {
        assert(chars@.skip(0) =~= chars@);
        assert(slices(chars@, ranges@) =~= Seq::<Seq<char>>::empty());
    }
    loop
        invariant
            i <= chars.len(),
            words(chars@) == slices(chars@, ranges@) + words(chars@.skip(i as int)),
            forall|k: int|
                0 <= k < ranges.len() ==> (#[trigger] ranges[k]).0 <= ranges[k].1 <= chars.len(),
        ensures
            slices(chars@, ranges@) == words(chars@),
        decreases chars.len() - i,
    {
        let start = run_end(chars, i, true);
        let end = run_end(chars, start, false);
        proof {
            let tail = chars@.skip(i as int);
            assert(trim_start(tail) =~= chars@.skip(start as int));
            assert(chars@.skip(start as int).take(end - start) =~= chars@.subrange(
                start as int,
                end as int,
            ));
            assert(chars@.skip(start as int).skip(end - start) =~= chars@.skip(end as int));
        }
        if end == start {
            proof {
                assert(words(chars@.skip(i as int)) =~= Seq::<Seq<char>>::empty());
                assert(slices(chars@, ranges@) + Seq::<Seq<char>>::empty() =~= slices(
                    chars@,
                    ranges@,
                ));
            }
            break ;
        }
        let ghost before = ranges@;
        ranges.push((start, end));
        proof {
            assert(slices(chars@, ranges@) =~= slices(chars@, before) + seq![
                chars@.subrange(start as int, end as int),
            ]);
            assert(words(chars@.skip(i as int)) == seq![
                chars@.subrange(start as int, end as int),
            ] + words(chars@.skip(end as int)));
            assert(words(chars@) =~= slices(chars@, ranges@) + words(chars@.skip(end as int)));
        }
        i = end;
    }
    ranges
}

/// Appends `n` blanks.
fn push_blanks(out: &mut Vec<char>, n: usize)
    ensures
        final(out)@ == old(out)@ + blanks(n as nat),
{
    let mut i: usize = 0;
    proof {
        assert(out@ + blanks(0) =~= out@);
    }
    while i < n
        invariant
            i <= n,
            out@ == old(out)@ + blanks(i as nat),
        decreases n - i,
    {
        out.push(' ');
        proof {
            assert(blanks((i + 1) as nat) =~= blanks(i as nat).push(' '));
            assert(out@ =~= old(out)@ + blanks((i + 1) as nat));
        }
        i = i + 1;
    }
}

/// Appends the characters in `from..to`.
fn push_range(out: &mut Vec<char>, chars: &Vec<char>, from: usize, to: usize)
    requires
        from <= to <= chars.len(),
    ensures
        final(out)@ == old(out)@ + chars@.subrange(from as int, to as int),
{
    let mut i: usize = from;
    proof {
        assert(out@ + chars@.subrange(from as int, from as int) =~= out@);
    }
    while i < to
        invariant
            from <= i <= to <= chars.len(),
            out@ == old(out)@ + chars@.subrange(from as int, i as int),
        decreases to - i,
    {
        out.push(chars[i]);
        proof {
            assert(out@ =~= old(out)@ + chars@.subrange(from as int, i + 1));
        }
        i = i + 1;
    }
}

/// Lays `text` out on a line of `line_length`.
///
/// * `Left`: leading white space goes, and blanks fill the end.
/// * `Right`: trailing white space goes, and blanks fill the front.
/// * `Center`: the text is trimmed and padded on both sides.
/// * `Justify`: the words are spread over the line; a text of fewer than two
///   words is returned unchanged.
pub fn text_align(text: &str, line_length: usize, align: TextAlign) -> (line: String)
    ensures
        line@ == aligned(text@, line_length as nat, align),
{
    let chars = chars_of(text);
    let n = chars.len();
    let total = text.as_bytes().len();
    proof {
        lemma_utf8_len_is_encoded_len(text@);
        lemma_utf8_len_lower(text@);
    }
    let widest = if total >= line_length {
        total
    } else {
        line_length
    };
    let mut out: Vec<char> = Vec::new();
    match align {
        TextAlign::Left => {
            let start = run_end(&chars, 0, true);
            let cut = byte_len(&chars, 0, start);
            proof {
                assert(chars@.skip(0) =~= chars@);
                lemma_utf8_len_split(chars@, start as int);
                assert(chars@.take(start as int) =~= chars@.subrange(0, start as int));
                assert(chars@.skip(start as int) =~= chars@.subrange(start as int, n as int));
            }
            push_range(&mut out, &chars, start, n);
            push_blanks(&mut out, widest - (total - cut));
        },
        TextAlign::Center => {
            let start = run_end(&chars, 0, true);
            let end = trailing_start(&chars, start);
            proof {
                assert(chars@.skip(0) =~= chars@);
                let t = chars@.skip(start as int);
                assert(t.take(t.len() - trailing_spaces(t)) =~= chars@.subrange(
                    start as int,
                    end as int,
                ));
            }
            let count = end - start;
            if count >= line_length {
                push_range(&mut out, &chars, start, end);
            } else {
                let pad = line_length - count;
                push_blanks(&mut out, pad / 2);
                push_range(&mut out, &chars, start, end);
                push_blanks(&mut out, pad - pad / 2);
            }
        },
        TextAlign::Right => {
            let end = trailing_start(&chars, 0);
            let cut = byte_len(&chars, end, n);
            proof {
                assert(chars@.skip(0) =~= chars@);
                lemma_utf8_len_split(chars@, end as int);
                assert(chars@.take(end as int) =~= chars@.subrange(0, end as int));
                assert(chars@.skip(end as int) =~= chars@.subrange(end as int, n as int));
            }
            push_blanks(&mut out, widest - (total - cut));
            push_range(&mut out, &chars, 0, end);
        },
        TextAlign::Justify => {
            let num_characters = count_ink(&chars);
            proof {
                lemma_ink_bound(chars@);
            }
            let missing_whitespaces = widest - num_characters;
            let ranges = split_whitespace(&chars);
            let words_cnt = ranges.len();
            if words_cnt < 2 {
                return string_of(&chars);
            }
            let num_gap = words_cnt - 1;
            let num_whites_in_gap = missing_whitespaces / num_gap;
            let remaining_whites = missing_whitespaces % num_gap;
            let mut i: usize = 0;
            while i < words_cnt
                invariant
                    i <= words_cnt == ranges.len(),
                    num_gap == words_cnt - 1,
                    num_gap >= 1,
                    num_whites_in_gap == missing_whitespaces / num_gap,
                    remaining_whites == missing_whitespaces % num_gap,
                    slices(chars@, ranges@) == words(chars@),
                    forall|k: int|
                        0 <= k < ranges.len() ==> (#[trigger] ranges[k]).0 <= ranges[k].1
                            <= chars.len(),
                    out@ == spread(words(chars@), missing_whitespaces as nat, i as nat),
                decreases words_cnt - i,
            {
                let ghost before = out@;
                let (from, to) = ranges[i];
                proof {
                    assert(slices(chars@, ranges@)[i as int] == chars@.subrange(
                        from as int,
                        to as int,
                    ));
                }
                push_range(&mut out, &chars, from, to);
                if i < num_gap {
                    push_blanks(&mut out, num_whites_in_gap);
                    if remaining_whites >= num_gap - i {
                        out.push(' ');
                        proof {
                            assert(blanks(num_whites_in_gap as nat).push(' ') =~= blanks(
                                (num_whites_in_gap + 1) as nat,
                            ));
                        }
                    }
                    proof {
                        assert(out@ =~= before + words(chars@)[i as int] + blanks(
                            gap_width(i as nat, num_gap as nat, missing_whitespaces as nat),
                        ));
                    }
                } else {
                    proof {
                        assert(out@ =~= before + words(chars@)[i as int] + Seq::<char>::empty());
                    }
                }
                i = i + 1;
            }
        },
    }
    string_of(&out)
}

} // verus!
