//! The decisions behind a few web clients: the byte ranges of a download in
//! parts, the pages of a paginated listing, the media type of a file name,
//! the links of a page, and the base of an address.

use crate::numerals::{decimal, push_decimal};
use crate::string_manip::{chars_of, string_of};
use crate::text::{
    captures_all, distinct, group_texts, lowercase, match_texts, regex_groups, texts, to_lowercase,
    unique,
};
use url::Url;
use vstd::prelude::*;

verus! {

/// Why a range iterator cannot be made.
#[derive(Debug, Clone, Copy, PartialEq, Eq, Structural)]
pub enum RangeError {
    /// The buffer size is zero.
    InvalidBufferSize,
}

impl RangeError {
    /// The message of the error.
    pub fn message(&self) -> (text: &'static str)
        ensures
            text@ == "invalid buffer_size, give a value greater than zero."@,
    {
        "invalid buffer_size, give a value greater than zero."
    }
}

/// The bytes from `first` to `last`, both included.
#[derive(Debug, Clone, Copy, PartialEq, Eq, Structural)]
pub struct ByteRange {
    pub first: u64,
    pub last: u64,
}

/// The value of a `Range` header that asks for the bytes `first` to `last`.
pub open spec fn range_header(first: u64, last: u64) -> Seq<char> {
    "bytes="@ + decimal(first as nat) + "-"@ + decimal(last as nat)
}

impl ByteRange {
    /// The value of the `Range` header that asks for this range.
    pub fn header_value(&self) -> (text: String)
        ensures
            text@ == range_header(self.first, self.last),
    {
        let mut chars = chars_of("bytes=");
        push_decimal(&mut chars, self.first);
        chars.push('-');
        push_decimal(&mut chars, self.last);
        proof {
            reveal_strlit("-");
            assert("-"@ =~= seq!['-']);
            assert(chars@ =~= range_header(self.first, self.last));
        }
        string_of(&chars)
    }
}

/// The ranges of at most `buffer_size` bytes that make up the bytes from
/// `start` to `end`, one after the other.
#[derive(Debug)]
pub struct PartialRangeIter {
    start: u64,
    end: u64,
    buffer_size: u32,
    /// Whether the range that ends at `end` has been handed out.
    done: bool,
}

impl PartialRangeIter {
    /// The first byte that is still to come, as long as any is.
    pub closed spec fn start(self) -> u64 {
        self.start
    }

    /// The last byte of all.
    pub closed spec fn end(self) -> u64 {
        self.end
    }

    /// The largest number of bytes in one range.
    pub closed spec fn buffer_size(self) -> u32 {
        self.buffer_size
    }

    /// Whether the range that ends at `end` has been handed out.
    pub closed spec fn exhausted(self) -> bool {
        self.done
    }

    /// A buffer holds at least one byte.
    #[verifier::type_invariant]
    pub closed spec fn well_formed(self) -> bool {
        self.buffer_size > 0
    }

    /// The range that comes next; `None` where all bytes are covered.
    pub open spec fn upcoming(self) -> Option<ByteRange> {
        if self.exhausted() || self.start() > self.end() {
            None
        } else if self.end() - self.start() < self.buffer_size() {
            Some(ByteRange { first: self.start(), last: self.end() })
        } else {
            Some(
                ByteRange {
                    first: self.start(),
                    last: (self.start() + self.buffer_size() - 1) as u64,
                },
            )
        }
    }

    /// How many ranges are still to come.
    pub open spec fn remaining(self) -> nat {
        if self.exhausted() || self.start() > self.end() {
            0
        } else {
            ((self.end() - self.start()) / (self.buffer_size() as int) + 1) as nat
        }
    }

    /// The ranges of at most `buffer_size` bytes from `start` to `end`; none
    /// where `start` lies behind `end`. A buffer of no bytes is refused.
    pub fn new(start: u64, end: u64, buffer_size: u32) -> (made: Result<Self, RangeError>)
        ensures
            made is Err <==> buffer_size == 0,
            made is Err ==> made->Err_0 == RangeError::InvalidBufferSize,
            made is Ok ==> made->Ok_0.start() == start && made->Ok_0.end() == end
                && made->Ok_0.buffer_size() == buffer_size && !made->Ok_0.exhausted(),
    {
        if buffer_size == 0 {
            return Err(RangeError::InvalidBufferSize);
        }
        Ok(PartialRangeIter { start, end, buffer_size, done: false })
    }

    /// The next range, which starts where the one before ended; `None` once
    /// `end` is covered.
    pub fn next(&mut self) -> (range: Option<ByteRange>)
        ensures
            range == old(self).upcoming(),
            final(self).end() == old(self).end(),
            final(self).buffer_size() == old(self).buffer_size(),
            range is None ==> final(self).start() == old(self).start() && final(self).exhausted()
                == old(self).exhausted(),
            range is Some && range->0.last < old(self).end() ==> final(self).start()
                == range->0.last + 1 && !final(self).exhausted(),
            range is Some && range->0.last == old(self).end() ==> final(self).exhausted(),
            range is Some ==> final(self).remaining() + 1 == old(self).remaining(),
    {
        proof {
            use_type_invariant(&*self);
        }
        if self.done || self.start > self.end {
            None
        } else {
            let prev_start = self.start;
            let left = self.end - self.start;
            if left < self.buffer_size as u64 {
                proof {
                    let b = self.buffer_size as int;
                    assert(left as int / b == 0) by (nonlinear_arith)
                        requires
                            0 <= left < b,
                    ;
                }
                self.done = true;
                Some(ByteRange { first: prev_start, last: self.end })
            } else {
                proof {
                    let b = self.buffer_size as int;
                    assert((left - b) / b + 1 == left as int / b) by (nonlinear_arith)
                        requires
                            b > 0,
                            left >= b,
                    ;
                }
                self.start = self.start + self.buffer_size as u64;
                Some(ByteRange { first: prev_start, last: self.start - 1 })
            }
        }
    }
}

/// The range that comes next starts at the first byte still to come, ends
/// no later than the last byte of all, and holds at most a buffer's bytes;
/// it ends at the last byte exactly where no more than a buffer is left.
pub proof fn lemma_upcoming_range(ranges: PartialRangeIter)
    requires
        ranges.buffer_size() > 0,
        ranges.upcoming() is Some,
    ensures
        ranges.upcoming()->0.first == ranges.start(),
        ranges.start() <= ranges.upcoming()->0.last <= ranges.end(),
        ranges.upcoming()->0.last - ranges.start() < ranges.buffer_size(),
        ranges.upcoming()->0.last == ranges.end() <==> ranges.end() - ranges.start()
            < ranges.buffer_size(),
        ranges.remaining() >= 1,
{
    let b = ranges.buffer_size() as int;
    let left = ranges.end() - ranges.start();
    assert(left / b >= 0) by (nonlinear_arith)
        requires
            left >= 0,
            b > 0,
    ;
}

/// A kind of content, as far as file names tell it.
#[derive(Debug, Clone, Copy, PartialEq, Eq, Structural)]
pub enum MediaType {
    ImagePng,
    ImageJpeg,
    ApplicationJson,
    TextPlain,
}

impl MediaType {
    /// Type and subtype, joined by a slash.
    pub fn essence(&self) -> (text: &'static str)
        ensures
            text@ == match *self {
                MediaType::ImagePng => "image/png"@,
                MediaType::ImageJpeg => "image/jpeg"@,
                MediaType::ApplicationJson => "application/json"@,
                MediaType::TextPlain => "text/plain"@,
            },
    {
        match self {
            MediaType::ImagePng => "image/png",
            MediaType::ImageJpeg => "image/jpeg",
            MediaType::ApplicationJson => "application/json",
            MediaType::TextPlain => "text/plain",
        }
    }
}

/// The length of what follows the last `sep` in `s`; the length of `s` where
/// it holds none.
pub open spec fn last_part_len(s: Seq<char>, sep: char) -> nat
    decreases s.len(),
{
    if s.len() == 0 || s.last() == sep {
        0
    } else {
        1 + last_part_len(s.drop_last(), sep)
    }
}

/// What follows the last full stop of `name`; all of `name` where it has none.
pub open spec fn extension(name: Seq<char>) -> Seq<char> {
    name.skip(name.len() - last_part_len(name, '.'))
}

/// The media type that goes with a file name.
pub open spec fn media_type_of(name: Seq<char>) -> MediaType {
    let ext = extension(name);
    if ext == seq!['p', 'n', 'g'] {
        MediaType::ImagePng
    } else if ext == seq!['j', 'p', 'g'] {
        MediaType::ImageJpeg
    } else if ext == seq!['j', 's', 'o', 'n'] {
        MediaType::ApplicationJson
    } else {
        MediaType::TextPlain
    }
}

/// The media type that goes with `filename`: by what follows its last full
/// stop, `png`, `jpg` or `json`, and plain text for everything else.
pub fn find_mimetype(filename: &str) -> (media: MediaType)
    ensures
        media == media_type_of(filename@),
{
    let chars = chars_of(filename);
    let n = chars.len();
    let mut from: usize = n;
    proof {
        assert(chars@.take(n as int) =~= chars@);
    }
    while from > 0 && chars[from - 1] != '.'
        invariant
            from <= n == chars.len(),
            last_part_len(chars@, '.') == (n - from) + last_part_len(chars@.take(from as int), '.'),
        decreases from,
    {
        proof {
            assert(chars@.take(from as int).drop_last() =~= chars@.take(from - 1));
        }
        from = from - 1;
    }
    let ghost ext = extension(chars@);
    proof {
        assert(ext =~= chars@.skip(from as int));
    }
    let len = n - from;
    if len == 3 && chars[from] == 'p' && chars[from + 1] == 'n' && chars[from + 2] == 'g' {
        proof {
            assert(ext =~= seq!['p', 'n', 'g']);
        }
        MediaType::ImagePng
    } else if len == 3 && chars[from] == 'j' && chars[from + 1] == 'p' && chars[from + 2] == 'g' {
        proof {
            assert(ext =~= seq!['j', 'p', 'g']);
            assert(ext[0] != 'p');
        }
        MediaType::ImageJpeg
    } else if len == 4 && chars[from] == 'j' && chars[from + 1] == 's' && chars[from + 2] == 'o'
        && chars[from + 3] == 'n' {
        proof {
            assert(ext =~= seq!['j', 's', 'o', 'n']);
        }
        MediaType::ApplicationJson
    } else {
        proof {
            if ext == seq!['p', 'n', 'g'] {
                assert(ext[0] == 'p' && ext[1] == 'n' && ext[2] == 'g');
            }
            if ext == seq!['j', 'p', 'g'] {
                assert(ext[0] == 'j' && ext[1] == 'p' && ext[2] == 'g');
            }
            if ext == seq!['j', 's', 'o', 'n'] {
                assert(ext[0] == 'j' && ext[1] == 's' && ext[2] == 'o' && ext[3] == 'n');
            }
        }
        MediaType::TextPlain
    }
}

/// A crate that depends on another.
#[derive(Debug)]
pub struct Dependency {
    pub crate_id: String,
}

/// One page of a listing of reverse dependencies, and how many there are in
/// all.
#[derive(Debug)]
pub struct ApiResponse {
    pub dependencies: Vec<Dependency>,
    pub total: u32,
}

/// What the caller of `try_next` is to do.
#[derive(Debug)]
pub enum Step {
    /// Here is the next dependency.
    Item(Dependency),
    /// There are no more dependencies.
    Finished,
    /// Get the page at this address and hand it to `receive`.
    Request(String),
}

/// The address of page `page` of the reverse dependencies of `crate_id`.
pub open spec fn page_url(crate_id: Seq<char>, page: u32, per_page: u32) -> Seq<char> {
    "https://crates.io/api/v1/crates/"@ + crate_id + "/reverse_dependencies?page="@ + decimal(
        page as nat,
    ) + "&per_page="@ + decimal(per_page as nat)
}

/// The reverse dependencies of a crate, read page by page.
///
/// The pager decides and the caller fetches: `try_next` hands out what is
/// buffered, says when the listing is exhausted, and otherwise names the page
/// to get; `receive` takes that page in.
#[derive(Debug)]
pub struct ReverseDependencies {
    crate_id: String,
    /// What is buffered, the next one last.
    dependencies: Vec<Dependency>,
    page: u32,
    total: u32,
}

/// How many dependencies a page holds.
pub const PER_PAGE: u32 = 100;

impl ReverseDependencies {
    /// The crate whose reverse dependencies are listed.
    pub closed spec fn crate_id(self) -> Seq<char> {
        self.crate_id@
    }

    /// The buffered dependencies, the next one first.
    pub closed spec fn pending(self) -> Seq<Dependency> {
        self.dependencies@.reverse()
    }

    /// The number of the last page asked for; 0 before the first.
    pub closed spec fn page(self) -> u32 {
        self.page
    }

    /// How many dependencies there are in all, as far as known.
    pub closed spec fn total(self) -> u32 {
        self.total
    }

    /// Whether the pages asked for so far cover the whole listing.
    pub open spec fn exhausted(self) -> bool {
        self.page() > 0 && self.page() * PER_PAGE >= self.total()
    }

    /// A pager for `crate_id` before its first page, with pages of 100.
    pub fn of(crate_id: &str) -> (pager: Self)
        ensures
            pager.crate_id() == crate_id@,
            pager.pending().len() == 0,
            pager.page() == 0,
            pager.total() == 0,
    {
        let pager = ReverseDependencies {
            crate_id: crate_id.to_owned(),
            dependencies: Vec::new(),
            page: 0,
            total: 0,
        };
        proof {
            assert(pager.dependencies@.reverse() =~= Seq::<Dependency>::empty());
        }
        pager
    }

    /// The next step: a buffered dependency where there is one, the end
    /// where the pages so far cover the listing, and else the request for
    /// the page that follows.
    pub fn try_next(&mut self) -> (step: Step)
        ensures
            final(self).crate_id() == old(self).crate_id(),
            final(self).total() == old(self).total(),
            old(self).pending().len() > 0 ==> {
                &&& step == Step::Item(old(self).pending()[0])
                &&& final(self).pending() == old(self).pending().drop_first()
                &&& final(self).page() == old(self).page()
            },
            old(self).pending().len() == 0 && old(self).exhausted() ==> {
                &&& step is Finished
                &&& final(self).pending() == old(self).pending()
                &&& final(self).page() == old(self).page()
            },
            old(self).pending().len() == 0 && !old(self).exhausted() ==> {
                &&& step is Request
                &&& step->Request_0@ == page_url(
                    old(self).crate_id(),
                    (old(self).page() + 1) as u32,
                    PER_PAGE,
                )
                &&& final(self).pending() == old(self).pending()
                &&& final(self).page() == old(self).page() + 1
            },
    {
        let ghost before = self.dependencies@;
        if let Some(dep) = self.dependencies.pop() {
            proof {
                assert(before.reverse()[0] == dep);
                assert(self.dependencies@.reverse() =~= before.reverse().drop_first());
            }
            return Step::Item(dep);
        }
        proof {
            assert(before.reverse().len() == 0);
        }
        let covered: u64 = self.page as u64 * PER_PAGE as u64;
        if self.page > 0 && covered >= self.total as u64 {
            return Step::Finished;
        }
        self.page += 1;
        let mut url = chars_of("https://crates.io/api/v1/crates/");
        let mut id = chars_of(self.crate_id.as_str());
        url.append(&mut id);
        let mut middle = chars_of("/reverse_dependencies?page=");
        url.append(&mut middle);
        push_decimal(&mut url, self.page as u64);
        let mut tail = chars_of("&per_page=");
        url.append(&mut tail);
        push_decimal(&mut url, PER_PAGE as u64);
        proof {
            assert(url@ =~= page_url(self.crate_id@, self.page, PER_PAGE));
        }
        Step::Request(string_of(&url))
    }

    /// Takes in the page that was asked for: its dependencies are buffered,
    /// all but the first, which is handed out at once (`None` for an empty
    /// page), and its total replaces the one known before.
    pub fn receive(&mut self, response: ApiResponse) -> (first: Option<Dependency>)
        ensures
            final(self).crate_id() == old(self).crate_id(),
            final(self).page() == old(self).page(),
            final(self).total() == response.total,
            response.dependencies@.len() == 0 ==> first is None && final(self).pending().len()
                == 0,
            response.dependencies@.len() > 0 ==> first == Some(response.dependencies@[0])
                && final(self).pending() == response.dependencies@.drop_first(),
    {
        let ApiResponse { dependencies, total } = response;
        let ghost listed = dependencies@;
        let mut incoming = dependencies;
        let mut reversed: Vec<Dependency> = Vec::new();
        loop
            invariant
                incoming@.len() <= listed.len(),
                incoming@ == listed.take(incoming@.len() as int),
                reversed@ == listed.skip(incoming@.len() as int).reverse(),
            ensures
                incoming@.len() == 0,
                reversed@ == listed.reverse(),
            decreases incoming@.len(),
        {
            let ghost before = reversed@;
            let ghost k = incoming@.len() as int;
            match incoming.pop() {
                Some(dep) => {
                    reversed.push(dep);
                    proof {
                        assert(dep == listed[k - 1]);
                        assert(incoming@ =~= listed.take(k - 1));
                        assert(reversed@ =~= listed.skip(k - 1).reverse());
                    }
                },
                None => {
                    proof {
                        assert(listed.skip(0) =~= listed);
                    }
                    break ;
                },
            }
        }
        self.total = total;
        let first = reversed.pop();
        self.dependencies = reversed;
        proof {
            if listed.len() > 0 {
                assert(first == Some(listed[0]));
                assert(self.dependencies@.reverse() =~= listed.drop_first());
            } else {
                assert(self.dependencies@.reverse() =~= Seq::<Dependency>::empty());
            }
        }
        first
    }
}

/// The pattern of a link in the source of a wiki page: an internal link in
/// double square brackets as group 1, or an external one after `url=`,
/// `URL|` or `[` as group 3.
pub open spec fn wiki_pattern() -> Seq<char> {
    r"(?x)
                \[\[(?P<internal>[^\[\]|]*)[^\[\]]*\]\]    # internal links
                |
                (url=|URL\||\[)(?P<external>http.*?)[ \|}] # external links
            "@
}

/// The link in the groups of one match: an internal link in lower case, an
/// external link as it stands, and nothing where the match has both or
/// neither.
pub open spec fn link_of(groups: Seq<Option<Seq<char>>>) -> Option<Seq<char>> {
    if groups.len() < 4 {
        None
    } else {
        match (groups[1], groups[3]) {
            (Some(internal), None) => Some(lowercase(internal)),
            (None, Some(external)) => Some(external),
            _ => None,
        }
    }
}

/// The links in the matches `found`, in order.
pub open spec fn links_of(found: Seq<Seq<Option<Seq<char>>>>) -> Seq<Seq<char>>
    decreases found.len(),
{
    if found.len() == 0 {
        seq![]
    } else {
        match link_of(found.last()) {
            Some(link) => links_of(found.drop_last()).push(link),
            None => links_of(found.drop_last()),
        }
    }
}

/// The link in the groups of one match.
pub fn link_from_groups(groups: &Vec<Option<String>>) -> (link: Option<String>)
    ensures
        match link {
            Some(text) => link_of(group_texts(groups@)) == Some(text@),
            None => link_of(group_texts(groups@)) is None,
        },
{
    if groups.len() < 4 {
        return None;
    }
    proof {
        let g = group_texts(groups@);
        assert(g[1] is Some <==> groups@[1] is Some);
        assert(g[3] is Some <==> groups@[3] is Some);
    }
    match (&groups[1], &groups[3]) {
        (Some(val), None) => Some(to_lowercase(val.as_str())),
        (None, Some(val)) => Some(val.clone()),
        _ => None,
    }
}

/// The links of a wiki page, each once, in the order in which they first
/// occur.
pub fn extract_links(content: &str) -> (links: Vec<String>)
    ensures
        match regex_groups(wiki_pattern(), content@) {
            Some(found) => texts(links@) == distinct(links_of(found)),
            None => links@.len() == 0,
        },
{
    let pattern = r"(?x)
                \[\[(?P<internal>[^\[\]|]*)[^\[\]]*\]\]    # internal links
                |
                (url=|URL\||\[)(?P<external>http.*?)[ \|}] # external links
            ";
    let found = match captures_all(pattern, content) {
        Some(found) => found,
        None => {
            return Vec::new();
        },
    };
    let mut all: Vec<String> = Vec::new();
    let mut i: usize = 0;
    proof {
        assert(match_texts(found@).take(0) =~= Seq::<Seq<Option<Seq<char>>>>::empty());
        assert(texts(all@) =~= Seq::<Seq<char>>::empty());
    }
    while i < found.len()
        invariant
            i <= found.len(),
            texts(all@) == links_of(match_texts(found@).take(i as int)),
        decreases found.len() - i,
    {
        let ghost before = all@;
        proof {
            let upto = match_texts(found@).take(i + 1);
            assert(upto.drop_last() =~= match_texts(found@).take(i as int));
            assert(upto.last() == group_texts(found@[i as int]@));
        }
        match link_from_groups(&found[i]) {
            Some(link) => {
                let ghost text = link@;
                all.push(link);
                proof {
                    assert(texts(all@) =~= texts(before).push(text));
                }
            },
            None => {},
        }
        i = i + 1;
    }
    proof {
        assert(match_texts(found@).take(found.len() as int) =~= match_texts(found@));
    }
    unique(&all)
}

/// The name under which a download is kept: the last segment of the path
/// of its address, and `tmp.bin` where there is none or it is empty.
pub fn download_name<'a>(last_segment: Option<&'a str>) -> (name: &'a str)
    ensures
        name@ == match last_segment {
            Some(segment) => if segment@.len() == 0 {
                "tmp.bin"@
            } else {
                segment@
            },
            None => "tmp.bin"@,
        },
{
    match last_segment {
        Some(segment) => if segment.is_empty() {
            "tmp.bin"
        } else {
            segment
        },
        None => "tmp.bin",
    }
}

/// Why an address could not be made.
#[derive(Debug, Clone, Copy, PartialEq, Eq, Structural)]
pub enum UrlError {
    /// The text is no address.
    Parse,
    /// The address has no path that could be emptied, as `mailto:` has none.
    CannotBeABase,
}

/// `url::Url`, a parsed address.
#[verifier::external_type_specification]
#[verifier::external_body]
pub struct ExUrl(Url);

/// `url::ParseError`, the reason why a text is no address.
#[verifier::external_type_specification]
#[verifier::external_body]
pub struct ExUrlParseError(url::ParseError);

/// The address that `text` spells, `None` where it spells none.
pub uninterp spec fn url_parsed(text: Seq<char>) -> Option<Url>;

/// `url` as text.
pub uninterp spec fn url_text(url: Url) -> Seq<char>;

/// `url` with an empty path, `None` where it cannot be a base.
pub uninterp spec fn without_path(url: Url) -> Option<Url>;

/// `url` without its query.
pub uninterp spec fn without_query(url: Url) -> Url;

/// The address that `reference` spells when read against `base`, `None`
/// where it spells none.
pub uninterp spec fn url_joined(base: Url, reference: Seq<char>) -> Option<Url>;

/// `Url::parse`: the address named `url_parsed`, and an error where the
/// text spells none.
#[verifier::external_body]
fn parse_url(text: &str) -> (parsed: Result<Url, url::ParseError>)
    ensures
        match parsed {
            Ok(url) => url_parsed(text@) == Some(url),
            Err(_) => url_parsed(text@) is None,
        },
{
    Url::parse(text)
}

/// `Url::path_segments_mut` and `PathSegmentsMut::clear`: the path is
/// emptied and the answer is `true`, or the address cannot be a base, stays
/// as it is, and the answer is `false`.
#[verifier::external_body]
fn clear_path(url: &mut Url) -> (cleared: bool)
    ensures
        cleared ==> without_path(*old(url)) == Some(*final(url)),
        !cleared ==> without_path(*old(url)) is None && *final(url) == *old(url),
{
    match url.path_segments_mut() {
        Ok(mut path) => {
            path.clear();
            true
        },
        Err(_) => false,
    }
}

/// `Url::set_query` with `None`: the address named `without_query`.
#[verifier::external_body]
fn remove_query(url: &mut Url)
    ensures
        *final(url) == without_query(*old(url)),
{
    url.set_query(None)
}

/// `Url::join`: the address named `url_joined`, and an error where the
/// reference spells none against this base.
#[verifier::external_body]
fn join_url(base: &Url, reference: &str) -> (joined: Result<Url, url::ParseError>)
    ensures
        match joined {
            Ok(url) => url_joined(*base, reference@) == Some(url),
            Err(_) => url_joined(*base, reference@) is None,
        },
{
    base.join(reference)
}

/// `Url::as_str`: the text named `url_text`.
#[verifier::external_body]
fn url_as_str(url: &Url) -> (text: String)
    ensures
        text@ == url_text(*url),
{
    url.as_str().to_owned()
}

/// The address that `text` spells.
pub fn parse_address(text: &str) -> (parsed: Result<Url, UrlError>)
    ensures
        match parsed {
            Ok(url) => url_parsed(text@) == Some(url),
            Err(e) => e == UrlError::Parse && url_parsed(text@) is None,
        },
{
    match parse_url(text) {
        Ok(url) => Ok(url),
        Err(_) => Err(UrlError::Parse),
    }
}

/// `url` as text.
pub fn address_text(url: &Url) -> (text: String)
    ensures
        text@ == url_text(*url),
{
    url_as_str(url)
}

/// The base of `url`: the address with neither path nor query. An address
/// that cannot be a base has none.
pub fn base_url(url: Url) -> (base: Result<Url, UrlError>)
    ensures
        match base {
            Ok(found) => without_path(url) is Some && found == without_query(
                without_path(url)->0,
            ),
            Err(e) => e == UrlError::CannotBeABase && without_path(url) is None,
        },
{
    let mut url = url;
    if !clear_path(&mut url) {
        return Err(UrlError::CannotBeABase);
    }
    remove_query(&mut url);
    Ok(url)
}

/// Where the repositories are.
pub open spec fn github() -> Seq<char> {
    "https://github.com"@
}

/// The address of `path` at the place where the repositories are.
pub fn build_github_url(path: &str) -> (built: Result<Url, UrlError>)
    ensures
        match built {
            Ok(url) => url_parsed(github()) is Some && url_joined(url_parsed(github())->0, path@)
                == Some(url),
            Err(e) => e == UrlError::Parse && (url_parsed(github()) is None || url_joined(
                url_parsed(github())->0,
                path@,
            ) is None),
        },
{
    let base = match parse_url("https://github.com") {
        Ok(base) => base,
        Err(_) => {
            return Err(UrlError::Parse);
        },
    };
    match join_url(&base, path) {
        Ok(joined) => Ok(joined),
        Err(_) => Err(UrlError::Parse),
    }
}

} // verus!
