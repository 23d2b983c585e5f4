use cookbook::web_programming::{
    address_text, base_url, build_github_url, download_name, extract_links, find_mimetype,
    link_from_groups, parse_address, UrlError, ApiResponse, ByteRange, Dependency, MediaType, PartialRangeIter, RangeError,
    ReverseDependencies, Step,
};

fn all_ranges(start: u64, end: u64, buffer_size: u32) -> Vec<String> {
    let mut iter = PartialRangeIter::new(start, end, buffer_size).unwrap();
    let mut out = Vec::new();
    while let Some(range) = iter.next() {
        out.push(range.header_value());
    }
    assert_eq!(iter.next(), None);
    out
}

#[test]
fn ranges_cover_the_download_in_chunks() {
    assert_eq!(
        all_ranges(0, 29, 10),
        vec!["bytes=0-9", "bytes=10-19", "bytes=20-29"]
    );
    assert_eq!(
        all_ranges(0, 30, 10),
        vec!["bytes=0-9", "bytes=10-19", "bytes=20-29", "bytes=30-30"]
    );
    assert_eq!(all_ranges(5, 5, 10240), vec!["bytes=5-5"]);
    assert_eq!(all_ranges(6, 5, 1), Vec::<String>::new());
    assert_eq!(all_ranges(0, 102399, 10240).len(), 10);
    assert_eq!(
        all_ranges(u64::MAX - 3, u64::MAX - 1, 2),
        vec![
            "bytes=18446744073709551612-18446744073709551613",
            "bytes=18446744073709551614-18446744073709551614"
        ]
    );
}

#[test]
fn a_buffer_of_no_bytes_is_refused() {
    let refused = PartialRangeIter::new(0, 10, 0);
    assert!(matches!(refused, Err(RangeError::InvalidBufferSize)));
    assert_eq!(
        RangeError::InvalidBufferSize.message(),
        "invalid buffer_size, give a value greater than zero."
    );
}

#[test]
fn range_header_text() {
    assert_eq!(ByteRange { first: 0, last: 10239 }.header_value(), "bytes=0-10239");
}

#[test]
fn media_types_by_extension() {
    assert_eq!(find_mimetype("foobar.jpg"), MediaType::ImageJpeg);
    assert_eq!(find_mimetype("foo.bar"), MediaType::TextPlain);
    assert_eq!(find_mimetype("foobar.png"), MediaType::ImagePng);
    assert_eq!(find_mimetype("a.b.json"), MediaType::ApplicationJson);
    assert_eq!(find_mimetype("png"), MediaType::ImagePng);
    assert_eq!(find_mimetype("archive.png.gz"), MediaType::TextPlain);
    assert_eq!(find_mimetype("photo.PNG"), MediaType::TextPlain);
    assert_eq!(find_mimetype("trailing."), MediaType::TextPlain);
    assert_eq!(find_mimetype(""), MediaType::TextPlain);
    assert_eq!(find_mimetype(".jpg"), MediaType::ImageJpeg);
    assert_eq!(find_mimetype("xjpg"), MediaType::TextPlain);
}

#[test]
fn media_type_names() {
    assert_eq!(MediaType::ImagePng.essence(), mime::IMAGE_PNG.essence_str());
    assert_eq!(MediaType::ImageJpeg.essence(), mime::IMAGE_JPEG.essence_str());
    assert_eq!(MediaType::ApplicationJson.essence(), mime::APPLICATION_JSON.essence_str());
    assert_eq!(MediaType::TextPlain.essence(), mime::TEXT_PLAIN.essence_str());
}

fn page(names: &[&str], total: u32) -> ApiResponse {
    ApiResponse {
        dependencies: names
            .iter()
            .map(|n| Dependency { crate_id: n.to_string() })
            .collect(),
        total,
    }
}

fn expect_request(step: Step) -> String {
    match step {
        Step::Request(url) => url,
        other => panic!("expected a request, got {:?}", other),
    }
}

fn expect_item(step: Step) -> String {
    match step {
        Step::Item(dep) => dep.crate_id,
        other => panic!("expected an item, got {:?}", other),
    }
}

#[test]
fn pager_walks_through_the_pages() {
    let mut pager = ReverseDependencies::of("serde");
    assert_eq!(
        expect_request(pager.try_next()),
        "https://crates.io/api/v1/crates/serde/reverse_dependencies?page=1&per_page=100"
    );
    let first = pager.receive(page(&["a", "b", "c"], 150));
    assert_eq!(first.unwrap().crate_id, "a");
    assert_eq!(expect_item(pager.try_next()), "b");
    assert_eq!(expect_item(pager.try_next()), "c");
    assert_eq!(
        expect_request(pager.try_next()),
        "https://crates.io/api/v1/crates/serde/reverse_dependencies?page=2&per_page=100"
    );
    let first = pager.receive(page(&["d"], 150));
    assert_eq!(first.unwrap().crate_id, "d");
    assert!(matches!(pager.try_next(), Step::Finished));
    assert!(matches!(pager.try_next(), Step::Finished));
}

#[test]
fn pager_ends_after_an_empty_listing() {
    let mut pager = ReverseDependencies::of("nothing-depends-on-me");
    assert!(matches!(pager.try_next(), Step::Request(_)));
    assert!(pager.receive(page(&[], 0)).is_none());
    assert!(matches!(pager.try_next(), Step::Finished));
}

#[test]
fn pager_asks_again_while_the_total_is_not_covered() {
    let mut pager = ReverseDependencies::of("x");
    assert!(matches!(pager.try_next(), Step::Request(_)));
    assert!(pager.receive(page(&[], 101)).is_none());
    assert_eq!(
        expect_request(pager.try_next()),
        "https://crates.io/api/v1/crates/x/reverse_dependencies?page=2&per_page=100"
    );
    assert!(pager.receive(page(&[], 200)).is_none());
    assert!(matches!(pager.try_next(), Step::Finished));
}

#[test]
fn links_of_a_wiki_page() {
    let content = "See [[Rust (Programming Language)|Rust]] and [[Mozilla]] or [[mozilla]], \
        {{cite web |url=https://www.rust-lang.org/ |title=Rust}} \
        [https://Example.org/Path site] [[Rust (programming language)]]";
    assert_eq!(
        extract_links(content),
        vec!["rust (programming language)", "mozilla", "https://www.rust-lang.org/ "]
    );
    // In a pattern written over several lines a blank in a class does not
    // count, so an external link runs up to the next bar or brace.
    assert_eq!(
        extract_links("[https://a.example/x y|z] [http://b.example}"),
        vec!["https://a.example/x y", "http://b.example"]
    );
    assert!(extract_links("plain text").is_empty());
}

#[test]
fn link_from_the_groups_of_a_match() {
    let s = |t: &str| Some(t.to_string());
    assert_eq!(
        link_from_groups(&vec![s("[[Ab]]"), s("Ab"), None, None]),
        Some("ab".to_string())
    );
    assert_eq!(
        link_from_groups(&vec![s("url=http://A "), None, s("url="), s("http://A")]),
        Some("http://A".to_string())
    );
    assert_eq!(link_from_groups(&vec![s("x"), s("a"), None, s("b")]), None);
    assert_eq!(link_from_groups(&vec![s("x"), None, None, None]), None);
    assert_eq!(link_from_groups(&vec![s("x"), s("a")]), None);
    assert_eq!(
        link_from_groups(&vec![s("x"), s("\u{c9}COLE \u{130}"), None, None]),
        Some("\u{c9}COLE \u{130}".to_lowercase())
    );
}

#[test]
fn name_of_a_download() {
    assert_eq!(download_name(Some("rust-logo-512x512.png")), "rust-logo-512x512.png");
    assert_eq!(download_name(Some("")), "tmp.bin");
    assert_eq!(download_name(None), "tmp.bin");
}

#[test]
fn base_of_an_address() {
    let url = parse_address("https://github.com/rust-lang/cargo?asdf").unwrap();
    let base = base_url(url).unwrap();
    assert_eq!(address_text(&base), "https://github.com/");
    assert_eq!(base.as_str(), "https://github.com/");

    let kept = base_url(parse_address("https://a.example:8080/b/c?q=1#frag").unwrap()).unwrap();
    assert_eq!(address_text(&kept), "https://a.example:8080/#frag");

    let mail = parse_address("mailto:someone@example.org").unwrap();
    assert_eq!(base_url(mail), Err(UrlError::CannotBeABase));
    assert_eq!(parse_address("no address"), Err(UrlError::Parse));
    assert_eq!(parse_address(""), Err(UrlError::Parse));
}

#[test]
fn address_of_a_repository() {
    let gh = build_github_url("/rust-lang/cargo").unwrap();
    assert_eq!(gh.as_str(), "https://github.com/rust-lang/cargo");
    assert_eq!(
        address_text(&build_github_url("rust-lang/rust/issues?labels=E-easy").unwrap()),
        "https://github.com/rust-lang/rust/issues?labels=E-easy"
    );
    assert_eq!(
        address_text(&build_github_url("https://example.org/x").unwrap()),
        "https://example.org/x"
    );
    assert_eq!(build_github_url("https://[::1"), Err(UrlError::Parse));
}

#[test]
fn ranges_up_to_the_last_byte_that_can_be_counted() {
    assert_eq!(
        all_ranges(u64::MAX - 2, u64::MAX, 2),
        vec![
            "bytes=18446744073709551613-18446744073709551614",
            "bytes=18446744073709551615-18446744073709551615"
        ]
    );
    assert_eq!(
        all_ranges(u64::MAX, u64::MAX, 7),
        vec!["bytes=18446744073709551615-18446744073709551615"]
    );
    assert_eq!(
        all_ranges(u64::MAX - 3, u64::MAX, 4),
        vec!["bytes=18446744073709551612-18446744073709551615"]
    );
    let mut whole = PartialRangeIter::new(0, u64::MAX, u32::MAX).unwrap();
    assert_eq!(whole.next(), Some(ByteRange { first: 0, last: u32::MAX as u64 - 1 }));
    assert_eq!(
        whole.next(),
        Some(ByteRange { first: u32::MAX as u64, last: 2 * (u32::MAX as u64) - 1 })
    );
    assert!(matches!(PartialRangeIter::new(0, u64::MAX, 0), Err(RangeError::InvalidBufferSize)));
    let mut none = PartialRangeIter::new(9, 3, 1).unwrap();
    assert_eq!(none.next(), None);
    assert_eq!(none.next(), None);
}
