use cookbook::string_manip::{chars_of, is_whitespace, text_align, width_of, TextAlign};

#[test]
fn test_text_align_left() {
    let tcs: [(&str, &str); 5] = [
        ("  this is   text   ", "this is   text     "),
        ("", ""),
        ("1", "1"),
        ("2 ", "2 "),
        (" 3 ", "3  "),
    ];
    for tc in tcs {
        let res = text_align(tc.0, tc.0.len(), TextAlign::Left);
        assert_eq!(tc.1, res);
    }
}

#[test]
fn test_text_align_center() {
    let tcs: [(&str, &str, usize); 5] = [
        ("", "", 0),
        ("1", "1", 1),
        (
            "this text should be centered",
            "      this text should be centered      ",
            40,
        ),
        ("2  ", " 2 ", 3),
        (" 3", "3 ", 2),
    ];
    for tc in tcs {
        let result = text_align(tc.0, tc.2, TextAlign::Center);
        assert_eq!(result, tc.1);
    }
}

#[test]
fn test_text_align_right() {
    let tcs: [(&str, &str, usize); 5] = [
        ("", "", 0),
        ("1", "1", 1),
        (
            "this text should be right aligned",
            "       this text should be right aligned",
            40,
        ),
        ("2  ", "  2", 3),
        (" 3", " 3", 2),
    ];
    for tc in tcs {
        let result = text_align(tc.0, tc.2, TextAlign::Right);
        assert_eq!(result, tc.1);
    }
}

#[test]
fn test_text_justify() {
    let tcs: [(&str, &str, usize); 5] = [
        ("", "", 0),
        ("1", "1", 1),
        (
            "this text should be justified",
            "this   text    should    be    justified",
            40,
        ),
        ("2  ", "2  ", 3),
        (" 3 4 5    ", "3   4    5", 2),
    ];
    for tc in tcs {
        let result = text_align(tc.0, tc.2, TextAlign::Justify);
        assert_eq!(result, tc.1);
    }
}

#[test]
fn whitespace_agrees_with_the_standard_library() {
    let mut v: u32 = 0;
    while v <= 0x10FFFF {
        if let Some(c) = char::from_u32(v) {
            assert_eq!(is_whitespace(c), c.is_whitespace(), "U+{:04X}", v);
            assert_eq!(width_of(c), c.len_utf8(), "U+{:04X}", v);
        }
        v += 1;
    }
}

#[test]
fn chars_of_keeps_every_character() {
    assert_eq!(chars_of("a\u{e9}\u{2764}\u{1F600} z"), vec!['a', '\u{e9}', '\u{2764}', '\u{1F600}', ' ', 'z']);
    assert_eq!(chars_of(""), Vec::<char>::new());
}

#[test]
fn left_and_right_count_bytes() {
    // Two characters of three bytes each: the line is six wide, not two.
    let text = "\u{3000}\u{2764}";
    assert_eq!(text_align(text, 0, TextAlign::Left), "\u{2764}   ");
    assert_eq!(text_align("\u{2764}\u{3000}", 0, TextAlign::Right), "   \u{2764}");
    assert_eq!(text_align("ab", 5, TextAlign::Left), "ab   ");
    assert_eq!(text_align("ab", 5, TextAlign::Right), "   ab");
}

#[test]
fn center_counts_characters() {
    assert_eq!(text_align("\u{2764}", 4, TextAlign::Center), format!("{:^4}", "\u{2764}"));
    assert_eq!(text_align("\u{2764}", 4, TextAlign::Center), " \u{2764}  ");
    assert_eq!(text_align(" abc ", 2, TextAlign::Center), "abc");
    assert_eq!(text_align("ab", 7, TextAlign::Center), "  ab   ");
}

#[test]
fn justify_deals_spare_blanks_to_the_last_gaps() {
    assert_eq!(text_align("a b c d", 12, TextAlign::Justify), "a  b   c   d");
    assert_eq!(text_align("a\tb", 2, TextAlign::Justify), "a b");
    assert_eq!(text_align("a b", 0, TextAlign::Justify).chars().count(), 3);
    assert_eq!(text_align("  one  ", 20, TextAlign::Justify), "  one  ");
}

#[test]
fn words_are_found_between_white_space() {
    let chars: Vec<char> = " a\tbc  d\u{3000}".chars().collect();
    assert_eq!(
        cookbook::string_manip::split_whitespace(&chars),
        vec![(1, 2), (3, 5), (7, 8)]
    );
    assert!(cookbook::string_manip::split_whitespace(&Vec::new()).is_empty());
    let blank: Vec<char> = " \n ".chars().collect();
    assert!(cookbook::string_manip::split_whitespace(&blank).is_empty());
    for text in ["", "a", " a b ", "\u{a0}x\u{85}y z", "one  two\tthree\nfour"] {
        let chars: Vec<char> = text.chars().collect();
        let ours: Vec<String> = cookbook::string_manip::split_whitespace(&chars)
            .iter()
            .map(|(from, to)| chars[*from..*to].iter().collect())
            .collect();
        let theirs: Vec<String> = text.split_whitespace().map(String::from).collect();
        assert_eq!(ours, theirs);
    }
}
