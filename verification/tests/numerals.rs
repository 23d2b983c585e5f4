use cookbook::numerals::{parse_radix, parse_u32, parse_u64, to_decimal, to_digit, IntErrorKind};

#[test]
fn decimal_text_of_numbers() {
    assert_eq!(to_decimal(0), "0");
    assert_eq!(to_decimal(7), "7");
    assert_eq!(to_decimal(10), "10");
    assert_eq!(to_decimal(102400), "102400");
    assert_eq!(to_decimal(u64::MAX), "18446744073709551615");
}

#[test]
fn numerals_read_as_the_standard_library_reads_them() {
    let cases = [
        "", "+", "-", "0", "+0", "-0", "007", "42", "+42", "++42", "4 2", " 42", "42 ", "4_2",
        "18446744073709551615", "18446744073709551616", "99999999999999999999x", "x9999999999999999999999",
        "4294967295", "4294967296", "\u{663}", "1e3", "0x10", "12345678901234567890",
    ];
    for text in cases {
        let theirs64 = text.parse::<u64>().map_err(|e| format!("{:?}", e.kind()));
        let ours64 = parse_u64(text).map_err(|e| format!("{:?}", e));
        assert_eq!(ours64, theirs64, "{:?}", text);
        let theirs32 = text.parse::<u32>().map_err(|e| format!("{:?}", e.kind()));
        let ours32 = parse_u32(text).map_err(|e| format!("{:?}", e));
        assert_eq!(ours32, theirs32, "{:?}", text);
    }
}

#[test]
fn hexadecimal_pairs_read_as_the_standard_library_reads_them() {
    let cases = ["ff", "FF", "0a", "+f", "-f", "f+", "g0", "100", "0", "", "zz", "fF"];
    for text in cases {
        let theirs = u8::from_str_radix(text, 16).map_err(|e| format!("{:?}", e.kind()));
        let ours = parse_radix(text, 16, 255)
            .map(|n| n as u8)
            .map_err(|e| format!("{:?}", e));
        assert_eq!(ours, theirs, "{:?}", text);
    }
}

#[test]
fn each_error_kind_has_its_input() {
    assert_eq!(parse_u64(""), Err(IntErrorKind::Empty));
    assert_eq!(parse_u64("12a"), Err(IntErrorKind::InvalidDigit));
    assert_eq!(parse_u64("+"), Err(IntErrorKind::InvalidDigit));
    assert_eq!(parse_u64("18446744073709551616"), Err(IntErrorKind::PosOverflow));
    assert_eq!(parse_u64("18446744073709551615"), Ok(u64::MAX));
}

#[test]
fn digits_of_every_base() {
    for radix in 2..=36u32 {
        for v in 0..0x250u32 {
            let c = char::from_u32(v).unwrap();
            assert_eq!(to_digit(c, radix), c.to_digit(radix), "{:?} in base {}", c, radix);
        }
    }
}

#[test]
fn reading_what_was_written_gives_the_number_back() {
    for n in [0u64, 1, 9, 10, 99, 100, 12345, u32::MAX as u64, u64::MAX - 1, u64::MAX] {
        assert_eq!(parse_u64(&to_decimal(n)), Ok(n));
    }
}

#[test]
fn numerals_in_the_middle_of_a_text() {
    use_chars();
}

fn use_chars() {
    let chars: Vec<char> = "ab12+7ff".chars().collect();
    assert_eq!(cookbook::numerals::parse_chars(&chars, 2, 10, 99), Err(IntErrorKind::InvalidDigit));
    assert_eq!(cookbook::numerals::parse_chars(&chars, 4, 16, 0xFFFF), Ok(0x7ff));
    assert_eq!(cookbook::numerals::parse_chars(&chars, 4, 16, 0x7fe), Err(IntErrorKind::PosOverflow));
    assert_eq!(cookbook::numerals::parse_chars(&chars, 8, 10, 9), Err(IntErrorKind::Empty));
    assert_eq!(cookbook::numerals::parse_chars(&chars, 5, 8, 9), Err(IntErrorKind::InvalidDigit));
    assert_eq!(cookbook::numerals::parse_chars(&chars, 7, 16, 15), Ok(15));
    assert_eq!(cookbook::numerals::parse_hex_pair(&chars, 6), Ok(255));
    assert_eq!(cookbook::numerals::parse_hex_pair(&chars, 4), Ok(7));
    assert_eq!(cookbook::numerals::parse_hex_pair(&chars, 3), Err(IntErrorKind::InvalidDigit));
    assert_eq!(cookbook::numerals::parse_hex_pair(&chars, 0), Ok(0xab));
    let mut out = vec!['<'];
    cookbook::numerals::push_decimal(&mut out, 1050);
    out.push('|');
    cookbook::numerals::push_upper_hex(&mut out, 0xBEEF);
    assert_eq!(out.iter().collect::<String>(), "<1050|BEEF");
}

#[test]
fn signs_and_leading_zeros() {
    let mut out = Vec::new();
    cookbook::numerals::push_signed_decimal(&mut out, i64::MIN);
    out.push(' ');
    cookbook::numerals::push_signed_decimal(&mut out, -1);
    out.push(' ');
    cookbook::numerals::push_signed_decimal(&mut out, 0);
    out.push(' ');
    cookbook::numerals::push_two_digits(&mut out, 0);
    out.push(' ');
    cookbook::numerals::push_two_digits(&mut out, 9);
    out.push(' ');
    cookbook::numerals::push_two_digits(&mut out, 10);
    out.push(' ');
    cookbook::numerals::push_two_digits(&mut out, 2024);
    assert_eq!(
        out.iter().collect::<String>(),
        format!("{} {} {} {:02} {:02} {:02} {:02}", i64::MIN, -1, 0, 0, 9, 10, 2024)
    );
}
