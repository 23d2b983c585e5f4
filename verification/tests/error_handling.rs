use cookbook::error_handling::{parse_response, parse_uptime, ResponseError, Rgb};
use cookbook::numerals::{to_upper_hex, IntErrorKind};

#[test]
fn uptime_is_the_number_before_the_first_full_stop() {
    assert_eq!(parse_uptime("350735.47 234388.90\n"), Ok(350735));
    assert_eq!(parse_uptime("12"), Ok(12));
    assert_eq!(parse_uptime("+7.5.3"), Ok(7));
    assert_eq!(parse_uptime(".5"), Err(IntErrorKind::Empty));
    assert_eq!(parse_uptime(""), Err(IntErrorKind::Empty));
    assert_eq!(parse_uptime("12 .5"), Err(IntErrorKind::InvalidDigit));
    assert_eq!(parse_uptime("99999999999999999999.1"), Err(IntErrorKind::PosOverflow));
}

#[test]
fn uptime_agrees_with_the_standard_library() {
    for text in ["350735.47 234388.90\n", "abc", "1.2", "", ".", "18446744073709551615.0", "18446744073709551616.0"] {
        let theirs = text.split('.').next().unwrap().parse::<u64>().ok();
        assert_eq!(parse_uptime(text).ok(), theirs, "{:?}", text);
    }
}

#[test]
fn response_is_a_number_and_a_line_break() {
    assert_eq!(parse_response("7\n"), Ok(7));
    assert_eq!(parse_response("10\n"), Ok(10));
    assert_eq!(parse_response("4294967295\n"), Ok(u32::MAX));
    assert_eq!(
        parse_response("4294967296\n"),
        Err(ResponseError::RandomResponseError("4294967296".to_string(), IntErrorKind::PosOverflow))
    );
    assert_eq!(
        parse_response("7"),
        Err(ResponseError::RandomResponseError("".to_string(), IntErrorKind::Empty))
    );
    assert_eq!(
        parse_response(""),
        Err(ResponseError::RandomResponseError("".to_string(), IntErrorKind::Empty))
    );
    assert_eq!(
        parse_response("Error: x\n"),
        Err(ResponseError::RandomResponseError("Error: x".to_string(), IntErrorKind::InvalidDigit))
    );
}

#[test]
fn colour_as_a_hexadecimal_number() {
    let rgb = Rgb { red: 102, blue: 255, green: 204 };
    assert_eq!(rgb.hexa(), 0x66FFCC);
    assert_eq!(rgb.upper_hex(), "66FFCC");
    assert_eq!(rgb.upper_hex(), format!("{:X}", rgb.hexa()));
    let dark = Rgb { red: 0, blue: 10, green: 1 };
    assert_eq!(dark.upper_hex(), "A01");
    assert_eq!(Rgb { red: 0, blue: 0, green: 0 }.upper_hex(), "0");
}

#[test]
fn upper_hex_agrees_with_the_standard_library() {
    for n in [0u64, 9, 10, 15, 16, 255, 256, 0xDEADBEEF, u64::MAX] {
        assert_eq!(to_upper_hex(n), format!("{:X}", n));
    }
}
