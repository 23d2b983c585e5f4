use cookbook::encoding::{
    base64_enc, decode, encode, escaped_in_fragment, form_urlencoded, from_base64, from_hex,
    from_percent, hex_coding, percent_encoding, to_base64, to_fragment, to_hex, CodingError,
    ColorError, HexColor, Payload,
};

#[test]
fn percent_encoding_of_a_sentence() {
    let input = "confident, productive systems programming";
    let (encoded, decoded) = percent_encoding(input).unwrap();
    assert_eq!(encoded, "confident,%20productive%20systems%20programming");
    assert_eq!(decoded, "confident, productive systems programming");
}

#[test]
fn fragment_set_agrees_with_the_crate() {
    const FRAGMENT: &percent_encoding::AsciiSet = &percent_encoding::CONTROLS
        .add(b' ')
        .add(b'"')
        .add(b'<')
        .add(b'>')
        .add(b'`');
    for b in 0u8..=127 {
        let one = [b];
        let theirs: String = percent_encoding::percent_encode(&one, FRAGMENT).collect();
        assert_eq!(escaped_in_fragment(b), theirs.len() == 3, "byte {}", b);
        let text = std::str::from_utf8(&one).unwrap();
        assert_eq!(to_fragment(text), theirs, "byte {}", b);
    }
    for b in 128u8..=255 {
        assert!(escaped_in_fragment(b), "byte {}", b);
    }
    let text = "a b\"c<d>e`f\u{7f}\u{1}\u{e9}\u{2764}%41~";
    let theirs: String = percent_encoding::utf8_percent_encode(text, FRAGMENT).collect();
    assert_eq!(to_fragment(text), theirs);
    assert_eq!(to_fragment(""), "");
}

#[test]
fn percent_escapes_decode_as_the_crate_decodes_them() {
    assert_eq!(from_percent(b"%41%4a%4A%4"), Ok("AJJ%4".to_string()));
    assert_eq!(from_percent(b"100%"), Ok("100%".to_string()));
    assert_eq!(from_percent(b"%zz%E2%9D%A4"), Ok("%zz\u{2764}".to_string()));
    assert_eq!(from_percent(b"%FF"), Err(CodingError::InvalidUtf8));
    // A percent sign that stood in the input is read as an escape afterwards.
    let (encoded, decoded) = percent_encoding("%41").unwrap();
    assert_eq!(encoded, "%41");
    assert_eq!(decoded, "A");
}

#[test]
fn form_data_round_trip() {
    let (urlencoded, decoded) = form_urlencoded("What is \u{2764}?");
    assert_eq!(urlencoded, "What+is+%E2%9D%A4%3F");
    assert_eq!(decoded, "What is \u{2764}?");
    let (urlencoded, decoded) = form_urlencoded("a=1&b=2");
    assert_eq!(urlencoded, "a%3D1%26b%3D2");
    assert_eq!(decoded, "a=1&b=2");
}

#[test]
fn hexadecimal_round_trip() {
    let original = b"The quick brown fox jumps over the lazy dog.";
    let expected = "54686520717569636B2062726F776E20666F78206A756D7073206F76\
        657220746865206C617A7920646F672E";
    assert_eq!(to_hex(original), expected);
    assert_eq!(from_hex(expected.as_bytes()), Ok(original.to_vec()));
    assert_eq!(hex_coding(original), Ok(original.to_vec()));
    assert_eq!(hex_coding(&[]), Ok(vec![]));
    assert_eq!(to_hex(&[0x00, 0x0f, 0xa0, 0xff]), "000FA0FF");
}

#[test]
fn bad_hexadecimal_is_refused() {
    assert_eq!(from_hex(b"ABC"), Err(CodingError::InvalidHex));
    assert_eq!(from_hex(b"ab"), Err(CodingError::InvalidHex));
    assert_eq!(from_hex(b"GG"), Err(CodingError::InvalidHex));
    assert_eq!(from_hex(b"AB CD"), Err(CodingError::InvalidHex));
    assert_eq!(from_hex(&[0x41, 0xC3]), Err(CodingError::InvalidHex));
    assert_eq!(from_hex(b""), Ok(vec![]));
}

#[test]
fn base64_round_trip() {
    let hello = b"hello rustaceans";
    let (encoded, decoded) = base64_enc(hello).unwrap();
    assert_eq!(encoded, "aGVsbG8gcnVzdGFjZWFucw");
    assert_eq!(decoded, hello.to_vec());
    assert_eq!(to_base64(b""), "");
    assert_eq!(to_base64(&[0xfb, 0xff]), "+/8");
    assert_eq!(from_base64("+/8"), Ok(vec![0xfb, 0xff]));
}

#[test]
fn bad_base64_is_refused() {
    assert_eq!(from_base64("aGVsbG8gcnVzdGFjZWFucw=="), Err(CodingError::InvalidBase64));
    assert_eq!(from_base64("a"), Err(CodingError::InvalidBase64));
    assert_eq!(from_base64("+/9"), Err(CodingError::InvalidBase64));
    assert_eq!(from_base64("a b"), Err(CodingError::InvalidBase64));
    assert_eq!(from_base64("-_8"), Err(CodingError::InvalidBase64));
}

#[test]
fn payload_round_trip() {
    let original_payload = Payload::default();
    let encoded_bytes = encode(&original_payload).unwrap();
    let decoded_payload = decode(&encoded_bytes).unwrap();
    assert_eq!(original_payload, decoded_payload);
    assert_eq!(encoded_bytes, vec![0, 0, 0]);
}

#[test]
fn payload_bytes_are_little_endian() {
    let payload = Payload { kind: 7, value: 0x1234 };
    assert_eq!(encode(&payload), Ok(vec![7, 0x34, 0x12]));
    assert_eq!(decode(&[7, 0x34, 0x12]), Ok(payload));
    assert_eq!(decode(&[7, 0x34, 0x12, 99, 100]), Ok(payload));
    assert_eq!(decode(&[0xff, 0xff, 0xff]), Ok(Payload { kind: 255, value: u16::MAX }));
    assert_eq!(decode(&[]), Err(CodingError::UnexpectedEof));
    assert_eq!(decode(&[1]), Err(CodingError::UnexpectedEof));
    assert_eq!(decode(&[1, 2]), Err(CodingError::UnexpectedEof));
}

#[test]
fn colours_from_hexadecimal_triples() {
    assert_eq!(HexColor::from_str("#ff0000"), Ok(HexColor { red: 255, green: 0, blue: 0 }));
    assert_eq!(HexColor::from_str("#0000FF"), Ok(HexColor { red: 0, green: 0, blue: 255 }));
    assert_eq!(HexColor::from_str("#ccccff"), Ok(HexColor { red: 204, green: 204, blue: 255 }));
    assert_eq!(HexColor::from_str("ff00ff"), Ok(HexColor { red: 255, green: 0, blue: 255 }));
    assert_eq!(HexColor::from_str("##ff00ff#"), Ok(HexColor { red: 255, green: 0, blue: 255 }));
    assert_eq!(HexColor::from_str("#+f+a+0"), Ok(HexColor { red: 15, green: 10, blue: 0 }));
}

#[test]
fn colours_that_are_none() {
    assert_eq!(HexColor::from_str(""), Err(ColorError::InvalidLength));
    assert_eq!(HexColor::from_str("#"), Err(ColorError::InvalidLength));
    assert_eq!(HexColor::from_str("#fff"), Err(ColorError::InvalidLength));
    assert_eq!(HexColor::from_str("#ff00ff0"), Err(ColorError::InvalidLength));
    assert_eq!(HexColor::from_str("#ff#0ff"), Err(ColorError::InvalidDigit));
    assert_eq!(HexColor::from_str("#\u{e9}\u{e9}\u{e9}\u{e9}"), Err(ColorError::InvalidLength));
    assert_eq!(HexColor::from_str("#gg0000"), Err(ColorError::InvalidDigit));
    assert_eq!(HexColor::from_str("#ff00-1"), Err(ColorError::InvalidDigit));
    assert_eq!(HexColor::from_str("#\u{e9}1234"), Err(ColorError::InvalidDigit));
    assert_eq!(HexColor::from_str("#\u{e9}\u{e9}\u{e9}"), Err(ColorError::InvalidDigit));
    assert_eq!(ColorError::InvalidLength.message(), "Invalid length of hex string");
}

#[test]
fn form_data_keeps_plain_bytes() {
    let (urlencoded, decoded) = form_urlencoded("a*-._Z9 ~/%");
    assert_eq!(urlencoded, "a*-._Z9+%7E%2F%25");
    assert_eq!(decoded, "a*-._Z9 ~/%");
    let theirs: String = url::form_urlencoded::byte_serialize("a*-._Z9 ~/%".as_bytes()).collect();
    assert_eq!(urlencoded, theirs);
}
