use stream_crypt::codec::{decode_base64, encode_base64, text_from_utf8, MAX_BASE64_INPUT};
use stream_crypt::error::CryptoError;

#[test]
fn encode_base64_gives_the_standard_text() {
    assert_eq!(encode_base64(b""), Some(String::new()));
    assert_eq!(encode_base64(b"f"), Some(String::from("Zg==")));
    assert_eq!(encode_base64(b"fo"), Some(String::from("Zm8=")));
    assert_eq!(encode_base64(b"foo"), Some(String::from("Zm9v")));
    assert_eq!(encode_base64(b"foobar"), Some(String::from("Zm9vYmFy")));
    assert_eq!(encode_base64(&[0xfb, 0xff]), Some(String::from("+/8=")));
}

#[test]
fn the_base64_input_limit_is_three_quarters_of_what_can_be_counted() {
    assert_eq!(MAX_BASE64_INPUT, usize::MAX / 4 * 3);
}

#[test]
fn decode_base64_gives_the_bytes() {
    assert_eq!(decode_base64(""), Ok(Vec::new()));
    assert_eq!(decode_base64("Zg=="), Ok(b"f".to_vec()));
    assert_eq!(decode_base64("Zm9vYmFy"), Ok(b"foobar".to_vec()));
    assert_eq!(decode_base64("+/8="), Ok(vec![0xfbu8, 0xff]));
}

#[test]
fn decode_base64_refuses_what_is_not_base64() {
    for text in ["Z", "Zm9v!", "Zm 9v", "-_8=", "Zg==\n", "=", "Zh=="] {
        assert_eq!(decode_base64(text), Err(CryptoError::Base64DecodeError));
    }
}

#[test]
fn decode_base64_undoes_encode_base64() {
    for len in 0..64usize {
        let bytes: Vec<u8> = (0..len).map(|i| (i * 37 % 256) as u8).collect();
        let text = encode_base64(&bytes).unwrap();
        assert_eq!(decode_base64(&text), Ok(bytes));
    }
}

#[test]
fn text_from_utf8_accepts_valid_utf8() {
    assert_eq!(text_from_utf8(Vec::new()), Ok(String::new()));
    assert_eq!(text_from_utf8(b"hello".to_vec()), Ok(String::from("hello")));
    assert_eq!(
        text_from_utf8(vec![0x68, 0xc3, 0xa9, 0xe2, 0x82, 0xac, 0xf0, 0x9f, 0x98, 0x80]),
        Ok(String::from("h\u{e9}\u{20ac}\u{1f600}"))
    );
}

#[test]
fn text_from_utf8_refuses_invalid_utf8() {
    for bytes in [
        vec![0xffu8],
        vec![0xc3],
        vec![0x80],
        vec![0xc0, 0x80],
        vec![0xed, 0xa0, 0x80],
        vec![0xf4, 0x90, 0x80, 0x80],
        vec![b'a', 0xe2, 0x82],
    ] {
        assert_eq!(text_from_utf8(bytes), Err(CryptoError::Utf8ValidationError));
    }
}
