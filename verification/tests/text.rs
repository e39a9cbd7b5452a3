use o5m_stream::text::text;
use o5m_stream::DecodeError;

#[test]
fn text_of_ascii() {
    assert_eq!(text(b"highway"), Ok("highway".to_string()));
    assert_eq!(text(b""), Ok(String::new()));
}

#[test]
fn text_of_several_bytes_each() {
    assert_eq!(text(&[0xc3, 0xa9]), Ok("\u{e9}".to_string()));
    assert_eq!(text(&[0xe6, 0x9d, 0xb1, 0xe4, 0xba, 0xac]), Ok("\u{6771}\u{4eac}".to_string()));
    assert_eq!(text(&[0xf0, 0x9f, 0x97, 0xba]), Ok("\u{1f5fa}".to_string()));
}

#[test]
fn text_rejects_what_is_not_utf8() {
    assert_eq!(text(&[0xff]), Err(DecodeError::StringEncodingError));
    assert_eq!(text(&[0xc3]), Err(DecodeError::StringEncodingError));
    assert_eq!(text(&[0xc3, 0x28]), Err(DecodeError::StringEncodingError));
    // an overlong encoding of '/'
    assert_eq!(text(&[0xc0, 0xaf]), Err(DecodeError::StringEncodingError));
    // a surrogate
    assert_eq!(text(&[0xed, 0xa0, 0x80]), Err(DecodeError::StringEncodingError));
    // beyond the last code point
    assert_eq!(text(&[0xf4, 0x90, 0x80, 0x80]), Err(DecodeError::StringEncodingError));
}
