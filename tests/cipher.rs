use vstutils_utils::cipher::{decode, encode, shift_bytes, unshift_bytes, CipherError};

#[test]
fn secret_key_round_trip() {
    let e = encode("secret", "hello world").unwrap();
    assert_eq!(e, "28rP3tSU6tTV3sk=");
    assert_eq!(decode("secret", &e), Ok("hello world".to_string()));
    assert_ne!(decode("wrong!", &e), Ok("hello world".to_string()));
    assert_eq!(decode("wrong!", &e), Ok("dX`pmssbfpb".to_string()));
}

#[test]
fn empty_clear_text() {
    let e = encode("k", "").unwrap();
    assert_eq!(e, "");
    assert_eq!(decode("k", &e), Ok(String::new()));
}

#[test]
fn single_byte_exact_value() {
    assert_eq!(encode("a", "a"), Ok("wg==".to_string()));
    assert_eq!(decode("a", "wg=="), Ok("a".to_string()));
}

#[test]
fn key_longer_than_text() {
    assert_eq!(encode("abc", "a"), Ok("wg==".to_string()));
}

#[test]
fn multibyte_key_and_text() {
    assert_eq!(encode("é", "ab"), Ok("JAs=".to_string()));
    let t = "héllo wörld ✓";
    let e = encode("key", t).unwrap();
    assert_eq!(e, "0ygi19Hoi9w8Idflz4VbB_g=");
    assert_eq!(decode("key", &e), Ok(t.to_string()));
}

#[test]
fn encode_is_deterministic() {
    let a = encode("key", "some text to hide").unwrap();
    let b = encode("key", "some text to hide").unwrap();
    assert_eq!(a, b);
}

#[test]
fn encode_uses_url_safe_alphabet() {
    let t = "héllo wörld ✓ ~~~ ??? >>> ÿÿÿ";
    for key in ["key", "ÿ", "secret", "\u{7f}"] {
        let e = encode(key, t).unwrap();
        assert!(e
            .chars()
            .all(|c| c.is_ascii_alphanumeric() || c == '-' || c == '_' || c == '='));
        assert_eq!(decode(key, &e), Ok(t.to_string()));
    }
}

#[test]
fn other_key_does_not_give_text_back() {
    let e = encode("secret", "hello world").unwrap();
    assert_eq!(decode("secreu", &e), Ok("hello\u{1f}world".to_string()));
    let e = encode("a", "hello").unwrap();
    assert_eq!(decode("b", &e), Ok("gdkkn".to_string()));
}

#[test]
fn empty_key_is_rejected() {
    assert_eq!(encode("", "hello"), Err(CipherError::InvalidKey));
    assert_eq!(encode("", ""), Err(CipherError::InvalidKey));
    assert_eq!(decode("", "wg=="), Err(CipherError::InvalidKey));
    assert_eq!(decode("", "not valid base64 !!!"), Err(CipherError::InvalidKey));
}

#[test]
fn malformed_input_is_rejected() {
    assert_eq!(decode("k", "not valid base64 !!!"), Err(CipherError::MalformedInput));
    assert_eq!(decode("k", "wg="), Err(CipherError::MalformedInput));
    assert_eq!(decode("k", "wg"), Err(CipherError::MalformedInput));
    assert_eq!(decode("k", "+/8="), Err(CipherError::MalformedInput));
    assert_eq!(decode("k", "wh=="), Err(CipherError::MalformedInput));
}

#[test]
fn invalid_utf8_is_rejected() {
    assert_eq!(decode("a", "YA=="), Err(CipherError::InvalidEncoding));
}

#[test]
fn shift_wraps_around() {
    assert_eq!(shift_bytes(&[0x01, 0xff], &[0xff, 0x02, 0x10]), vec![0x00, 0x01, 0x11]);
    assert_eq!(unshift_bytes(&[0x01, 0xff], &[0x00, 0x01, 0x11]), vec![0xff, 0x02, 0x10]);
    assert_eq!(shift_bytes(&[7], &[]), Vec::<u8>::new());
}
