use kube_cel::encoders::{base64_decode, base64_encode};
use kube_cel::jsonpatch::escape_key;

#[test]
fn test_escape_tilde_and_slash() {
    assert_eq!(escape_key("k8s.io/my~label"), "k8s.io~1my~0label");
}

#[test]
fn test_escape_tilde_only() {
    assert_eq!(escape_key("a~b"), "a~0b");
}

#[test]
fn test_escape_slash_only() {
    assert_eq!(escape_key("a/b"), "a~1b");
}

#[test]
fn test_escape_no_special_chars() {
    assert_eq!(escape_key("hello"), "hello");
}

#[test]
fn test_escape_empty_string() {
    assert_eq!(escape_key(""), "");
}

#[test]
fn test_escape_multiple() {
    assert_eq!(escape_key("~/~/"), "~0~1~0~1");
}

#[test]
fn test_escape_order_matters() {
    assert_eq!(escape_key("~1"), "~01");
}

#[test]
fn test_base64_decode() {
    assert_eq!(base64_decode("aGVsbG8=").unwrap(), b"hello".to_vec());
}

#[test]
fn test_base64_encode() {
    assert_eq!(base64_encode(b"hello"), "aGVsbG8=");
}

#[test]
fn test_base64_roundtrip() {
    assert_eq!(base64_decode("dGVzdA==").unwrap(), b"test".to_vec());
}

#[test]
fn test_base64_decode_invalid() {
    assert!(base64_decode("!!!").is_err());
}

#[test]
fn test_base64_decode_empty() {
    assert_eq!(base64_decode("").unwrap(), Vec::<u8>::new());
}

#[test]
fn test_base64_decode_unpadded() {
    assert_eq!(base64_decode("aGVsbG8").unwrap(), b"hello".to_vec());
}

// Edge cases of this library.

#[test]
fn encode_then_decode_gives_the_bytes_back() {
    for b in [&b""[..], b"a", b"ab", b"abc", b"\x00\xff\x10"] {
        assert_eq!(base64_decode(&base64_encode(b)).unwrap(), b.to_vec());
    }
}

#[test]
fn escaping_keeps_unicode() {
    assert_eq!(escape_key("é/ü~"), "é~1ü~0");
}

#[test]
fn base64_encode_pads_and_uses_the_standard_alphabet() {
    assert_eq!(base64_encode(b""), "");
    assert_eq!(base64_encode(&[0u8]), "AA==");
    assert_eq!(base64_encode(b"hi"), "aGk=");
    assert_eq!(base64_encode(&[255u8, 239, 0]), "/+8A");
    assert_eq!(base64_encode(&[251u8, 255]), "+/8=");
}
