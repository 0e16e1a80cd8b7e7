//! Base64 decoder tests.

use commonplace_doc::b64::{b64_decode, b64_encode};

#[test]
fn test_b64_decode_exact() {
    assert_eq!(b64_decode("TWFu"), Some(b"Man".to_vec()));
    assert_eq!(b64_decode("TWE="), Some(b"Ma".to_vec()));
    assert_eq!(b64_decode("TQ=="), Some(b"M".to_vec()));
    assert_eq!(b64_decode("aGVsbG8="), Some(b"hello".to_vec()));
    assert_eq!(b64_decode(""), Some(Vec::new()));
}

#[test]
fn test_b64_decode_rejects_bad_input() {
    assert_eq!(b64_decode("TWFuT"), None, "ragged length");
    assert_eq!(b64_decode("!!!!"), None, "foreign characters");
    assert_eq!(b64_decode("TW=u"), None, "padding inside a group");
    assert_eq!(b64_decode("TQ==TWFu"), None, "padding before the last group");
}

#[test]
fn test_b64_decode_binary() {
    // all three group shapes over non-text bytes
    assert_eq!(b64_decode("AAECAw=="), Some(vec![0u8, 1, 2, 3]));
    assert_eq!(b64_decode("/////w=="), Some(vec![255u8, 255, 255, 255]));
}

#[test]
fn test_b64_encode_exact() {
    assert_eq!(b64_encode(b"Man"), b"TWFu".to_vec());
    assert_eq!(b64_encode(b"Ma"), b"TWE=".to_vec());
    assert_eq!(b64_encode(b"M"), b"TQ==".to_vec());
    assert_eq!(b64_encode(b""), Vec::<u8>::new());
}

#[test]
fn test_b64_encode_decode_round_trip() {
    for data in [
        Vec::new(),
        vec![0u8],
        vec![1u8, 2],
        vec![250u8, 251, 252, 253, 254, 255],
        (0u8..=63).collect::<Vec<u8>>(),
    ] {
        let text = String::from_utf8(b64_encode(&data)).unwrap();
        assert_eq!(b64_decode(&text), Some(data));
    }
}
