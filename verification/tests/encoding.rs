use afire::internal::encoding::base64;
use afire::internal::encoding::url::{decode, encode};

#[test]
fn test_base64_encode() {
    assert_eq!(base64::encode(b""), "");
    assert_eq!(base64::encode(b"f"), "Zg==");
    assert_eq!(base64::encode(b"fo"), "Zm8=");
    assert_eq!(base64::encode(b"foo"), "Zm9v");
    assert_eq!(base64::encode(b"foob"), "Zm9vYg==");
    assert_eq!(base64::encode(b"fooba"), "Zm9vYmE=");
    assert_eq!(base64::encode(b"foobar"), "Zm9vYmFy");
}

#[test]
fn test_base64_decode() {
    assert_eq!(base64::decode("").unwrap(), b"");
    assert_eq!(base64::decode("Zg==").unwrap(), b"f");
    assert_eq!(base64::decode("Zm8=").unwrap(), b"fo");
    assert_eq!(base64::decode("Zm9v").unwrap(), b"foo");
    assert_eq!(base64::decode("Zm9vYg==").unwrap(), b"foob");
    assert_eq!(base64::decode("Zm9vYmE=").unwrap(), b"fooba");
    assert_eq!(base64::decode("Zm9vYmFy").unwrap(), b"foobar");
}

#[test]
fn base64_round_trip() {
    for input in [&b"hello world"[..], b"\x00\x01\x02", b"afire", b"\xfb", b"\xff\xff\xfe", b"?>?"] {
        let e = base64::encode(input);
        assert_eq!(base64::decode(&e).unwrap(), input);
    }
    assert_eq!(base64::encode(b"\xfb"), "+w==");
    assert_eq!(base64::decode("+w==").unwrap(), vec![0xfb]);
    assert_eq!(base64::decode("////").unwrap(), vec![0xff, 0xff, 0xff]);
}

#[test]
fn base64_rejects_other_characters() {
    assert_eq!(base64::decode("Zm9v!A=="), None);
}

#[test]
fn test_url_decode() {
    assert_eq!(decode("hello+world"), "hello world");
    assert_eq!(decode("hello%20world"), "hello world");
    assert_eq!(decode("%3C%3E%22%23%25%7B%7D%7C%5C%5E~%5B%5D%60"), "<>\"#%{}|\\^~[]`");
}

#[test]
fn test_url_decode_fail() {
    assert_eq!(decode("hello%20world%"), "hello world");
    assert_eq!(decode("hello%20world%2"), "hello world");
    assert_eq!(decode("hello%20world%2G"), "hello world");
}

#[test]
fn test_url_encode() {
    assert_eq!(encode("hello world"), "hello%20world");
    assert_eq!(encode("hello%20world"), "hello%2520world");
    assert_eq!(encode("<>\"#%{}|\\^~[]`"), "%3C%3E%22%23%25%7B%7D%7C%5C%5E~%5B%5D%60");
}

#[test]
fn url_round_trip() {
    for s in ["a b&c=d/é", "plain", "100%"] {
        let e = encode(s);
        if s.chars().all(|c| (c as u32) < 256) {
            assert_eq!(decode(&e), s);
        }
    }
}
