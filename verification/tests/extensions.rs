use afire::extensions::path_normalizer::normalize;
use afire::extensions::range::{RangeError, RangeResponse, Ranges};
use afire::extensions::util::fmt_relative_time;
use afire::response::ResponseBody;

#[test]
fn test_path_normalizer() {
    let mut path = "/hello/world/".to_string();
    normalize(&mut path);
    assert_eq!(path, "/hello/world");

    let mut path = "/hello//world/".to_string();
    normalize(&mut path);
    assert_eq!(path, "/hello/world");
}

#[test]
fn normalizer_is_idempotent_on_examples() {
    for p in ["///a//b///", "/", "", "a"] {
        let mut once = p.to_string();
        normalize(&mut once);
        let mut twice = once.clone();
        normalize(&mut twice);
        assert_eq!(once, twice);
    }
}

#[test]
fn test_range_parse() {
    let range = Ranges::from_header("bytes=0-1023").unwrap();
    assert_eq!(range.ranges, vec![0..=1023]);

    let range = Ranges::from_header("bytes=0-50, 100-150").unwrap();
    assert_eq!(range.ranges, vec![0..=50, 100..=150]);
}

#[test]
fn test_range_read_static() {
    let body = ResponseBody::Static(b"Hello, world!".to_vec());
    let mut range = RangeResponse::new(13, Ranges::from_header("bytes=0-5").unwrap(), body);

    let mut buf = [0; 6];
    let n = range.read(&mut buf, 5).unwrap();

    assert_eq!(&buf, b"Hello,");
    assert_eq!(n, 6);
}

#[test]
fn test_range_read_static_empty() {
    let body = ResponseBody::Static(b"Hello, world!".to_vec());
    let mut range = RangeResponse::new(13, Ranges::from_header("bytes=0-0").unwrap(), body);

    let mut buf = [0; 6];
    let n = range.read(&mut buf, 0).unwrap();
    assert!(buf.iter().all(|&b| b == 0), "buf: {:?}", buf);
    assert_eq!(n, 0);
}

#[test]
fn test_static_response() {
    let body = ResponseBody::Static(b"Hello, world!".to_vec());
    let mut range = RangeResponse::new(13, Ranges::from_header("bytes=0-5").unwrap(), body);

    let mut buf = [0; 6];
    let n = range.read_parts(&mut buf).unwrap();
    assert_eq!(&buf, b"Hello,");
    assert_eq!(n, 6);
}

#[test]
fn test_range_parse_errors() {
    assert_eq!(Ranges::from_header("bytes=0-50, 100-150, 100-200"), Err(RangeError::OverlappingRange));
    assert_eq!(Ranges::from_header("bytes=0-50, 100-150, 50-200"), Err(RangeError::UnorderedRange));
    assert_eq!(Ranges::from_header("bytes=100-150, 50-60"), Err(RangeError::UnorderedRange));
}

#[test]
fn range_parse_other_errors() {
    assert_eq!(Ranges::from_header("0-5"), Err(RangeError::MissingBytesPrefix));
    assert_eq!(Ranges::from_header("bytes=5"), Err(RangeError::MalformedRange));
    assert_eq!(Ranges::from_header("bytes=a-5"), Err(RangeError::InvalidNumber));
    assert_eq!(Ranges::from_header("bytes=6-5"), Err(RangeError::InvalidRange));
    assert_eq!(RangeError::InvalidRange.message(), "Range header: Invalid range");
}

#[test]
fn test_fmt_relative_time() {
    assert_eq!(fmt_relative_time(0), "now");
    assert_eq!(fmt_relative_time(315_569_520), "10 years ago");
    assert_eq!(fmt_relative_time(20), "20 seconds ago");
    assert_eq!(fmt_relative_time(60), "1 minute ago");
    assert_eq!(fmt_relative_time(120), "2 minutes ago");
}

#[test]
fn relative_time_rounds_half_up() {
    assert_eq!(fmt_relative_time(1), "1 second ago");
    assert_eq!(fmt_relative_time(90), "2 minutes ago");
    assert_eq!(fmt_relative_time(3599), "60 minutes ago");
    assert_eq!(fmt_relative_time(86400), "1 day ago");
}
