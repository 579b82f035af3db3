use afire::error::{Error, StartupError};
use afire::internal::common;
use afire::internal::misc;

#[test]
fn common_test_parse_ip() {
    assert_eq!(common::parse_ip("123.231.43.3").unwrap(), [123, 231, 43, 3]);
    assert_eq!(common::parse_ip("123.231.43"), Err(StartupError::InvalidIp.into()));
    assert_eq!(
        common::parse_ip("256.231.43.3"),
        Err(StartupError::InvalidIp.into())
    );
}

#[test]
fn misc_test_parse_ip() {
    assert_eq!(misc::parse_ip("123.231.43.3").unwrap(), [123, 231, 43, 3]);
    assert_eq!(misc::parse_ip("123.231.43"), Err(StartupError::InvalidIp.into()));
    assert_eq!(
        misc::parse_ip("256.231.43.3"),
        Err(StartupError::InvalidIp.into())
    );
}

#[test]
fn parse_ip_localhost_and_extra_parts() {
    assert_eq!(common::parse_ip("localhost").unwrap(), [127, 0, 0, 1]);
    assert_eq!(misc::parse_ip("localhost").unwrap(), [127, 0, 0, 1]);
    // An address has exactly four parts.
    assert_eq!(common::parse_ip("1.2.3.4.5"), Err::<[u8; 4], Error>(StartupError::InvalidIp.into()));
    assert_eq!(misc::parse_ip("1.2.3.4.5"), Err::<[u8; 4], Error>(StartupError::InvalidIp.into()));
    assert!(common::parse_ip("1.2.x.4").is_err());
}
