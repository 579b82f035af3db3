use afire::http::cookie::Cookie;
use afire::http::query::Query;
use afire::http::cookie::SetCookie;
use afire::http::method::Method;
use afire::header::Header;
use std::str::FromStr;

#[test]
fn test_cookie_parse() {
    let cookie_string = "Cookie: name=value; name2=value2; name3=value3";
    let cookies = Cookie::from_string(cookie_string).unwrap();
    assert_eq!(cookies.len(), 3);
    assert_eq!(cookies[0].name, "name");
    assert_eq!(cookies[0].value, "value");
    assert_eq!(cookies[1].name, "name2");
    assert_eq!(cookies[1].value, "value2");
    assert_eq!(cookies[2].name, "name3");
    assert_eq!(cookies[2].value, "value3");
}

#[test]
fn test_ignore_cookie_parse() {
    let cookie_string = "Cookie: name=value; name2 value2; name3=value3;";
    let cookies = Cookie::from_string(cookie_string).unwrap();
    assert_eq!(cookies.len(), 2);
    assert_eq!(cookies[0].name, "name");
    assert_eq!(cookies[0].value, "value");
    assert_eq!(cookies[1].name, "name3");
    assert_eq!(cookies[1].value, "value3");
}

#[test]
fn test_invalid_cookie_parse() {
    let cookie_string = "Cookies: name=value; name2=value2; name3=value3";
    let cookies = Cookie::from_string(cookie_string);
    assert_eq!(cookies, None);
}

#[test]
fn test_from_str() {
    let query = Query::from_body("foo=bar&nose=dog");
    assert_eq!(query.get("foo"), Some("bar"));
    assert_eq!(query.get("nose"), Some("dog"));
    assert_eq!(query.get("bar"), None);
}

#[test]
fn test_get() {
    let query = Query::from_body("foo=bar&nose=dog");
    assert_eq!(query.get("foo"), Some("bar"));
    assert_eq!(query.get("nose"), Some("dog"));
    assert_eq!(query.get("bar"), None);
}

#[test]
fn test_get_mut() {
    let mut query = Query::from_body("foo=bar&nose=dog");
    assert_eq!(query.get_mut("bar"), None);
    query.get_mut("foo").unwrap().push_str("bar");
    assert_eq!(query.get("foo"), Some("barbar"));
}

#[test]
fn query_to_string_and_has() {
    let query = Query::from_body("a=1&b=2&c");
    assert!(query.has("a"));
    assert!(!query.has("c"));
    assert_eq!(query.to_string(), "?a=1&b=2");
}

#[test]
fn set_cookie_builders() {
    let cookie = SetCookie::new("name", "value").max_age(10 * 60);
    assert_eq!(cookie.max_age, Some(10 * 60));
    let cookie = SetCookie::new("name", "value").domain("domain");
    assert_eq!(cookie.domain, Some("domain".to_string()));
    let cookie = SetCookie::new("name", "value").path("path");
    assert_eq!(cookie.path, Some("path".to_string()));
    let cookie = SetCookie::new("name", "value").secure(true);
    assert_eq!(cookie.secure, true);
}

#[test]
fn set_cookie_text() {
    assert_eq!(SetCookie::new("a", "b").to_string(), "a=b;");
    let full = SetCookie::new("a", "b").max_age(10).domain("x.com").path("/").secure(true);
    assert_eq!(full.to_string(), "a=b; Max-Age=10; Domain=x.com; Path=/; Secure;");
}

#[test]
fn method_names() {
    assert!(Method::from_str("GET").unwrap() == Method::GET);
    assert!(Method::from_str("POST").unwrap() == Method::POST);
    assert!(Method::from_str("PUT").unwrap() == Method::PUT);
    assert!(Method::from_str("DELETE").unwrap() == Method::DELETE);
    assert!(Method::from_str("OPTIONS").unwrap() == Method::OPTIONS);
    assert!(Method::from_str("HEAD").unwrap() == Method::HEAD);
    assert!(Method::from_str("PATCH").unwrap() == Method::PATCH);
    assert!(Method::from_str("TRACE").unwrap() == Method::TRACE);
    assert!(Method::from_str("ANY") == Err(()));
    assert!(Method::from_str("foo") == Err(()));
    assert!(Method::from_str("get").unwrap() == Method::GET);
    assert_eq!("GET", Method::GET.to_string());
}

#[test]
fn header_text() {
    let header1 = Header::new("Content-Type", "text/html");
    assert_eq!(header1.to_string(), "Content-Type: text/html");
    let header2 = Header::from_string("Content-Type: text/html").unwrap();
    assert!(header2 == header1);
}

#[test]
fn query_round_trip_example() {
    let q = Query::from_body("foo=bar&nose=dog");
    assert_eq!(q.to_string(), "?foo=bar&nose=dog");
    let back = Query::from_body(&q.to_string()[1..]);
    assert_eq!(back.get("foo"), Some("bar"));
    assert_eq!(back.get("nose"), Some("dog"));
    assert_eq!(back.len(), 2);
}
