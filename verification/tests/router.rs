use afire::error::{Error, PathError, StartupError};
use afire::internal::router::Path;

fn check(route: &str, path: &str, expected: Option<&[(&str, &str)]>) {
    let r = Path::new(route).unwrap();
    let res = r.matches(path);
    match (&res, expected) {
        (None, None) => {}
        (Some(res), Some(expected)) => {
            for (key, val) in expected {
                assert_eq!(res.get(key, path).unwrap(), *val, "{} on {}", route, path);
            }
        }
        _ => panic!("`{}`.matches(`{}`) gave the wrong outcome", route, path),
    }
}

#[test]
fn basic_1() {
    check("/", "/", Some(&[]));
    check("/", "/a", None);
    check("/", "", None);
}

#[test]
fn basic_2() {
    check("/send-2", "/send-2", Some(&[]));
    check("/send-2", "/send-2/", None);
    check("/send-2", "/", None);
}

#[test]
fn parameters_1() {
    check("/hello{world}world/E", "/hellopeople!worldworld/E", Some(&[("world", "people!world")]));
    check("/hello{world}world/E", "/helloworld/E", Some(&[("world", "")]));
}

#[test]
fn parameters_2() {
    check("/file/{name}.{ext}", "/file/hello.txt", Some(&[("name", "hello"), ("ext", "txt")]));
    check("/file/{name}.{ext}", "/file/hello", None);
    check("/file/{name}.{ext}", "/file/hello.txt/", None);
}

#[test]
fn parameters_2_trailing() {
    check("/file/{name}.{ext}/", "/file/hello.txt", None);
    check("/file/{name}.{ext}/", "/file/hello", None);
    check("/file/{name}.{ext}/", "/file/hello.txt/", Some(&[("name", "hello"), ("ext", "txt")]));
}

#[test]
fn parameters_3() {
    check("/api/get/{name}", "/api/get/john", Some(&[("name", "john")]));
    check("/api/get/{name}", "/api/get/", Some(&[("name", "")]));
    check("/api/get/{name}", "/api/get", None);
}

#[test]
fn wildcard_1() {
    check("/hello*!", "/hello!", Some(&[]));
    check("/hello*!", "/hello", None);
    check("/hello*!", "/helloworld!", Some(&[]));
    check("/hello*!", "/helloworld", None);
    check("/hello*!", "/hello/world!", None);
}

#[test]
fn wildcard_2() {
    check("/hello/*", "/hello/", Some(&[]));
    check("/hello/*", "/hello", None);
    check("/hello/*", "/hello/world", Some(&[]));
}

#[test]
fn any_1() {
    check("/hello/**", "/hello", None);
    check("/hello/**", "/hello/", Some(&[]));
    check("/hello/**", "/hello/world", Some(&[]));
    check("/hello/**", "/hello/world/", Some(&[]));
    check("/hello/**", "/hello/world/!", Some(&[]));
}

#[test]
fn test_path_display() {
    let cases: &[&str] = &["/", "/hello", "/hello/world", "/hello/{name}", "/hello/{name}/"];
    for i in cases {
        let path = Path::new(i).unwrap();
        assert_eq!(path.to_string(), *i);
    }
}

#[test]
fn router_display_round_trips_specials() {
    for i in ["/a/*/b", "/x/**", "/{a}.{b}", "**"] {
        assert_eq!(Path::new(i).unwrap().to_string(), i);
    }
}

#[test]
fn router_rejects_bad_routes() {
    let cases = [
        ("/{a}{b}", PathError::AmbiguousPath),
        ("/a/*{b}", PathError::AmbiguousPath),
        ("/{a", PathError::UnterminatedParameter),
        ("/{a{b}}", PathError::NestedParameter),
    ];
    for (route, expected) in cases {
        match Path::new(route) {
            Err(Error::Startup(StartupError::Path { error, route: r })) => {
                assert_eq!(error, expected);
                assert_eq!(r, route);
            }
            _ => panic!("{} should be refused", route),
        }
    }
}

#[test]
fn router_parameter_by_index() {
    let r = Path::new("/file/{name}.{ext}").unwrap();
    let p = r.matches("/file/a.b").unwrap();
    assert_eq!(p.get_index(0, "/file/a.b"), Some("a"));
    assert_eq!(p.get_index(1, "/file/a.b"), Some("b"));
    assert_eq!(p.get("missing", "/file/a.b"), None);
}

#[test]
fn rooted_routes_are_matchable() {
    assert!(Path::new("/").unwrap().matchable());
    assert!(Path::new("/hello/{name}").unwrap().matchable());
    assert!(Path::new("/files/**").unwrap().matchable());
    assert!(!Path::new("hello").unwrap().matchable());
    assert!(!Path::new("").unwrap().matchable());
}
