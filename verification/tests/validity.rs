use request_parser::text::CharClass;
use request_parser::valid::{is_all_in, is_valid_name};
use request_parser::{parse_request, Authority, Host, Method, Request, Scheme, Uri, Version};

fn pair(key: &str, value: &str) -> (String, String) {
    (key.to_string(), value.to_string())
}

fn sample() -> Request {
    Request {
        method: Method::GET,
        uri: Uri {
            scheme: Some(Scheme::HTTP),
            authority: Some(Authority {
                username: "user".to_string(),
                password: Some("pw".to_string()),
            }),
            host: Host::Named("example.org".to_string()),
            port: Some(8080),
            path: Some("/path".to_string()),
            query: Some(vec![pair("q", "1")]),
            fragment: Some("top".to_string()),
        },
        version: Version::Http11,
        headers: vec![pair("Host", "example.org")],
    }
}

fn read_back(request: &Request) -> bool {
    parse_request(&request.to_text()) == Ok((request.clone(), ""))
}

#[test]
fn classes_of_whole_texts() {
    assert!(is_all_in("", CharClass::Digit));
    assert!(is_all_in("0123", CharClass::Digit));
    assert!(!is_all_in("012a", CharClass::Digit));
    assert!(is_all_in("a-b", CharClass::Label));
    assert!(!is_all_in("a.b", CharClass::Label));
    assert!(is_all_in("K\u{e4}se", CharClass::Line));
    assert!(!is_all_in("a\nb", CharClass::Line));
}

#[test]
fn host_names() {
    for name in ["example.org", "localhost", "a-b.c", "1.2.x", "8080", "-", "a.b.c.d.e"] {
        assert!(is_valid_name(name), "{:?} should be valid", name);
    }
    for name in [
        "",
        "1.2.3.4",
        "a..b",
        "a.b.c1",
        "example.org.",
        ".org",
        "a b",
        "a/b",
        "ex\u{e4}mple",
        "a.1",
    ] {
        assert!(!is_valid_name(name), "{:?} should not be valid", name);
    }
}

#[test]
fn what_is_read_is_valid() {
    for input in [
        "GET http://example.org:8080/path?q=1 HTTP/1.1\nHost: example.org\n\n",
        "options * HTTP/1.0\r\n\r\n",
        "POST /a?b HTTP/1.1\nX:  y \nX:\n\n",
        "PUT https://u:p@10.0.0.1:00#f HTTP/1.1\n\n",
    ] {
        let (request, _) = parse_request(input).unwrap();
        assert!(request.is_valid(), "for {:?}", input);
        assert!(request.uri.is_valid());
        assert!(read_back(&request));
    }
}

#[test]
fn a_valid_request_is_read_back() {
    let request = sample();
    assert!(request.is_valid());
    assert!(read_back(&request));
}

#[test]
fn requests_that_no_text_is_read_as() {
    let mut cases: Vec<Request> = Vec::new();
    let mut r = sample();
    r.uri.path = Some("path".to_string());
    cases.push(r);
    let mut r = sample();
    r.uri.path = Some("/a b".to_string());
    cases.push(r);
    let mut r = sample();
    r.uri.path = Some("".to_string());
    cases.push(r);
    let mut r = sample();
    r.uri.host = Host::Wildcard;
    cases.push(r);
    let mut r = sample();
    r.uri.host = Host::Named("1.2.3.4".to_string());
    cases.push(r);
    let mut r = sample();
    r.uri.host = Host::Named("example.org/".to_string());
    cases.push(r);
    let mut r = sample();
    r.uri.port = Some(10000);
    cases.push(r);
    let mut r = sample();
    r.uri.authority = Some(Authority { username: "".to_string(), password: None });
    cases.push(r);
    let mut r = sample();
    r.uri.authority =
        Some(Authority { username: "user".to_string(), password: Some("".to_string()) });
    cases.push(r);
    let mut r = sample();
    r.uri.authority = Some(Authority { username: "us-er".to_string(), password: None });
    cases.push(r);
    let mut r = sample();
    r.uri.query = Some(vec![pair("a=b", "c")]);
    cases.push(r);
    let mut r = sample();
    r.uri.query = Some(vec![pair("a", "b&c")]);
    cases.push(r);
    let mut r = sample();
    r.uri.fragment = Some("a b".to_string());
    cases.push(r);
    let mut r = sample();
    r.uri.scheme = None;
    cases.push(r);
    let mut r = sample();
    r.headers = vec![pair("Ho st", "x")];
    cases.push(r);
    let mut r = sample();
    r.headers = vec![pair("", "x")];
    cases.push(r);
    let mut r = sample();
    r.headers = vec![pair("Host", " x")];
    cases.push(r);
    let mut r = sample();
    r.headers = vec![pair("Host", "x\ny")];
    cases.push(r);
    for request in cases {
        assert!(!request.is_valid(), "{:?} should not be valid", request);
        assert!(!read_back(&request), "{:?} should not be read back", request);
    }
}

#[test]
fn targets_without_a_scheme() {
    let star = Uri {
        scheme: None,
        authority: None,
        host: Host::Wildcard,
        port: None,
        path: None,
        query: None,
        fragment: None,
    };
    assert!(star.is_valid());
    let origin = Uri { path: Some("/".to_string()), query: Some(vec![]), ..star.clone() };
    assert!(origin.is_valid());
    let query_alone = Uri { query: Some(vec![]), ..star.clone() };
    assert!(!query_alone.is_valid());
    let with_fragment =
        Uri { path: Some("/".to_string()), fragment: Some("f".to_string()), ..star.clone() };
    assert!(!with_fragment.is_valid());
    let with_port = Uri { path: Some("/".to_string()), port: Some(80), ..star.clone() };
    assert!(!with_port.is_valid());
    let with_host = Uri { host: Host::Named("x".to_string()), ..star };
    assert!(!with_host.is_valid());
}

#[test]
fn parts() {
    assert!(Host::IPv4([1, 2, 3, 4]).is_valid());
    assert!(Host::Named("example.org".to_string()).is_valid());
    assert!(!Host::Wildcard.is_valid());
    assert!(Authority { username: "a1".to_string(), password: None }.is_valid());
    assert!(!Authority { username: "a:1".to_string(), password: None }.is_valid());
}
