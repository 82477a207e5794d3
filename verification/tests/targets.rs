use request_parser::uri::{
    optional_port, parse_fragment, parse_pair, parse_pairs, parse_path, parse_query, parse_tail,
    Tail,
};
use request_parser::{
    parse_scheme, parse_uri, Authority, ErrorKind, Host, ParseError, Scheme, Uri,
};

fn failure(kind: ErrorKind, offset: usize) -> ParseError {
    ParseError { kind, offset }
}

fn pair(key: &str, value: &str) -> (String, String) {
    (key.to_string(), value.to_string())
}

fn text(t: &str) -> Option<String> {
    Some(t.to_string())
}

fn origin(path: &str, query: Option<Vec<(String, String)>>) -> Uri {
    Uri {
        scheme: None,
        authority: None,
        host: Host::Wildcard,
        port: None,
        path: text(path),
        query,
        fragment: None,
    }
}

fn absolute(scheme: Scheme, host: Host) -> Uri {
    Uri {
        scheme: Some(scheme),
        authority: None,
        host,
        port: None,
        path: None,
        query: None,
        fragment: None,
    }
}

fn named(name: &str) -> Host {
    Host::Named(name.to_string())
}

#[test]
fn schemes() {
    assert_eq!(parse_scheme("http://x"), Ok((Scheme::HTTP, "x")));
    assert_eq!(parse_scheme("HTTPS://x"), Ok((Scheme::HTTPS, "x")));
    assert_eq!(parse_scheme("hTtP://"), Ok((Scheme::HTTP, "")));
    assert_eq!(parse_scheme("http:/x"), Err(failure(ErrorKind::UnexpectedToken, 0)));
    assert_eq!(parse_scheme("https//x"), Err(failure(ErrorKind::UnexpectedToken, 0)));
    assert_eq!(parse_scheme("ftp://x"), Err(failure(ErrorKind::UnexpectedToken, 0)));
    assert_eq!(parse_scheme(""), Err(failure(ErrorKind::UnexpectedToken, 0)));
}

#[test]
fn optional_parts() {
    assert_eq!(optional_port(":8080/x"), (Some(8080), "/x"));
    assert_eq!(optional_port(":8/x"), (None, ":8/x"));
    assert_eq!(optional_port("/x"), (None, "/x"));
    assert_eq!(parse_path("/a/b?c"), (text("/a/b"), "?c"));
    assert_eq!(parse_path("/ x"), (text("/"), " x"));
    assert_eq!(parse_path("a/b"), (None, "a/b"));
    assert_eq!(parse_path(""), (None, ""));
    assert_eq!(parse_fragment("#top rest"), (text("top"), " rest"));
    assert_eq!(parse_fragment("#"), (text(""), ""));
    assert_eq!(parse_fragment("#a#b?c"), (text("a#b?c"), ""));
    assert_eq!(parse_fragment("top"), (None, "top"));
}

#[test]
fn what_stands_behind_the_host() {
    assert_eq!(
        parse_tail(":8080/a?b=c#d e"),
        (
            Tail {
                port: Some(8080),
                path: text("/a"),
                query: Some(vec![pair("b", "c")]),
                fragment: text("d"),
            },
            " e"
        )
    );
    assert_eq!(
        parse_tail("#d?b=c/a:8080"),
        (Tail { port: None, path: None, query: None, fragment: text("d?b=c/a:8080") }, "")
    );
    assert_eq!(
        parse_tail("?b/a"),
        (Tail { port: None, path: None, query: Some(vec![pair("b/a", "")]), fragment: None }, "")
    );
    assert_eq!(
        parse_tail(" :80"),
        (Tail { port: None, path: None, query: None, fragment: None }, " :80")
    );
    assert_eq!(parse_tail(""), (Tail { port: None, path: None, query: None, fragment: None }, ""));
}

#[test]
fn pairs() {
    assert_eq!(parse_pair("k=v&x"), (pair("k", "v"), "&x"));
    assert_eq!(parse_pair("k&x"), (pair("k", ""), "&x"));
    assert_eq!(parse_pair("k="), (pair("k", ""), ""));
    assert_eq!(parse_pair("=v"), (pair("", "v"), ""));
    assert_eq!(parse_pair("k=v=w#f"), (pair("k", "v=w"), "#f"));
    assert_eq!(parse_pair(""), (pair("", ""), ""));
    assert_eq!(parse_pairs("a=1&b=2 x"), (vec![pair("a", "1"), pair("b", "2")], " x"));
    assert_eq!(parse_pairs("a"), (vec![pair("a", "")], ""));
    assert_eq!(parse_pairs("&"), (vec![pair("", ""), pair("", "")], ""));
}

#[test]
fn queries() {
    assert_eq!(parse_query("?q=1 HTTP/1.1"), (Some(vec![pair("q", "1")]), " HTTP/1.1"));
    assert_eq!(parse_query("?"), (Some(vec![]), ""));
    assert_eq!(parse_query("? "), (Some(vec![]), " "));
    assert_eq!(parse_query("?#f"), (Some(vec![]), "#f"));
    assert_eq!(
        parse_query("?x&y=2&&=3"),
        (Some(vec![pair("x", ""), pair("y", "2"), pair("", ""), pair("", "3")]), "")
    );
    assert_eq!(
        parse_query("?n=\u{e9}&\u{e9}=n"),
        (Some(vec![pair("n", "\u{e9}"), pair("\u{e9}", "n")]), "")
    );
    assert_eq!(parse_query("q=1"), (None, "q=1"));
    assert_eq!(parse_query(""), (None, ""));
}

#[test]
fn wildcard_target() {
    let star = Uri {
        scheme: None,
        authority: None,
        host: Host::Wildcard,
        port: None,
        path: None,
        query: None,
        fragment: None,
    };
    assert_eq!(parse_uri("*"), Ok((star.clone(), "")));
    assert_eq!(parse_uri("* HTTP/1.1"), Ok((star.clone(), " HTTP/1.1")));
    assert_eq!(parse_uri("*/x"), Ok((star, "/x")));
}

#[test]
fn origin_form() {
    assert_eq!(parse_uri("/"), Ok((origin("/", None), "")));
    assert_eq!(
        parse_uri("/path?q=1 HTTP/1.1"),
        Ok((origin("/path", Some(vec![pair("q", "1")])), " HTTP/1.1"))
    );
    assert_eq!(parse_uri("/a?"), Ok((origin("/a", Some(vec![])), "")));
    assert_eq!(parse_uri("/a#frag"), Ok((origin("/a", None), "#frag")));
    assert_eq!(parse_uri("/a?b#frag"), Ok((origin("/a", Some(vec![pair("b", "")])), "#frag")));
    assert_eq!(parse_uri("//example.org/x"), Ok((origin("//example.org/x", None), "")));
    assert_eq!(
        parse_uri("/caf\u{e9}?n=\u{e9}"),
        Ok((origin("/caf\u{e9}", Some(vec![pair("n", "\u{e9}")])), ""))
    );
}

#[test]
fn absolute_form() {
    assert_eq!(
        parse_uri("http://example.org"),
        Ok((absolute(Scheme::HTTP, named("example.org")), ""))
    );
    assert_eq!(
        parse_uri("HTTPS://user@Example.org:443/ x"),
        Ok((
            Uri {
                authority: Some(Authority { username: "user".to_string(), password: None }),
                port: Some(443),
                path: text("/"),
                ..absolute(Scheme::HTTPS, named("Example.org"))
            },
            " x"
        ))
    );
    assert_eq!(
        parse_uri("http://user:pw@10.0.0.1:8080/p/q?a=1#top"),
        Ok((
            Uri {
                authority: Some(Authority {
                    username: "user".to_string(),
                    password: text("pw")
                }),
                port: Some(8080),
                path: text("/p/q"),
                query: Some(vec![pair("a", "1")]),
                fragment: text("top"),
                ..absolute(Scheme::HTTP, Host::IPv4([10, 0, 0, 1]))
            },
            ""
        ))
    );
    assert_eq!(
        parse_uri("http://user:@host/"),
        Ok((
            Uri {
                authority: Some(Authority { username: "user".to_string(), password: None }),
                path: text("/"),
                ..absolute(Scheme::HTTP, named("host"))
            },
            ""
        ))
    );
    assert_eq!(
        parse_uri("http://localhost:8080/"),
        Ok((
            Uri { port: Some(8080), path: text("/"), ..absolute(Scheme::HTTP, named("localhost")) },
            ""
        ))
    );
}

#[test]
fn absent_parts_of_an_absolute_uri() {
    assert_eq!(
        parse_uri("http://example.org?x=1#f"),
        Ok((
            Uri {
                query: Some(vec![pair("x", "1")]),
                fragment: text("f"),
                ..absolute(Scheme::HTTP, named("example.org"))
            },
            ""
        ))
    );
    assert_eq!(
        parse_uri("http://example.org#f?x"),
        Ok((Uri { fragment: text("f?x"), ..absolute(Scheme::HTTP, named("example.org")) }, ""))
    );
    assert_eq!(
        parse_uri("http://example.org:8/"),
        Ok((absolute(Scheme::HTTP, named("example.org")), ":8/"))
    );
    assert_eq!(
        parse_uri("http://example.org:80800"),
        Ok((Uri { port: Some(8080), ..absolute(Scheme::HTTP, named("example.org")) }, "0"))
    );
    assert_eq!(
        parse_uri("http://999.168.0.0/"),
        Ok((absolute(Scheme::HTTP, named("999")), ".168.0.0/"))
    );
}

#[test]
fn target_failures() {
    assert_eq!(parse_uri(""), Err(failure(ErrorKind::UnexpectedToken, 0)));
    assert_eq!(parse_uri("ftp://x"), Err(failure(ErrorKind::UnexpectedToken, 0)));
    assert_eq!(parse_uri("example.org/x"), Err(failure(ErrorKind::UnexpectedToken, 0)));
    assert_eq!(parse_uri(" /"), Err(failure(ErrorKind::UnexpectedToken, 0)));
    assert_eq!(parse_uri("http:///path"), Err(failure(ErrorKind::InvalidCharacterClass, 7)));
    assert_eq!(parse_uri("http://"), Err(failure(ErrorKind::InvalidCharacterClass, 7)));
    assert_eq!(parse_uri("https://$$$.com"), Err(failure(ErrorKind::InvalidCharacterClass, 8)));
    assert_eq!(parse_uri("http://u:p@"), Err(failure(ErrorKind::InvalidCharacterClass, 11)));
    assert_eq!(parse_uri("http://u:p@.org"), Err(failure(ErrorKind::InvalidCharacterClass, 11)));
}

#[test]
fn target_text() {
    for written in [
        "*",
        "/",
        "/a/b?x=1&y=2",
        "http://example.org",
        "https://user:pw@example.org:8080/p?q=1#f",
        "http://10.0.0.1:80/",
        "http://user@host?=",
    ] {
        let (uri, rest) = parse_uri(written).unwrap();
        assert_eq!(rest, "");
        assert_eq!(uri.to_text(), written);
    }
    let (uri, _) = parse_uri("HTTP://Example.org:0080/a?k&l=#").unwrap();
    assert_eq!(uri.to_text(), "http://Example.org:80/a?k=&l=#");
    let (uri, _) = parse_uri("http://001.002.003.004:00").unwrap();
    assert_eq!(uri.to_text(), "http://1.2.3.4:00");
    let (uri, _) = parse_uri("http://host:07").unwrap();
    assert_eq!(uri.to_text(), "http://host:07");
}
