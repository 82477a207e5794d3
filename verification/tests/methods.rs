use request_parser::method::parse_method;
use request_parser::{ErrorKind, Method, ParseError, Scheme};

const ALL: [(Method, &str); 8] = [
    (Method::GET, "GET"),
    (Method::HEAD, "HEAD"),
    (Method::POST, "POST"),
    (Method::PUT, "PUT"),
    (Method::DELETE, "DELETE"),
    (Method::CONNECT, "CONNECT"),
    (Method::OPTIONS, "OPTIONS"),
    (Method::TRACE, "TRACE"),
];

fn unexpected_at_start() -> ParseError {
    ParseError { kind: ErrorKind::UnexpectedToken, offset: 0 }
}

#[test]
fn method_in_lower_case_leaves_the_suffix() {
    assert_eq!(parse_method("get /x"), Ok((Method::GET, " /x")));
}

#[test]
fn every_method_is_read_in_any_case() {
    for (method, token) in ALL {
        let lower = token.to_lowercase();
        let mut mixed = String::new();
        for (i, c) in token.chars().enumerate() {
            if i % 2 == 0 {
                mixed.push(c.to_ascii_lowercase());
            } else {
                mixed.push(c);
            }
        }
        for written in [token.to_string(), lower, mixed] {
            let input = format!("{} /index.html", written);
            assert_eq!(parse_method(&input), Ok((method, " /index.html")));
            assert_eq!(parse_method(&written), Ok((method, "")));
        }
    }
}

#[test]
fn method_names_agree_with_tokens() {
    for (method, token) in ALL {
        assert_eq!(method.name(), token);
        assert_eq!(Method::from_name(token), Ok(method));
        assert_eq!(Method::from_name(&token.to_lowercase()), Ok(method));
    }
}

#[test]
fn method_from_name_wants_the_whole_name() {
    assert_eq!(Method::from_name("GETS"), Err(ErrorKind::UnexpectedToken));
    assert_eq!(Method::from_name("GET "), Err(ErrorKind::UnexpectedToken));
    assert_eq!(Method::from_name("GE"), Err(ErrorKind::UnexpectedToken));
    assert_eq!(Method::from_name(""), Err(ErrorKind::UnexpectedToken));
    assert_eq!(Method::from_name("PATCH"), Err(ErrorKind::UnexpectedToken));
}

#[test]
fn text_that_is_no_method_is_refused_at_its_start() {
    for input in ["1234", "", " GET", "GE", "PATCH /", "pos", "\u{212a}", "HEA D", "TRAC\u{e9}"] {
        assert_eq!(parse_method(input), Err(unexpected_at_start()));
    }
}

#[test]
fn method_takes_no_more_than_its_token() {
    assert_eq!(parse_method("GETGET"), Ok((Method::GET, "GET")));
    assert_eq!(parse_method("PUTT"), Ok((Method::PUT, "T")));
    assert_eq!(parse_method("head\u{e9}"), Ok((Method::HEAD, "\u{e9}")));
}

#[test]
fn scheme_names() {
    assert_eq!(Scheme::HTTP.name(), "http");
    assert_eq!(Scheme::HTTPS.name(), "https");
    assert_eq!(Scheme::HTTP.prefix_text(), "http://");
    assert_eq!(Scheme::HTTPS.prefix_text(), "https://");
    assert_eq!(Scheme::from_name("http"), Ok(Scheme::HTTP));
    assert_eq!(Scheme::from_name("HTTP"), Ok(Scheme::HTTP));
    assert_eq!(Scheme::from_name("hTTpS"), Ok(Scheme::HTTPS));
    assert_eq!(Scheme::from_name("httpx"), Err(ErrorKind::UnexpectedToken));
    assert_eq!(Scheme::from_name("htt"), Err(ErrorKind::UnexpectedToken));
    assert_eq!(Scheme::from_name("http://"), Err(ErrorKind::UnexpectedToken));
    assert_eq!(Scheme::from_name(""), Err(ErrorKind::UnexpectedToken));
}
