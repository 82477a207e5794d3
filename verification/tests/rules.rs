use request_parser::{
    parse_authority, parse_header, parse_headers, parse_ipv4, parse_method, parse_named_host,
    Authority, ErrorKind, Host, Method, ParseError,
};

/// The failure of kind `kind` that leaves `remaining` of `input` unread.
fn failure(kind: ErrorKind, input: &str, remaining: &str) -> ParseError {
    assert!(input.ends_with(remaining));
    ParseError { kind, offset: input.len() - remaining.len() }
}

#[test]
fn test_request_method() {
    assert_eq!(parse_method("GET 1234"), Ok((Method::GET, " 1234")));
    assert_eq!(
        parse_method("1234"),
        Err(failure(ErrorKind::UnexpectedToken, "1234", "1234"))
    );
    assert_eq!(parse_method("PUT POST"), Ok((Method::PUT, " POST")));
}

#[test]
fn test_authority() {
    assert_eq!(
        parse_authority("username:password@zupzup.org"),
        Ok((
            Some(Authority {
                username: "username".to_string(),
                password: Some("password".to_string())
            }),
            "zupzup.org"
        ))
    );
    assert_eq!(
        parse_authority("username@zupzup.org"),
        Ok((
            Some(Authority { username: "username".to_string(), password: None }),
            "zupzup.org"
        ))
    );
    assert_eq!(parse_authority("zupzup.org"), Ok((None, "zupzup.org")));
    assert_eq!(parse_authority(":zupzup.org"), Ok((None, ":zupzup.org")));
    assert_eq!(
        parse_authority("username:passwordzupzup.org"),
        Ok((None, "username:passwordzupzup.org"))
    );
    assert_eq!(parse_authority("@zupzup.org"), Ok((None, "@zupzup.org")));
}

#[test]
fn test_host() {
    assert_eq!(
        parse_named_host("localhost:8080"),
        Ok((Host::Named("localhost".to_string()), ":8080"))
    );
    assert_eq!(
        parse_named_host("example.org:8080"),
        Ok((Host::Named("example.org".to_string()), ":8080"))
    );
    assert_eq!(
        parse_named_host("some-subsite.example.org:8080"),
        Ok((Host::Named("some-subsite.example.org".to_string()), ":8080"))
    );
    assert_eq!(
        parse_named_host("example.123"),
        Ok((Host::Named("example".to_string()), ".123"))
    );
    assert_eq!(
        parse_named_host("$$$.com"),
        Err(failure(ErrorKind::InvalidCharacterClass, "$$$.com", "$$$.com"))
    );
    assert_eq!(
        parse_named_host(".com"),
        Err(failure(ErrorKind::InvalidCharacterClass, ".com", ".com"))
    );
}

#[test]
fn test_ipv4() {
    assert_eq!(parse_ipv4("192.168.0.1:8080"), Ok(([192, 168, 0, 1], ":8080")));
    assert_eq!(parse_ipv4("0.0.0.0:8080"), Ok(([0, 0, 0, 0], ":8080")));
    assert_eq!(
        parse_ipv4("1924.168.0.1:8080"),
        Err(failure(ErrorKind::UnexpectedToken, "1924.168.0.1:8080", "4.168.0.1:8080"))
    );
    assert_eq!(
        parse_ipv4("192.168.0000.144:8080"),
        Err(failure(ErrorKind::UnexpectedToken, "192.168.0000.144:8080", "0.144:8080"))
    );
    assert_eq!(parse_ipv4("192.168.0.1444:8080"), Ok(([192, 168, 0, 144], "4:8080")));
    assert_eq!(
        parse_ipv4("192.168.0:8080"),
        Err(failure(ErrorKind::UnexpectedToken, "192.168.0:8080", ":8080"))
    );
    assert_eq!(
        parse_ipv4("999.168.0.0:8080"),
        Err(failure(ErrorKind::OutOfRange, "999.168.0.0:8080", ".168.0.0:8080"))
    );
}

#[test]
fn test_header() {
    assert_eq!(
        parse_header("Content-Type: application/json\nabc"),
        Ok((("Content-Type".to_string(), "application/json".to_string()), "abc"))
    );
    assert_eq!(
        parse_header("Content-Type  :          application/json\nabc"),
        Ok((("Content-Type".to_string(), "application/json".to_string()), "abc"))
    );
    assert_eq!(
        parse_header("Some1:123$$$%*%*\nabc"),
        Ok((("Some1".to_string(), "123$$$%*%*".to_string()), "abc"))
    );
}

#[test]
fn test_headers() {
    assert_eq!(
        parse_headers("Content-Type: application/json\nAuthorization: pw\nHost: zupzup.org\nabc"),
        Ok((
            vec![
                ("Content-Type".to_string(), "application/json".to_string()),
                ("Authorization".to_string(), "pw".to_string()),
                ("Host".to_string(), "zupzup.org".to_string())
            ],
            "abc"
        ))
    );
}
