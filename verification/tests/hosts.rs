use request_parser::number::{one_digit, one_to_three_digits, two_to_four_digits};
use request_parser::{
    format_ipv4, parse_host, parse_ipv4, parse_named_host, parse_octet, parse_port,
    parse_wildcard, ErrorKind, Host, ParseError,
};

fn failure(kind: ErrorKind, offset: usize) -> ParseError {
    ParseError { kind, offset }
}

#[test]
fn single_digits() {
    assert_eq!(one_digit("0"), Ok(('0', "")));
    assert_eq!(one_digit("95"), Ok(('9', "5")));
    assert_eq!(one_digit("5a"), Ok(('5', "a")));
    assert_eq!(one_digit("a5"), Err(failure(ErrorKind::InvalidCharacterClass, 0)));
    assert_eq!(one_digit("/"), Err(failure(ErrorKind::InvalidCharacterClass, 0)));
    assert_eq!(one_digit(":"), Err(failure(ErrorKind::InvalidCharacterClass, 0)));
    assert_eq!(one_digit(""), Err(failure(ErrorKind::InvalidCharacterClass, 0)));
}

#[test]
fn digits_are_capped() {
    assert_eq!(one_to_three_digits("1"), Ok(("1", "")));
    assert_eq!(one_to_three_digits("12a"), Ok(("12", "a")));
    assert_eq!(one_to_three_digits("1234"), Ok(("123", "4")));
    assert_eq!(one_to_three_digits("000144"), Ok(("000", "144")));
    assert_eq!(one_to_three_digits(""), Err(failure(ErrorKind::InvalidCharacterClass, 0)));
    assert_eq!(one_to_three_digits("a1"), Err(failure(ErrorKind::InvalidCharacterClass, 0)));
    assert_eq!(two_to_four_digits("80"), Ok(("80", "")));
    assert_eq!(two_to_four_digits("8080/"), Ok(("8080", "/")));
    assert_eq!(two_to_four_digits("80801"), Ok(("8080", "1")));
    assert_eq!(two_to_four_digits("8"), Err(failure(ErrorKind::InvalidCharacterClass, 1)));
    assert_eq!(two_to_four_digits("8/"), Err(failure(ErrorKind::InvalidCharacterClass, 1)));
    assert_eq!(two_to_four_digits(""), Err(failure(ErrorKind::InvalidCharacterClass, 0)));
}

#[test]
fn octets() {
    assert_eq!(parse_octet("0"), Ok((0, "")));
    assert_eq!(parse_octet("7."), Ok((7, ".")));
    assert_eq!(parse_octet("007"), Ok((7, "")));
    assert_eq!(parse_octet("255"), Ok((255, "")));
    assert_eq!(parse_octet("2555"), Ok((255, "5")));
    assert_eq!(parse_octet("256"), Err(failure(ErrorKind::OutOfRange, 3)));
    assert_eq!(parse_octet("999.1"), Err(failure(ErrorKind::OutOfRange, 3)));
    assert_eq!(parse_octet("x"), Err(failure(ErrorKind::InvalidCharacterClass, 0)));
    assert_eq!(parse_octet(""), Err(failure(ErrorKind::InvalidCharacterClass, 0)));
}

#[test]
fn ports() {
    assert_eq!(parse_port(":8080"), Ok((8080, "")));
    assert_eq!(parse_port(":80/index"), Ok((80, "/index")));
    assert_eq!(parse_port(":0080"), Ok((80, "")));
    assert_eq!(parse_port(":00"), Ok((0, "")));
    assert_eq!(parse_port(":9999"), Ok((9999, "")));
    assert_eq!(parse_port(":65535"), Ok((6553, "5")));
    assert_eq!(parse_port(":8"), Err(failure(ErrorKind::InvalidCharacterClass, 2)));
    assert_eq!(parse_port(":"), Err(failure(ErrorKind::InvalidCharacterClass, 1)));
    assert_eq!(parse_port(":x"), Err(failure(ErrorKind::InvalidCharacterClass, 1)));
    assert_eq!(parse_port("8080"), Err(failure(ErrorKind::UnexpectedToken, 0)));
    assert_eq!(parse_port(""), Err(failure(ErrorKind::UnexpectedToken, 0)));
}

#[test]
fn octet_out_of_range_and_digit_cap() {
    assert_eq!(parse_ipv4("999.168.0.0"), Err(failure(ErrorKind::OutOfRange, 3)));
    assert_eq!(parse_ipv4("192.168.0.1444"), Ok(([192, 168, 0, 144], "4")));
    assert_eq!(parse_ipv4("192.168.0.256"), Err(failure(ErrorKind::OutOfRange, 13)));
}

#[test]
fn address_failures() {
    assert_eq!(parse_ipv4(""), Err(failure(ErrorKind::InvalidCharacterClass, 0)));
    assert_eq!(parse_ipv4("a.b.c.d"), Err(failure(ErrorKind::InvalidCharacterClass, 0)));
    assert_eq!(parse_ipv4("1.2.3."), Err(failure(ErrorKind::InvalidCharacterClass, 6)));
    assert_eq!(parse_ipv4("1.2.3"), Err(failure(ErrorKind::UnexpectedToken, 5)));
    assert_eq!(parse_ipv4("1..2.3"), Err(failure(ErrorKind::InvalidCharacterClass, 2)));
    assert_eq!(parse_ipv4("1,2,3,4"), Err(failure(ErrorKind::UnexpectedToken, 1)));
}

#[test]
fn address_with_leading_zeros() {
    assert_eq!(parse_ipv4("001.002.003.004"), Ok(([1, 2, 3, 4], "")));
    assert_eq!(parse_ipv4("1.2.3.4.5"), Ok(([1, 2, 3, 4], ".5")));
}

#[test]
fn address_text() {
    assert_eq!(format_ipv4([192, 168, 0, 1]), "192.168.0.1");
    assert_eq!(format_ipv4([0, 0, 0, 0]), "0.0.0.0");
    assert_eq!(format_ipv4([255, 255, 255, 255]), "255.255.255.255");
    assert_eq!(format_ipv4([1, 20, 100, 9]), "1.20.100.9");
    assert_eq!(format_ipv4([10, 99, 101, 200]), "10.99.101.200");
}

#[test]
fn address_round_trip() {
    let samples: [u8; 12] = [0, 1, 9, 10, 11, 99, 100, 101, 199, 200, 254, 255];
    for a in samples {
        for b in samples {
            let octets = [a, b, b.wrapping_add(a), a ^ b];
            let text = format_ipv4(octets);
            assert_eq!(parse_ipv4(&text), Ok((octets, "")));
            let (read, _) = parse_ipv4(&text).unwrap();
            assert_eq!(format_ipv4(read), text);
            let followed = format!("{}:8080", text);
            assert_eq!(parse_ipv4(&followed), Ok((octets, ":8080")));
            assert_eq!(parse_host(&followed), Ok((Host::IPv4(octets), ":8080")));
        }
    }
}

#[test]
fn address_before_name() {
    assert_eq!(parse_host("192.168.0.1:8080"), Ok((Host::IPv4([192, 168, 0, 1]), ":8080")));
    assert_eq!(
        parse_named_host("192.168.0.1:8080"),
        Ok((Host::Named("192".to_string()), ".168.0.1:8080"))
    );
}

#[test]
fn name_with_hyphens() {
    assert_eq!(
        parse_host("some-subsite.example.org:8080"),
        Ok((Host::Named("some-subsite.example.org".to_string()), ":8080"))
    );
    assert_eq!(parse_host("-a-.b-.c"), Ok((Host::Named("-a-.b-.c".to_string()), "")));
}

#[test]
fn name_must_begin_with_a_label() {
    let expected = Err(failure(ErrorKind::InvalidCharacterClass, 0));
    assert_eq!(parse_host(".com"), expected);
    assert_eq!(parse_host("$$$.com"), expected);
    assert_eq!(parse_host(""), expected);
    assert_eq!(parse_host("*"), expected);
    assert_eq!(parse_host("\u{e9}cole.fr"), expected);
    assert_eq!(parse_named_host(""), expected);
}

#[test]
fn name_falls_back_to_first_label() {
    assert_eq!(parse_host("localhost"), Ok((Host::Named("localhost".to_string()), "")));
    assert_eq!(parse_host("localhost/x"), Ok((Host::Named("localhost".to_string()), "/x")));
    assert_eq!(parse_host("example.123"), Ok((Host::Named("example".to_string()), ".123")));
    assert_eq!(parse_host("a.b.1"), Ok((Host::Named("a".to_string()), ".b.1")));
    assert_eq!(parse_host("example."), Ok((Host::Named("example".to_string()), ".")));
    assert_eq!(parse_host("example.org."), Ok((Host::Named("example".to_string()), ".org.")));
    assert_eq!(parse_host("a..b"), Ok((Host::Named("a".to_string()), "..b")));
    assert_eq!(parse_host("999.168.0.0"), Ok((Host::Named("999".to_string()), ".168.0.0")));
    assert_eq!(parse_host("192.168.0"), Ok((Host::Named("192".to_string()), ".168.0")));
}

#[test]
fn name_ends_with_letters() {
    assert_eq!(parse_host("a.b.c1"), Ok((Host::Named("a.b.c".to_string()), "1")));
    assert_eq!(parse_host("a.b.c-d"), Ok((Host::Named("a.b.c".to_string()), "-d")));
    assert_eq!(parse_host("1.2.3.x"), Ok((Host::Named("1.2.3.x".to_string()), "")));
    assert_eq!(
        parse_host("example.org\u{e9}"),
        Ok((Host::Named("example.org".to_string()), "\u{e9}"))
    );
}

#[test]
fn wildcard() {
    assert_eq!(parse_wildcard("*"), Ok((Host::Wildcard, "")));
    assert_eq!(parse_wildcard("* HTTP/1.1"), Ok((Host::Wildcard, " HTTP/1.1")));
    assert_eq!(parse_wildcard("**"), Ok((Host::Wildcard, "*")));
    assert_eq!(parse_wildcard("a*"), Err(failure(ErrorKind::UnexpectedToken, 0)));
    assert_eq!(parse_wildcard(""), Err(failure(ErrorKind::UnexpectedToken, 0)));
}

#[test]
fn host_text() {
    assert_eq!(Host::Named("example.org".to_string()).to_text(), "example.org");
    assert_eq!(Host::IPv4([127, 0, 0, 1]).to_text(), "127.0.0.1");
    assert_eq!(Host::Wildcard.to_text(), "*");
}
