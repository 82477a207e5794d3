use request_parser::header::{line_end, spaced_colon};
use request_parser::{parse_header, parse_headers, ErrorKind, Header, ParseError};

fn failure(kind: ErrorKind, offset: usize) -> ParseError {
    ParseError { kind, offset }
}

fn field(name: &str, value: &str) -> Header {
    (name.to_string(), value.to_string())
}

#[test]
fn header_block_in_input_order() {
    assert_eq!(
        parse_headers("Content-Type: application/json\nHost: x\nbody"),
        Ok((vec![field("Content-Type", "application/json"), field("Host", "x")], "body"))
    );
}

#[test]
fn spacing_around_the_colon_does_not_matter() {
    let plain = parse_header("Content-Type:application/json\n");
    assert_eq!(plain, Ok((field("Content-Type", "application/json"), "")));
    assert_eq!(parse_header("Content-Type  :   application/json\n"), plain);
    assert_eq!(parse_header("Content-Type: application/json\n"), plain);
    assert_eq!(parse_header("Content-Type \t:\t application/json\n"), plain);
}

#[test]
fn header_block_stops_at_the_empty_line() {
    assert_eq!(
        parse_headers("Host: example.org\n\nbody"),
        Ok((vec![field("Host", "example.org")], "\nbody"))
    );
    assert_eq!(
        parse_headers("Host: example.org\r\n\r\nbody"),
        Ok((vec![field("Host", "example.org")], "\r\nbody"))
    );
}

#[test]
fn header_block_may_be_empty() {
    assert_eq!(parse_headers(""), Ok((vec![], "")));
    assert_eq!(parse_headers("\n"), Ok((vec![], "\n")));
    assert_eq!(parse_headers("no colon here\n"), Ok((vec![], "no colon here\n")));
    assert_eq!(parse_headers("Host: unfinished"), Ok((vec![], "Host: unfinished")));
}

#[test]
fn repeated_names_are_kept() {
    assert_eq!(
        parse_headers("Accept: a\nAccept: b\nX: 1\nAccept: a\n"),
        Ok((
            vec![field("Accept", "a"), field("Accept", "b"), field("X", "1"), field("Accept", "a")],
            ""
        ))
    );
}

#[test]
fn header_value_is_free_text() {
    assert_eq!(parse_header("X:\n"), Ok((field("X", ""), "")));
    assert_eq!(parse_header("X: \n"), Ok((field("X", ""), "")));
    assert_eq!(parse_header("X: a b \t\nrest"), Ok((field("X", "a b \t"), "rest")));
    assert_eq!(parse_header("X: a: b\n"), Ok((field("X", "a: b"), "")));
    assert_eq!(
        parse_header("X: K\u{e4}se \u{1f9c0}\nY"),
        Ok((field("X", "K\u{e4}se \u{1f9c0}"), "Y"))
    );
}

#[test]
fn carriage_return_belongs_to_the_line_end() {
    assert_eq!(parse_header("Host: x\r\nrest"), Ok((field("Host", "x"), "rest")));
    assert_eq!(parse_header("Host:\r\n"), Ok((field("Host", ""), "")));
    assert_eq!(parse_header("Host: x\r\r\n"), Ok((field("Host", "x\r"), "")));
    assert_eq!(parse_header("Host: a\rb\n"), Ok((field("Host", "a\rb"), "")));
}

#[test]
fn header_failures() {
    assert_eq!(parse_header(""), Err(failure(ErrorKind::InvalidCharacterClass, 0)));
    assert_eq!(parse_header(": x\n"), Err(failure(ErrorKind::InvalidCharacterClass, 0)));
    assert_eq!(parse_header(" Host: x\n"), Err(failure(ErrorKind::InvalidCharacterClass, 0)));
    assert_eq!(parse_header("Host x\n"), Err(failure(ErrorKind::UnexpectedToken, 5)));
    assert_eq!(parse_header("Host"), Err(failure(ErrorKind::UnexpectedToken, 4)));
    assert_eq!(parse_header("Host  "), Err(failure(ErrorKind::UnexpectedToken, 6)));
    assert_eq!(parse_header("Host: x"), Err(failure(ErrorKind::UnexpectedToken, 7)));
    assert_eq!(parse_header("Host: x\r"), Err(failure(ErrorKind::UnexpectedToken, 8)));
    assert_eq!(parse_header("Ho_st: x\n"), Err(failure(ErrorKind::UnexpectedToken, 2)));
}

#[test]
fn colon_with_spaces() {
    assert_eq!(spaced_colon(":"), Ok(""));
    assert_eq!(spaced_colon(" \t :  x"), Ok("x"));
    assert_eq!(spaced_colon(": :"), Ok(":"));
    assert_eq!(spaced_colon("  x"), Err(failure(ErrorKind::UnexpectedToken, 2)));
    assert_eq!(spaced_colon(""), Err(failure(ErrorKind::UnexpectedToken, 0)));
}

#[test]
fn line_ends() {
    assert_eq!(line_end("\nx"), Ok("x"));
    assert_eq!(line_end("\r\nx"), Ok("x"));
    assert_eq!(line_end("\n\n"), Ok("\n"));
    assert_eq!(line_end("\rx"), Err(failure(ErrorKind::UnexpectedToken, 0)));
    assert_eq!(line_end("\r"), Err(failure(ErrorKind::UnexpectedToken, 0)));
    assert_eq!(line_end("x\n"), Err(failure(ErrorKind::UnexpectedToken, 0)));
    assert_eq!(line_end(""), Err(failure(ErrorKind::UnexpectedToken, 0)));
}
