use request_parser::text::{
    alphanumerichyphen1, begins_with_byte, byte_len, consumed, cut, not_newline, scan, tag, tag_byte, tag_no_case,
    take_m_n, take_while, take_while1, to_lower, CharClass,
};
use request_parser::{ErrorKind, ParseError};

fn failure(kind: ErrorKind, offset: usize) -> ParseError {
    ParseError { kind, offset }
}

#[test]
fn line_feed_is_the_only_newline() {
    assert!(!not_newline('\n'));
    assert!(not_newline('\r'));
    assert!(not_newline(' '));
    assert!(not_newline('a'));
    assert!(not_newline('\u{2028}'));
}

#[test]
fn classes() {
    let members: [(CharClass, &str, &str); 11] = [
        (CharClass::Digit, "0123456789", "/:aZ- \u{e9}"),
        (CharClass::Alpha, "azAZmM", "09@[`{- "),
        (CharClass::Alphanumeric, "azAZ09", "-_. @[`{/:"),
        (CharClass::Label, "azAZ09-", "_. @[`{/:$"),
        (CharClass::Blank, " \t", "\n\ra0"),
        (CharClass::Line, " \r\ta:\u{7f}\u{0}", "\n"),
        (CharClass::Path, "/a0-._~!$&'()*+,;=:@%", "?# \t\n\r\u{7f}"),
        (CharClass::Query, "/a0?=&:@", "# \t\n\r\u{7f}"),
        (CharClass::Key, "/a0?:@", "=&# \n"),
        (CharClass::Value, "/a0?:@=", "&# \n"),
        (CharClass::Fragment, "/a0?=&#:@", " \t\n\r\u{7f}"),
    ];
    for (class, inside, outside) in members {
        for b in inside.bytes() {
            assert!(class.contains(b), "{:?} should hold {:?}", class, b as char);
        }
        for b in outside.bytes() {
            assert!(!class.contains(b), "{:?} should not hold {:?}", class, b as char);
        }
    }
}

#[test]
fn free_text_classes_hold_all_bytes_of_longer_characters() {
    for class in [
        CharClass::Line,
        CharClass::Path,
        CharClass::Query,
        CharClass::Key,
        CharClass::Value,
        CharClass::Fragment,
    ] {
        for b in 0x80..=0xffu8 {
            assert!(class.contains(b));
        }
    }
    for class in [
        CharClass::Digit,
        CharClass::Alpha,
        CharClass::Alphanumeric,
        CharClass::Label,
        CharClass::Blank,
    ] {
        for b in 0x80..=0xffu8 {
            assert!(!class.contains(b));
        }
    }
}

#[test]
fn lower_case() {
    assert_eq!(to_lower(b'A'), b'a');
    assert_eq!(to_lower(b'Z'), b'z');
    assert_eq!(to_lower(b'a'), b'a');
    assert_eq!(to_lower(b'@'), b'@');
    assert_eq!(to_lower(b'['), b'[');
    assert_eq!(to_lower(0xc9), 0xc9);
}

#[test]
fn scanning() {
    assert_eq!(scan("123abc", CharClass::Digit, 10), 3);
    assert_eq!(scan("123abc", CharClass::Digit, 2), 2);
    assert_eq!(scan("123abc", CharClass::Digit, 0), 0);
    assert_eq!(scan("abc", CharClass::Digit, 10), 0);
    assert_eq!(scan("", CharClass::Digit, 10), 0);
    assert_eq!(scan("a\u{e9}b\nc", CharClass::Line, 100), 4);
}

#[test]
fn cutting() {
    assert_eq!(cut("abc", 0), ("", "abc"));
    assert_eq!(cut("abc", 1), ("a", "bc"));
    assert_eq!(cut("abc", 3), ("abc", ""));
    assert_eq!(cut("a\u{e9}", 1), ("a", "\u{e9}"));
    assert_eq!(cut("\u{e9}a", 3), ("\u{e9}a", ""));
    assert_eq!(cut("\u{e9}a", 2), ("\u{e9}", "a"));
    assert_eq!(byte_len("a\u{e9}"), 3);
    assert_eq!(consumed("abc", "bc"), 1);
    assert_eq!(consumed("abc", ""), 3);
}

#[test]
fn runs() {
    assert_eq!(take_while("abc123", CharClass::Alpha), ("abc", "123"));
    assert_eq!(take_while("123", CharClass::Alpha), ("", "123"));
    assert_eq!(take_while("", CharClass::Alpha), ("", ""));
    assert_eq!(take_while("a-b.c", CharClass::Label), ("a-b", ".c"));
    assert_eq!(take_while("/p\u{e9}?q", CharClass::Path), ("/p\u{e9}", "?q"));
    assert_eq!(take_while1("abc123", CharClass::Alpha), Ok(("abc", "123")));
    assert_eq!(
        take_while1("123", CharClass::Alpha),
        Err(failure(ErrorKind::InvalidCharacterClass, 0))
    );
    assert_eq!(
        take_while1("$$$", CharClass::Label),
        Err(failure(ErrorKind::InvalidCharacterClass, 0))
    );
    assert_eq!(
        take_while1("", CharClass::Label),
        Err(failure(ErrorKind::InvalidCharacterClass, 0))
    );
}

#[test]
fn bounded_runs() {
    assert_eq!(take_m_n("12345", CharClass::Digit, 1, 3), Ok(("123", "45")));
    assert_eq!(take_m_n("12", CharClass::Digit, 1, 3), Ok(("12", "")));
    assert_eq!(take_m_n("x", CharClass::Digit, 0, 3), Ok(("", "x")));
    assert_eq!(
        take_m_n("12x", CharClass::Digit, 3, 5),
        Err(failure(ErrorKind::InvalidCharacterClass, 2))
    );
    assert_eq!(
        take_m_n("", CharClass::Digit, 1, 3),
        Err(failure(ErrorKind::InvalidCharacterClass, 0))
    );
}

#[test]
fn tags() {
    assert_eq!(tag("HTTP/1.1\n", "HTTP/1.1"), Ok(("HTTP/1.1", "\n")));
    assert_eq!(tag("http/1.1", "HTTP/1.1"), Err(failure(ErrorKind::UnexpectedToken, 0)));
    assert_eq!(tag("HTTP/1.", "HTTP/1.1"), Err(failure(ErrorKind::UnexpectedToken, 0)));
    assert_eq!(tag("abc", ""), Ok(("", "abc")));
    assert_eq!(tag("\u{e9}t\u{e9}", "\u{e9}"), Ok(("\u{e9}", "t\u{e9}")));
    assert_eq!(tag_no_case("Http://x", "HTTP://"), Ok(("Http://", "x")));
    assert_eq!(tag_no_case("hTtPs://", "https://"), Ok(("hTtPs://", "")));
    assert_eq!(tag_no_case("htt", "http"), Err(failure(ErrorKind::UnexpectedToken, 0)));
    assert_eq!(tag_no_case("@", "`"), Err(failure(ErrorKind::UnexpectedToken, 0)));
    assert_eq!(tag_no_case("\u{c9}", "\u{e9}"), Err(failure(ErrorKind::UnexpectedToken, 0)));
    assert_eq!(tag_byte(":80", b':'), Ok("80"));
    assert_eq!(tag_byte("80", b':'), Err(failure(ErrorKind::UnexpectedToken, 0)));
    assert_eq!(tag_byte("", b':'), Err(failure(ErrorKind::UnexpectedToken, 0)));
    assert!(begins_with_byte("/x", b'/'));
    assert!(!begins_with_byte("x/", b'/'));
    assert!(!begins_with_byte("", b'/'));
}

#[test]
fn kinds_have_names() {
    assert_eq!(ErrorKind::UnexpectedToken.name(), "unexpected token");
    assert_eq!(ErrorKind::InvalidCharacterClass.name(), "invalid character class");
    assert_eq!(ErrorKind::OutOfRange.name(), "out of range");
}

#[test]
fn failures_shift() {
    assert_eq!(failure(ErrorKind::OutOfRange, 3).shift(4), failure(ErrorKind::OutOfRange, 7));
    assert_eq!(
        failure(ErrorKind::UnexpectedToken, 0).shift(0),
        failure(ErrorKind::UnexpectedToken, 0)
    );
}

#[test]
fn labels() {
    assert_eq!(alphanumerichyphen1("some-subsite.example"), Ok(("some-subsite", ".example")));
    assert_eq!(alphanumerichyphen1("Content-Type: x"), Ok(("Content-Type", ": x")));
    assert_eq!(alphanumerichyphen1("-"), Ok(("-", "")));
    assert_eq!(
        alphanumerichyphen1("$$$.com"),
        Err(failure(ErrorKind::InvalidCharacterClass, 0))
    );
    assert_eq!(alphanumerichyphen1(""), Err(failure(ErrorKind::InvalidCharacterClass, 0)));
}
