//! Header fields: `name: value` lines, and the block that they form.

use crate::error::{Failure, ParseError};
use crate::model::{pair_view, pairs_view, Header, Headers};
use crate::text::{
    alphanumerichyphen1, byte_len, consumed, cut, failed, lemma_run_is_run, rest_of, span,
    spec_tag_byte, spec_take_while1, tag_byte, take_while, unexpected, CharClass,
    CARRIAGE_RETURN, COLON, LINE_FEED,
};
use vstd::prelude::*;
use vstd::string::*;

verus! {

broadcast use {vstd::seq_lib::group_seq_lib_default, vstd::seq_lib::lemma_seq_skip_of_skip};

/// What `spaced_colon` makes of the bytes `s`: a colon with any number of
/// spaces and tabs on either side, and how many bytes all of it takes.
#[verifier::opaque]
pub open spec fn spec_spaced_colon(s: Seq<u8>) -> Result<nat, Failure> {
    let before = span(s, CharClass::Blank);
    match spec_tag_byte(s.skip(before as int), COLON) {
        Ok(_) => Ok(before + 1 + span(s.skip(before + 1 as int), CharClass::Blank)),
        Err(f) => Err(f.shift(before)),
    }
}

/// What follows the colon that parts a header's name from its value,
/// together with the spaces and tabs around it. Where there is no colon,
/// the failure is reported behind the leading spaces and tabs.
pub fn spaced_colon(input: &str) -> (r: Result<&str, ParseError>)
    ensures
        match spec_spaced_colon(input.spec_bytes()) {
            Ok(n) => r matches Ok(rest) && rest_of(input, rest, n),
            Err(f) => r matches Err(e) && failed(input, e, f),
        },
{
    proof {
        reveal(spec_spaced_colon);
    }
    let (_, at_colon) = take_while(input, CharClass::Blank);
    match tag_byte(at_colon, COLON) {
        Ok(after_colon) => {
            let (_, rest) = take_while(after_colon, CharClass::Blank);
            Ok(rest)
        },
        Err(e) => Err(e.shift(consumed(input, at_colon))),
    }
}

/// What `line_end` makes of the bytes `s`: a line feed, with or without a
/// carriage return before it.
#[verifier::opaque]
pub open spec fn spec_line_end(s: Seq<u8>) -> Result<nat, Failure> {
    if s.len() >= 1 && s[0] == LINE_FEED {
        Ok(1)
    } else if s.len() >= 2 && s[0] == CARRIAGE_RETURN && s[1] == LINE_FEED {
        Ok(2)
    } else {
        Err(unexpected(0))
    }
}

/// What follows the end of a line: a line feed, with or without a carriage
/// return before it.
pub fn line_end(input: &str) -> (r: Result<&str, ParseError>)
    ensures
        match spec_line_end(input.spec_bytes()) {
            Ok(n) => r matches Ok(rest) && rest_of(input, rest, n),
            Err(f) => r matches Err(e) && failed(input, e, f),
        },
{
    proof {
        reveal(spec_line_end);
    }
    match tag_byte(input, LINE_FEED) {
        Ok(rest) => Ok(rest),
        Err(e) => match tag_byte(input, CARRIAGE_RETURN) {
            Ok(after) => match tag_byte(after, LINE_FEED) {
                Ok(rest) => Ok(rest),
                Err(_) => Err(e),
            },
            Err(_) => Err(e),
        },
    }
}

/// The value of a header whose line, without the line feed, is `line`: the
/// line without the carriage return at its end, if it has one.
pub open spec fn line_value(line: Seq<u8>) -> Seq<u8> {
    if line.len() > 0 && line.last() == CARRIAGE_RETURN {
        line.drop_last()
    } else {
        line
    }
}

/// What `parse_header` makes of the bytes `s`: the name and the value of
/// the header field that `s` begins with, and the length of its line.
///
/// The name is a run of letters, digits and hyphens. Behind it stands a
/// colon, with any spaces and tabs around it. The value is all that follows
/// up to the end of the line: up to the first line feed, without the
/// carriage return before it if there is one.
#[verifier::opaque]
pub open spec fn spec_header(s: Seq<u8>) -> Result<((Seq<u8>, Seq<u8>), nat), Failure> {
    match spec_take_while1(s, CharClass::Label) {
        Err(f) => Err(f),
        Ok(name) => match spec_spaced_colon(s.skip(name as int)) {
            Err(f) => Err(f.shift(name)),
            Ok(colon) => {
                let start = name + colon;
                let end = start + span(s.skip(start as int), CharClass::Line);
                match spec_tag_byte(s.skip(end as int), LINE_FEED) {
                    Err(f) => Err(f.shift(end)),
                    Ok(_) => Ok(
                        (
                            (s.take(name as int), line_value(s.subrange(start as int, end as int))),
                            end + 1,
                        ),
                    ),
                }
            },
        },
    }
}

/// One header field, with the line end behind it: `name: value`, where any
/// number of spaces and tabs may stand on either side of the colon, and the
/// line ends with a line feed or with a carriage return and a line feed.
///
/// A name that does not begin with a letter, a digit or a hyphen is an
/// invalid character class at offset 0. A missing colon is an unexpected
/// token behind the name and the spaces that follow it. A line that the
/// input ends before is an unexpected token at the end of the input.
pub fn parse_header(input: &str) -> (r: Result<(Header, &str), ParseError>)
    ensures
        match spec_header(input.spec_bytes()) {
            Ok((expected, n)) => r matches Ok((header, rest)) && pair_view(header) == expected
                && rest_of(input, rest, n),
            Err(f) => r matches Err(e) && failed(input, e, f),
        },
{
    proof {
        reveal(spec_header);
    }
    let ghost s = input.spec_bytes();
    let (name, after_name) = match alphanumerichyphen1(input) {
        Ok(found) => found,
        Err(e) => {
            return Err(e);
        },
    };
    let at_value = match spaced_colon(after_name) {
        Ok(rest) => rest,
        Err(e) => {
            return Err(e.shift(consumed(input, after_name)));
        },
    };
    let (line, at_end) = take_while(at_value, CharClass::Line);
    let ghost start = s.len() - at_value.spec_bytes().len();
    let ghost end = s.len() - at_end.spec_bytes().len();
    proof {
        assert(line.spec_bytes() =~= s.subrange(start, end));
    }
    let rest = match tag_byte(at_end, LINE_FEED) {
        Ok(rest) => rest,
        Err(e) => {
            return Err(e.shift(consumed(input, at_end)));
        },
    };
    let length = byte_len(line);
    let value = if length > 0 && line.as_bytes()[length - 1] == CARRIAGE_RETURN {
        proof {
            assert(line.spec_bytes().take(length - 1) =~= line.spec_bytes().drop_last());
        }
        cut(line, length - 1).0
    } else {
        line
    };
    Ok(((name.to_owned(), value.to_owned()), rest))
}

/// What `parse_headers` makes of the bytes `s`: the header fields that `s`
/// begins with, in their order, and the length of their lines together.
#[verifier::opaque]
pub open spec fn spec_headers(s: Seq<u8>) -> (Seq<(Seq<u8>, Seq<u8>)>, nat)
    decreases s.len(),
{
    match spec_header(s) {
        Ok((header, n)) => if 0 < n <= s.len() {
            let (more, m) = spec_headers(s.skip(n as int));
            (seq![header] + more, n + m)
        } else {
            (Seq::empty(), 0)
        },
        Err(_) => (Seq::empty(), 0),
    }
}

/// A header field takes at least one byte and no more than there are.
pub proof fn lemma_header_length(s: Seq<u8>)
    ensures
        spec_header(s) matches Ok((_, n)) ==> 0 < n <= s.len(),
{
    reveal(spec_header);
    reveal(spec_spaced_colon);
    lemma_run_is_run(s, CharClass::Label, s.len());
    if let Ok(name) = spec_take_while1(s, CharClass::Label) {
        let t = s.skip(name as int);
        lemma_run_is_run(t, CharClass::Blank, t.len());
        if let Ok(colon) = spec_spaced_colon(t) {
            let before = span(t, CharClass::Blank);
            let u = t.skip(before + 1 as int);
            lemma_run_is_run(u, CharClass::Blank, u.len());
            let start = name + colon;
            let v = s.skip(start as int);
            lemma_run_is_run(v, CharClass::Line, v.len());
        }
    }
}

/// The header block of `s` is its first header field and the header block
/// of what follows, or empty where `s` begins with no header field.
pub proof fn lemma_headers_unfold(s: Seq<u8>)
    ensures
        match spec_header(s) {
            Ok((header, n)) => 0 < n <= s.len() && spec_headers(s) == (
                seq![header] + spec_headers(s.skip(n as int)).0,
                n + spec_headers(s.skip(n as int)).1,
            ),
            Err(_) => spec_headers(s) == (Seq::<(Seq<u8>, Seq<u8>)>::empty(), 0nat),
        },
{
    reveal(spec_headers);
    lemma_header_length(s);
}

/// The header fields at the head of `input`, as many as there are.
///
/// This never fails: the block ends before the first line that is not a
/// header field, and that line begins the remainder. The fields keep their
/// order, and a name that occurs twice is kept twice.
pub fn parse_headers(input: &str) -> (r: Result<(Headers, &str), ParseError>)
    ensures
        r matches Ok((headers, rest)) && pairs_view(headers@) == spec_headers(
            input.spec_bytes(),
        ).0 && rest_of(input, rest, spec_headers(input.spec_bytes()).1),
{
    let ghost s = input.spec_bytes();
    let mut headers: Headers = Vec::new();
    let mut at = input;
    let mut more = true;
    proof {
        assert(s.skip(0) =~= s);
        assert(pairs_view(headers@) =~= Seq::empty());
    }
    while more
        invariant
            s == input.spec_bytes(),
            rest_of(input, at, (s.len() - at.spec_bytes().len()) as nat),
            more ==> spec_headers(s) == (
                pairs_view(headers@) + spec_headers(at.spec_bytes()).0,
                (s.len() - at.spec_bytes().len() + spec_headers(at.spec_bytes()).1) as nat,
            ),
            !more ==> spec_headers(s) == (
                pairs_view(headers@),
                (s.len() - at.spec_bytes().len()) as nat,
            ),
        decreases at.spec_bytes().len() + (if more { 1int } else { 0int }),
    {
        proof {
            lemma_headers_unfold(at.spec_bytes());
        }
        match parse_header(at) {
            Ok((header, rest)) => {
                proof {
                    let old_view = pairs_view(headers@);
                    let new_view = pairs_view(headers@.push(header));
                    assert(new_view =~= old_view + seq![pair_view(header)]);
                    let tail = spec_headers(rest.spec_bytes()).0;
                    assert(old_view + (seq![pair_view(header)] + tail) =~= new_view + tail);
                }
                headers.push(header);
                at = rest;
            },
            Err(_) => {
                more = false;
            },
        }
    }
    Ok((headers, at))
}

} // verus!
