//! The head of a request: the request line, the header block, and the empty
//! line that ends it.

use crate::error::{Failure, ParseError};
use crate::header::{line_end, parse_headers, spec_headers, spec_line_end};
use crate::method::{parse_method, spec_method};
use crate::model::{Method, Request, RequestView, Uri, UriView, Version};
use crate::text::{
    ascii, consumed, failed, lemma_ascii_bytes, rest_of, spec_tag_byte, starts_with, tag,
    tag_byte, unexpected, SPACE,
};
use crate::roundtrip::lemma_request_valid;
use crate::uri::{parse_uri, spec_uri};
use crate::valid::valid_request;
use vstd::prelude::*;
use vstd::string::*;

verus! {

broadcast use {vstd::seq_lib::group_seq_lib_default, vstd::seq_lib::lemma_seq_skip_of_skip};

impl Version {
    /// How the version is written in a request line.
    pub open spec fn token(self) -> Seq<u8> {
        match self {
            Version::Http10 => ascii("HTTP/1.0"@),
            Version::Http11 => ascii("HTTP/1.1"@),
        }
    }

    /// How the version is written in a request line.
    pub fn name(self) -> (r: &'static str)
        ensures
            r.spec_bytes() == self.token(),
    {
        proof {
            reveal_strlit("HTTP/1.0");
            reveal_strlit("HTTP/1.1");
        }
        let name = match self {
            Version::Http10 => "HTTP/1.0",
            Version::Http11 => "HTTP/1.1",
        };
        proof {
            lemma_ascii_bytes(name);
        }
        name
    }
}

/// What `parse_version` makes of the bytes `s`.
#[verifier::opaque]
pub open spec fn spec_version(s: Seq<u8>) -> Result<(Version, nat), Failure> {
    if starts_with(s, Version::Http11.token()) {
        Ok((Version::Http11, Version::Http11.token().len()))
    } else if starts_with(s, Version::Http10.token()) {
        Ok((Version::Http10, Version::Http10.token().len()))
    } else {
        Err(unexpected(0))
    }
}

/// The protocol version at the head of `input`: `HTTP/1.1` or `HTTP/1.0`,
/// written exactly so. Anything else is an unexpected token at offset 0.
pub fn parse_version(input: &str) -> (r: Result<(Version, &str), ParseError>)
    ensures
        match spec_version(input.spec_bytes()) {
            Ok((expected, n)) => r matches Ok((version, rest)) && version == expected
                && rest_of(input, rest, n),
            Err(f) => r matches Err(e) && failed(input, e, f),
        },
{
    proof {
        reveal(spec_version);
    }
    match tag(input, Version::Http11.name()) {
        Ok((_, rest)) => Ok((Version::Http11, rest)),
        Err(_) => match tag(input, Version::Http10.name()) {
            Ok((_, rest)) => Ok((Version::Http10, rest)),
            Err(e) => Err(e),
        },
    }
}

/// What `parse_request_line` makes of the bytes `s`: a method, a space, a
/// target, a space, a version and the end of the line.
#[verifier::opaque]
pub open spec fn spec_request_line(s: Seq<u8>) -> Result<
    ((Method, UriView, Version), nat),
    Failure,
> {
    match spec_method(s) {
        Err(f) => Err(f),
        Ok((method, n0)) => match spec_tag_byte(s.skip(n0 as int), SPACE) {
            Err(f) => Err(f.shift(n0)),
            Ok(_) => {
                let at_uri = n0 + 1;
                match spec_uri(s.skip(at_uri as int)) {
                    Err(f) => Err(f.shift(at_uri)),
                    Ok((uri, n1)) => {
                        let at_space = at_uri + n1;
                        match spec_tag_byte(s.skip(at_space as int), SPACE) {
                            Err(f) => Err(f.shift(at_space)),
                            Ok(_) => {
                                let at_version = at_space + 1;
                                match spec_version(s.skip(at_version as int)) {
                                    Err(f) => Err(f.shift(at_version)),
                                    Ok((version, n2)) => {
                                        let at_end = at_version + n2;
                                        match spec_line_end(s.skip(at_end as int)) {
                                            Err(f) => Err(f.shift(at_end)),
                                            Ok(n3) => Ok(((method, uri, version), at_end + n3)),
                                        }
                                    },
                                }
                            },
                        }
                    },
                }
            },
        },
    }
}

/// The request line: `method SP target SP version`, each `SP` a single
/// space, and the end of the line.
///
/// A failure is that of the first part that is not found, at the offset
/// where that part, or the rule inside it that failed, was looked for.
pub fn parse_request_line(input: &str) -> (r: Result<((Method, Uri, Version), &str), ParseError>)
    ensures
        match spec_request_line(input.spec_bytes()) {
            Ok((expected, n)) => r matches Ok((line, rest)) && line.0 == expected.0 && line.1@
                == expected.1 && line.2 == expected.2 && rest_of(input, rest, n),
            Err(f) => r matches Err(e) && failed(input, e, f),
        },
{
    proof {
        reveal(spec_request_line);
    }
    let (method, at_space) = match parse_method(input) {
        Ok(found) => found,
        Err(e) => {
            return Err(e);
        },
    };
    let at_uri = match tag_byte(at_space, SPACE) {
        Ok(rest) => rest,
        Err(e) => {
            return Err(e.shift(consumed(input, at_space)));
        },
    };
    let (uri, at_space) = match parse_uri(at_uri) {
        Ok(found) => found,
        Err(e) => {
            return Err(e.shift(consumed(input, at_uri)));
        },
    };
    let at_version = match tag_byte(at_space, SPACE) {
        Ok(rest) => rest,
        Err(e) => {
            return Err(e.shift(consumed(input, at_space)));
        },
    };
    let (version, at_end) = match parse_version(at_version) {
        Ok(found) => found,
        Err(e) => {
            return Err(e.shift(consumed(input, at_version)));
        },
    };
    let rest = match line_end(at_end) {
        Ok(rest) => rest,
        Err(e) => {
            return Err(e.shift(consumed(input, at_end)));
        },
    };
    Ok(((method, uri, version), rest))
}

/// What `parse_request` makes of the bytes `s`: the request line, the
/// header fields, and the empty line behind them.
#[verifier::opaque]
pub open spec fn spec_request(s: Seq<u8>) -> Result<(RequestView, nat), Failure> {
    match spec_request_line(s) {
        Err(f) => Err(f),
        Ok(((method, uri, version), n0)) => {
            let (headers, n1) = spec_headers(s.skip(n0 as int));
            let at_end = n0 + n1;
            match spec_line_end(s.skip(at_end as int)) {
                Err(f) => Err(f.shift(at_end)),
                Ok(n2) => Ok((RequestView { method, uri, version, headers }, at_end + n2)),
            }
        },
    }
}

/// The head of a request, and what follows it in `buffer`: the body, if
/// there is one.
///
/// The head is the request line, any number of header fields, and an empty
/// line. The request is returned whole or not at all, and a request that is
/// returned is valid: its canonical text is read as the same request again. A failure names the
/// innermost rule that failed, with the offset into `buffer`; in
/// particular a line behind the request line that is neither a header field
/// nor empty is an unexpected token at the start of that line.
pub fn parse_request(buffer: &str) -> (r: Result<(Request, &str), ParseError>)
    ensures
        match spec_request(buffer.spec_bytes()) {
            Ok((expected, n)) => r matches Ok((request, rest)) && request@ == expected
                && rest_of(buffer, rest, n),
            Err(f) => r matches Err(e) && failed(buffer, e, f),
        },
        r matches Ok((request, _)) ==> valid_request(request@),
{
    proof {
        reveal(spec_request);
        lemma_request_valid(buffer.spec_bytes());
    }
    let ((method, uri, version), at_headers) = match parse_request_line(buffer) {
        Ok(found) => found,
        Err(e) => {
            return Err(e);
        },
    };
    let (headers, at_end) = match parse_headers(at_headers) {
        Ok(found) => found,
        Err(e) => {
            return Err(e.shift(consumed(buffer, at_headers)));
        },
    };
    let rest = match line_end(at_end) {
        Ok(rest) => rest,
        Err(e) => {
            return Err(e.shift(consumed(buffer, at_end)));
        },
    };
    Ok((Request { method, uri, version, headers }, rest))
}

} // verus!
