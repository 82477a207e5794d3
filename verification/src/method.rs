//! The request method: a fixed set of tokens, matched without regard to
//! case.

use crate::error::{ErrorKind, Failure, ParseError};
use crate::model::Method;
use crate::text::{
    ascii, byte_len, failed, lemma_ascii_bytes, rest_of, starts_with_no_case, tag_no_case,
    unexpected,
};
use vstd::prelude::*;
use vstd::string::*;

verus! {

broadcast use vstd::seq_lib::group_seq_lib_default;

impl Method {
    /// The token of the method, in upper case.
    pub open spec fn token(self) -> Seq<u8> {
        match self {
            Method::GET => ascii("GET"@),
            Method::HEAD => ascii("HEAD"@),
            Method::POST => ascii("POST"@),
            Method::PUT => ascii("PUT"@),
            Method::DELETE => ascii("DELETE"@),
            Method::CONNECT => ascii("CONNECT"@),
            Method::OPTIONS => ascii("OPTIONS"@),
            Method::TRACE => ascii("TRACE"@),
        }
    }

    /// The token of the method, in upper case.
    pub fn name(self) -> (r: &'static str)
        ensures
            r.spec_bytes() == self.token(),
    {
        proof {
            reveal_strlit("GET");
            reveal_strlit("HEAD");
            reveal_strlit("POST");
            reveal_strlit("PUT");
            reveal_strlit("DELETE");
            reveal_strlit("CONNECT");
            reveal_strlit("OPTIONS");
            reveal_strlit("TRACE");
        }
        let name = match self {
            Method::GET => "GET",
            Method::HEAD => "HEAD",
            Method::POST => "POST",
            Method::PUT => "PUT",
            Method::DELETE => "DELETE",
            Method::CONNECT => "CONNECT",
            Method::OPTIONS => "OPTIONS",
            Method::TRACE => "TRACE",
        };
        proof {
            lemma_ascii_bytes(name);
        }
        name
    }

    /// The method that `name` names, in any mix of upper and lower case.
    /// A text that is not, as a whole, the token of a method is an unexpected
    /// token.
    pub fn from_name(name: &str) -> (r: Result<Method, ErrorKind>)
        ensures
            match spec_method(name.spec_bytes()) {
                Ok((method, n)) => if n == name.spec_bytes().len() {
                    r == Ok::<Method, ErrorKind>(method)
                } else {
                    r == Err::<Method, ErrorKind>(ErrorKind::UnexpectedToken)
                },
                Err(_) => r == Err::<Method, ErrorKind>(ErrorKind::UnexpectedToken),
            },
    {
        match parse_method(name) {
            Ok((method, rest)) => if byte_len(rest) == 0 {
                Ok(method)
            } else {
                Err(ErrorKind::UnexpectedToken)
            },
            Err(_) => Err(ErrorKind::UnexpectedToken),
        }
    }
}

/// The method `method` where `s` begins with its token, else `otherwise`.
pub open spec fn method_or(s: Seq<u8>, method: Method, otherwise: Result<(Method, nat), Failure>)
    -> Result<(Method, nat), Failure> {
    if starts_with_no_case(s, method.token()) {
        Ok((method, method.token().len()))
    } else {
        otherwise
    }
}

/// What `parse_method` makes of the bytes `s`: the method whose token `s`
/// begins with, letters compared without regard to case, and the length of
/// that token.
#[verifier::opaque]
pub open spec fn spec_method(s: Seq<u8>) -> Result<(Method, nat), Failure> {
    method_or(
        s,
        Method::GET,
        method_or(
            s,
            Method::POST,
            method_or(
                s,
                Method::PUT,
                method_or(
                    s,
                    Method::DELETE,
                    method_or(
                        s,
                        Method::CONNECT,
                        method_or(
                            s,
                            Method::OPTIONS,
                            method_or(
                                s,
                                Method::TRACE,
                                method_or(s, Method::HEAD, Err(unexpected(0))),
                            ),
                        ),
                    ),
                ),
            ),
        ),
    )
}

/// The method `method` and what follows its token, where `input` begins
/// with the token.
fn try_method(input: &str, method: Method) -> (r: Option<(Method, &str)>)
    ensures
        match r {
            Some((found, rest)) => found == method && starts_with_no_case(
                input.spec_bytes(),
                method.token(),
            ) && rest_of(input, rest, method.token().len()),
            None => !starts_with_no_case(input.spec_bytes(), method.token()),
        },
{
    match tag_no_case(input, method.name()) {
        Ok((_, rest)) => Some((method, rest)),
        Err(_) => None,
    }
}

/// The request method at the head of `input`.
///
/// The tokens GET, POST, PUT, DELETE, CONNECT, OPTIONS, TRACE and HEAD are
/// tried in this order, in any mix of upper and lower case. Where `input`
/// begins with none of them, the failure is an unexpected token at offset 0.
pub fn parse_method(input: &str) -> (r: Result<(Method, &str), ParseError>)
    ensures
        match spec_method(input.spec_bytes()) {
            Ok((expected, n)) => r matches Ok((method, rest)) && method == expected && rest_of(
                input,
                rest,
                n,
            ),
            Err(f) => r matches Err(e) && failed(input, e, f),
        },
{
    proof {
        reveal(spec_method);
    }
    if let Some(found) = try_method(input, Method::GET) {
        return Ok(found);
    }
    if let Some(found) = try_method(input, Method::POST) {
        return Ok(found);
    }
    if let Some(found) = try_method(input, Method::PUT) {
        return Ok(found);
    }
    if let Some(found) = try_method(input, Method::DELETE) {
        return Ok(found);
    }
    if let Some(found) = try_method(input, Method::CONNECT) {
        return Ok(found);
    }
    if let Some(found) = try_method(input, Method::OPTIONS) {
        return Ok(found);
    }
    if let Some(found) = try_method(input, Method::TRACE) {
        return Ok(found);
    }
    if let Some(found) = try_method(input, Method::HEAD) {
        return Ok(found);
    }
    Err(ParseError { kind: ErrorKind::UnexpectedToken, offset: 0 })
}

} // verus!
