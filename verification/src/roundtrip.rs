//! The rules read the canonical text of a value back as that value.
//!
//! Two facts are proved of every rule: what it reads is valid, and the
//! canonical text of a valid value is read back as that value. Together
//! they give the law of this module: reading the canonical text of a request
//! that was read yields the same request again.

pub mod address;
pub mod credentials;
pub mod fields;
pub mod follow;
pub mod frame;
pub mod hosts;
pub mod lines;
pub mod numbers;
pub mod pairs;
pub mod parts;
pub mod ports;
pub mod tails;
pub mod targets;
pub mod texts;

use crate::error::Failure;
use crate::header::spec_line_end;
use crate::model::RequestView;
use crate::render::{headers_text, line_end_text, request_line_text, request_text};
use crate::request::{spec_request, spec_request_line};
use crate::valid::valid_request;
use vstd::prelude::*;

verus! {

/// Every request that is read is valid, and its head ends within the text.
pub proof fn lemma_request_valid(s: Seq<u8>)
    ensures
        spec_request(s) matches Ok((request, n)) ==> valid_request(request) && n <= s.len(),
{
    reveal(spec_request);
    reveal(spec_line_end);
    lines::lemma_request_line_valid(s);
    if let Ok((_, n0)) = spec_request_line(s) {
        fields::lemma_headers_valid(s.skip(n0 as int));
    }
}

/// The canonical text of a valid request, with anything behind it, is read
/// back as that request, and what is left is what stood behind the text.
pub proof fn lemma_request_text(request: RequestView, rest: Seq<u8>)
    requires
        valid_request(request),
    ensures
        spec_request(request_text(request) + rest) == Ok::<(RequestView, nat), Failure>(
            (request, request_text(request).len()),
        ),
        (request_text(request) + rest).skip(request_text(request).len() as int) == rest,
{
    reveal(spec_request);
    let line = request_line_text(request.method, request.uri, request.version);
    let headers = headers_text(request.headers);
    let s2 = line_end_text() + rest;
    let s1 = headers + s2;
    let s0 = line + s1;
    assert(s0 == request_text(request) + rest && request_text(request).len() == line.len()
        + headers.len() + 2) by {
        texts::lemma_concat_assoc(headers, line_end_text(), rest);
        texts::lemma_concat_assoc(line, headers + line_end_text(), rest);
    }
    lines::lemma_request_line_text(request.method, request.uri, request.version, s1);
    fields::lemma_no_header(rest);
    fields::lemma_headers_text(request.headers, s2);
    lines::lemma_line_end_text(rest);
    texts::lemma_skip_twice(s0, line.len(), headers.len());
    texts::lemma_skip_twice(s0, line.len() + headers.len(), 2);
}

/// Reading is idempotent: the canonical text of a request that was read
/// from any text is read as the same request again, to its last byte.
pub proof fn lemma_request_round_trip(s: Seq<u8>)
    requires
        spec_request(s) is Ok,
    ensures
        ({
            let request = spec_request(s)->Ok_0.0;
            spec_request(request_text(request)) == Ok::<(RequestView, nat), Failure>(
                (request, request_text(request).len()),
            )
        }),
{
    let request = spec_request(s)->Ok_0.0;
    lemma_request_valid(s);
    lemma_request_text(request, Seq::empty());
    assert(request_text(request) + Seq::<u8>::empty() =~= request_text(request));
}

} // verus!
