//! A request line that was read holds a valid target, and the text of a
//! request line with a valid target is read back.

use crate::error::Failure;
use crate::header::spec_line_end;
use crate::laws::methods::lemma_method_found;
use crate::method::spec_method;
use crate::model::{Method, UriView, Version};
use crate::render::{line_end_text, request_line_text, uri_text};
use crate::request::{spec_request_line, spec_version};
use crate::roundtrip::follow::after_fragment;
use crate::roundtrip::targets::{lemma_uri_bound, lemma_uri_text, lemma_uri_valid};
use crate::roundtrip::texts::{lemma_concat_assoc, lemma_concat_parts, lemma_skip_twice};
use crate::text::{starts_with_no_case, CARRIAGE_RETURN, SPACE};
use crate::uri::spec_uri;
use crate::valid::valid_uri;
use vstd::prelude::*;

verus! {

/// The token of a method is read back as that method.
pub proof fn lemma_method_text(method: Method, rest: Seq<u8>)
    ensures
        spec_method(method.token() + rest) == Ok::<(Method, nat), Failure>(
            (method, method.token().len()),
        ),
{
    let s = method.token() + rest;
    lemma_concat_parts(method.token(), rest);
    assert forall|i: int| 0 <= i < method.token().len() implies #[trigger] s[i]
        == method.token()[i] by {}
    assert(starts_with_no_case(s, method.token()));
    lemma_method_found(s, method);
}

/// The token of a version is read back as that version.
pub proof fn lemma_version_text(version: Version, rest: Seq<u8>)
    ensures
        spec_version(version.token() + rest) == Ok::<(Version, nat), Failure>(
            (version, version.token().len()),
        ),
{
    reveal(spec_version);
    reveal_strlit("HTTP/1.0");
    reveal_strlit("HTTP/1.1");
    let s = version.token() + rest;
    lemma_concat_parts(version.token(), rest);
    if version == Version::Http10 {
        assert(s.take(8)[7] == s[7]);
        assert(s[7] == Version::Http10.token()[7]);
        assert(Version::Http11.token()[7] != Version::Http10.token()[7]);
    }
}

/// The end of a line is read back as the end of a line, and no header
/// field begins with it.
pub proof fn lemma_line_end_text(rest: Seq<u8>)
    ensures
        spec_line_end(line_end_text() + rest) == Ok::<nat, Failure>(2),
        (line_end_text() + rest).skip(2) == rest,
        (line_end_text() + rest)[0] == CARRIAGE_RETURN,
{
    reveal(spec_line_end);
    lemma_concat_parts(line_end_text(), rest);
}

/// The target of a request line that was read is valid, and the line ends
/// within the text.
pub proof fn lemma_request_line_valid(s: Seq<u8>)
    ensures
        spec_request_line(s) matches Ok(((_, uri, _), n)) ==> valid_uri(uri) && n <= s.len(),
{
    reveal(spec_request_line);
    if let Ok(((method, uri, version), n)) = spec_request_line(s) {
        reveal(spec_method);
        reveal(spec_version);
        reveal(spec_line_end);
        let (_, n0) = spec_method(s)->Ok_0;
        let at_uri = n0 + 1;
        let s1 = s.skip(at_uri as int);
        lemma_uri_bound(s1);
        let (_, n1) = spec_uri(s1)->Ok_0;
        let at_space = at_uri + n1;
        let s2 = s.skip(at_space as int);
        assert(s1.skip(n1 as int) =~= s2);
        assert(s2[0] == s1[n1 as int]);
        lemma_uri_valid(s1);
    }
}

/// The text of a request line with a valid target is read back as that
/// line.
pub proof fn lemma_request_line_text(
    method: Method,
    uri: UriView,
    version: Version,
    rest: Seq<u8>,
)
    requires
        valid_uri(uri),
    ensures
        spec_request_line(request_line_text(method, uri, version) + rest) == Ok::<
            ((Method, UriView, Version), nat),
            Failure,
        >(((method, uri, version), request_line_text(method, uri, version).len())),
        (request_line_text(method, uri, version) + rest).skip(
            request_line_text(method, uri, version).len() as int,
        ) == rest,
{
    reveal(spec_request_line);
    let m = method.token();
    let u = uri_text(uri);
    let v = version.token();
    let space = seq![SPACE];
    let s5 = line_end_text() + rest;
    let s4 = v + s5;
    let s3 = space + s4;
    let s2 = u + s3;
    let s1 = space + s2;
    let s0 = m + s1;
    assert(s0 == request_line_text(method, uri, version) + rest && request_line_text(
        method,
        uri,
        version,
    ).len() == m.len() + 1 + u.len() + 1 + v.len() + 2) by {
        lemma_concat_assoc(v, line_end_text(), rest);
        lemma_concat_assoc(space, v + line_end_text(), rest);
        lemma_concat_assoc(u, space + (v + line_end_text()), rest);
        lemma_concat_assoc(space, u + (space + (v + line_end_text())), rest);
        lemma_concat_assoc(m, space + (u + (space + (v + line_end_text()))), rest);
    }
    lemma_method_text(method, s1);
    lemma_concat_parts(m, s1);
    lemma_concat_parts(space, s2);
    lemma_concat_parts(space, s4);
    assert(after_fragment(s3));
    lemma_uri_text(uri, s3);
    lemma_concat_parts(u, s3);
    lemma_version_text(version, s5);
    lemma_concat_parts(v, s5);
    lemma_line_end_text(rest);
    let n0 = m.len();
    lemma_skip_twice(s0, n0, 1);
    lemma_skip_twice(s0, n0 + 1, u.len());
    lemma_skip_twice(s0, n0 + 1 + u.len(), 1);
    lemma_skip_twice(s0, n0 + 1 + u.len() + 1, v.len());
    lemma_skip_twice(s0, n0 + 1 + u.len() + 1 + v.len(), 2);
}

} // verus!
