//! The canonical text of the values that the rules yield.
//!
//! The text of a value is one that the rules read back as that value (see
//! the `roundtrip` module). It writes numbers without leading zeros (a port
//! with at least two digits), methods in upper case, schemes in lower case,
//! every pair of a query with its `=`, every header field as
//! `name: value`, and every line end as a carriage return and a line feed.

use crate::model::{AuthorityView, HostView, Method, RequestView, UriView, Version};
use crate::text::{
    AMPERSAND, ASTERISK, AT_SIGN, CARRIAGE_RETURN, COLON, DOT, EQUALS, HASH, LINE_FEED,
    QUESTION_MARK, SPACE, ZERO,
};
use vstd::prelude::*;
use vstd::string::*;
use vstd::utf8::*;

verus! {

broadcast use vstd::seq_lib::group_seq_lib_default;

/// The decimal digits of `v`, without leading zeros.
#[verifier::opaque]
pub open spec fn decimal_text(v: nat) -> Seq<u8>
    decreases v,
{
    if v < 10 {
        seq![(ZERO + v) as u8]
    } else {
        decimal_text(v / 10).push((ZERO + v % 10) as u8)
    }
}

/// The four octets of an address in decimal, with dots between them.
pub open spec fn ipv4_text(octets: Seq<u8>) -> Seq<u8> {
    decimal_text(octets[0] as nat) + (seq![DOT] + (decimal_text(octets[1] as nat) + (seq![DOT] + (
    decimal_text(octets[2] as nat) + (seq![DOT] + decimal_text(octets[3] as nat))))))
}

/// A colon and the port in decimal, with at least two digits.
pub open spec fn port_text(port: Option<u16>) -> Seq<u8> {
    match port {
        Some(p) => if p < 10 {
            seq![COLON, ZERO] + decimal_text(p as nat)
        } else {
            seq![COLON] + decimal_text(p as nat)
        },
        None => Seq::empty(),
    }
}

/// The name as it is, the address in decimal with dots, or `*`.
pub open spec fn host_text(host: HostView) -> Seq<u8> {
    match host {
        HostView::Named(name) => name,
        HostView::IPv4(octets) => ipv4_text(octets),
        HostView::Wildcard => seq![ASTERISK],
    }
}

/// `user@` or `user:password@`.
pub open spec fn authority_text(authority: Option<AuthorityView>) -> Seq<u8> {
    match authority {
        Some(a) => match a.password {
            Some(password) => a.username + (seq![COLON] + (password + seq![AT_SIGN])),
            None => a.username + seq![AT_SIGN],
        },
        None => Seq::empty(),
    }
}

/// `key=value`.
pub open spec fn pair_text(pair: (Seq<u8>, Seq<u8>)) -> Seq<u8> {
    pair.0 + (seq![EQUALS] + pair.1)
}

/// The pairs of a query, with `&` between them.
pub open spec fn pairs_text(pairs: Seq<(Seq<u8>, Seq<u8>)>) -> Seq<u8>
    decreases pairs.len(),
{
    if pairs.len() == 0 {
        Seq::empty()
    } else if pairs.len() == 1 {
        pair_text(pairs[0])
    } else {
        pair_text(pairs[0]) + (seq![AMPERSAND] + pairs_text(pairs.drop_first()))
    }
}

/// `?` and the pairs of the query.
pub open spec fn query_text(query: Option<Seq<(Seq<u8>, Seq<u8>)>>) -> Seq<u8> {
    match query {
        Some(pairs) => seq![QUESTION_MARK] + pairs_text(pairs),
        None => Seq::empty(),
    }
}

/// The path as it is.
pub open spec fn path_text(path: Option<Seq<u8>>) -> Seq<u8> {
    match path {
        Some(p) => p,
        None => Seq::empty(),
    }
}

/// `#` and the fragment.
pub open spec fn fragment_text(fragment: Option<Seq<u8>>) -> Seq<u8> {
    match fragment {
        Some(f) => seq![HASH] + f,
        None => Seq::empty(),
    }
}

/// What stands behind the host: the port, the path, the query and the
/// fragment, as far as they are there.
pub open spec fn tail_text(uri: UriView) -> Seq<u8> {
    port_text(uri.port) + (path_text(uri.path) + (query_text(uri.query) + fragment_text(
        uri.fragment,
    )))
}

/// The text of a target: an absolute URI where the target has a scheme,
/// else the path and the query where it has a path, else `*`.
pub open spec fn uri_text(uri: UriView) -> Seq<u8> {
    match uri.scheme {
        Some(scheme) => scheme.prefix() + (authority_text(uri.authority) + (host_text(uri.host)
            + tail_text(uri))),
        None => match uri.path {
            Some(path) => path + query_text(uri.query),
            None => seq![ASTERISK],
        },
    }
}

/// The end of a line.
pub open spec fn line_end_text() -> Seq<u8> {
    seq![CARRIAGE_RETURN, LINE_FEED]
}

/// `name: value` and the end of the line.
pub open spec fn header_text(header: (Seq<u8>, Seq<u8>)) -> Seq<u8> {
    header.0 + (seq![COLON, SPACE] + (header.1 + line_end_text()))
}

/// The lines of the header fields, one behind the other.
pub open spec fn headers_text(headers: Seq<(Seq<u8>, Seq<u8>)>) -> Seq<u8>
    decreases headers.len(),
{
    if headers.len() == 0 {
        Seq::empty()
    } else {
        header_text(headers[0]) + headers_text(headers.drop_first())
    }
}

/// `method SP target SP version` and the end of the line.
pub open spec fn request_line_text(method: Method, uri: UriView, version: Version) -> Seq<u8> {
    method.token() + (seq![SPACE] + (uri_text(uri) + (seq![SPACE] + (version.token()
        + line_end_text()))))
}

/// The request line, the header fields, and the empty line that ends the
/// head.
pub open spec fn request_text(request: RequestView) -> Seq<u8> {
    request_line_text(request.method, request.uri, request.version) + (headers_text(
        request.headers,
    ) + line_end_text())
}

} // verus!
