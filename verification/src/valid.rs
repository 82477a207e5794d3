//! Which values the rules can yield.
//!
//! The types of the model have public fields, so a value can be put together
//! by hand that no text is read as: a path without its slash, a header name
//! with a space in it. The predicates here say which values are the result of
//! reading some text. Every value that `parse_request` returns is valid, and
//! the canonical text of every valid request is read back as that request.
//! The methods `is_valid` test a value that was put together by hand.

use crate::error::Failure;
use crate::host::{parse_host, spec_host};
use crate::model::{
    pair_view, pairs_view, text_view, Authority, AuthorityView, Host, HostView, Request,
    RequestView, Uri, UriView,
};
use crate::roundtrip::hosts::lemma_named_bytes;
use crate::text::{
    begins_with_byte, byte_len, is_run, lemma_run_is_run, lemma_run_unique, scan, CharClass, DOT,
    SLASH,
};
use vstd::prelude::*;
use vstd::string::*;
use vstd::utf8::encode_utf8;

verus! {

/// Whether all of `text` lies in `class`.
pub open spec fn all_in(text: Seq<u8>, class: CharClass) -> bool {
    forall|i: int| 0 <= i < text.len() ==> class.has(#[trigger] text[i])
}

/// Whether `b` can stand in a host: a letter, a digit, a hyphen or a dot.
pub open spec fn is_host_byte(b: u8) -> bool {
    CharClass::Label.has(b) || b == DOT
}

/// Whether all of `text` can stand in a host.
pub open spec fn host_bytes(text: Seq<u8>) -> bool {
    forall|i: int| 0 <= i < text.len() ==> is_host_byte(#[trigger] text[i])
}

/// A user name and a password are not empty and made of letters and digits.
pub open spec fn valid_authority(authority: Option<AuthorityView>) -> bool {
    authority matches Some(a) ==> {
        &&& a.username.len() > 0
        &&& all_in(a.username, CharClass::Alphanumeric)
        &&& a.password matches Some(password) ==> password.len() > 0 && all_in(
            password,
            CharClass::Alphanumeric,
        )
    }
}

/// A host name is one that, standing alone, is read as itself.
pub open spec fn valid_name(name: Seq<u8>) -> bool {
    &&& name.len() > 0
    &&& host_bytes(name)
    &&& spec_host(name) == Ok::<(HostView, nat), Failure>((HostView::Named(name), name.len()))
}

/// The host of an absolute URI is a valid name or an address of four
/// octets.
pub open spec fn valid_host(host: HostView) -> bool {
    match host {
        HostView::Named(name) => valid_name(name),
        HostView::IPv4(octets) => octets.len() == 4,
        HostView::Wildcard => false,
    }
}

/// A port has at most four digits.
pub open spec fn valid_port(port: Option<u16>) -> bool {
    port matches Some(p) ==> p <= 9999
}

/// A path begins with a slash and holds no `?`, no `#`, no space and no
/// control byte.
pub open spec fn valid_path(path: Option<Seq<u8>>) -> bool {
    path matches Some(p) ==> p.len() > 0 && p[0] == SLASH && all_in(p, CharClass::Path)
}

/// The keys and values of a pair are free of the bytes that end them.
pub open spec fn valid_pair(pair: (Seq<u8>, Seq<u8>)) -> bool {
    all_in(pair.0, CharClass::Key) && all_in(pair.1, CharClass::Value)
}

/// All pairs are valid.
pub open spec fn valid_pairs(pairs: Seq<(Seq<u8>, Seq<u8>)>) -> bool {
    forall|i: int| 0 <= i < pairs.len() ==> valid_pair(#[trigger] pairs[i])
}

/// A query, where there is one, holds valid pairs.
pub open spec fn valid_query(query: Option<Seq<(Seq<u8>, Seq<u8>)>>) -> bool {
    query matches Some(pairs) ==> valid_pairs(pairs)
}

/// A fragment holds no space and no control byte.
pub open spec fn valid_fragment(fragment: Option<Seq<u8>>) -> bool {
    fragment matches Some(f) ==> all_in(f, CharClass::Fragment)
}

/// A target with a scheme has a valid host and valid parts around it. A
/// target without a scheme is the wildcard, or a path with or without a
/// query; its host is the wildcard.
pub open spec fn valid_uri(uri: UriView) -> bool {
    &&& valid_path(uri.path)
    &&& valid_query(uri.query)
    &&& match uri.scheme {
        Some(_) => {
            &&& valid_authority(uri.authority)
            &&& valid_host(uri.host)
            &&& valid_port(uri.port)
            &&& valid_fragment(uri.fragment)
        },
        None => {
            &&& uri.authority is None
            &&& uri.host is Wildcard
            &&& uri.port is None
            &&& uri.fragment is None
            &&& uri.path is None ==> uri.query is None
        },
    }
}

/// The name of a header field is a run of letters, digits and hyphens. Its
/// value holds no line feed and does not begin with a space or a tab.
pub open spec fn valid_header(header: (Seq<u8>, Seq<u8>)) -> bool {
    &&& header.0.len() > 0
    &&& all_in(header.0, CharClass::Label)
    &&& all_in(header.1, CharClass::Line)
    &&& header.1.len() > 0 ==> !CharClass::Blank.has(header.1[0])
}

/// All header fields are valid.
pub open spec fn valid_headers(headers: Seq<(Seq<u8>, Seq<u8>)>) -> bool {
    forall|i: int| 0 <= i < headers.len() ==> valid_header(#[trigger] headers[i])
}

/// A request is valid if its target and its header fields are.
pub open spec fn valid_request(request: RequestView) -> bool {
    valid_uri(request.uri) && valid_headers(request.headers)
}

/// Whether all of `text` lies in `class`.
pub fn is_all_in(text: &str, class: CharClass) -> (r: bool)
    ensures
        r == all_in(text.spec_bytes(), class),
{
    let length = byte_len(text);
    let n = scan(text, class, length);
    proof {
        let s = text.spec_bytes();
        lemma_run_is_run(s, class, s.len());
        if all_in(s, class) {
            assert(is_run(s, class, s.len(), s.len()));
            lemma_run_unique(s, class, s.len(), s.len());
        }
    }
    n == length
}

/// Whether all of `text` can stand in a host.
fn is_host_text(text: &str) -> (r: bool)
    ensures
        r == host_bytes(text.spec_bytes()),
{
    let bytes = text.as_bytes();
    let mut i: usize = 0;
    while i < bytes.len()
        invariant
            bytes@ == text.spec_bytes(),
            i <= bytes@.len(),
            forall|k: int| 0 <= k < i ==> is_host_byte(#[trigger] bytes@[k]),
        decreases bytes@.len() - i,
    {
        if !(CharClass::Label.contains(bytes[i]) || bytes[i] == DOT) {
            return false;
        }
        i += 1;
    }
    true
}

/// Whether `name` is a valid host name.
pub fn is_valid_name(name: &str) -> (r: bool)
    ensures
        r == valid_name(name.spec_bytes()),
{
    proof {
        reveal(spec_host);
        lemma_named_bytes(name.spec_bytes());
        assert(name.spec_bytes().take(name.spec_bytes().len() as int) =~= name.spec_bytes());
    }
    if byte_len(name) == 0 || !is_host_text(name) {
        return false;
    }
    match parse_host(name) {
        Ok((Host::Named(_), rest)) => byte_len(rest) == 0,
        _ => false,
    }
}

/// Whether an optional text is absent or lies in `class`.
fn is_optional_in(text: &Option<String>, class: CharClass) -> (r: bool)
    ensures
        r == (text_view(*text) matches Some(t) ==> all_in(t, class)),
{
    match text {
        Some(t) => is_all_in(t.as_str(), class),
        None => true,
    }
}

/// Whether all pairs are valid.
fn are_valid_pairs(pairs: &Vec<(String, String)>) -> (r: bool)
    ensures
        r == valid_pairs(pairs_view(pairs@)),
{
    let ghost view = pairs_view(pairs@);
    let mut i: usize = 0;
    while i < pairs.len()
        invariant
            i <= pairs.len(),
            view == pairs_view(pairs@),
            forall|k: int| 0 <= k < i ==> valid_pair(#[trigger] view[k]),
        decreases pairs.len() - i,
    {
        let pair = &pairs[i];
        proof {
            assert(view[i as int] == pair_view(*pair));
        }
        if !(is_all_in(pair.0.as_str(), CharClass::Key) && is_all_in(
            pair.1.as_str(),
            CharClass::Value,
        )) {
            return false;
        }
        i += 1;
    }
    true
}

/// Whether all header fields are valid.
fn are_valid_headers(headers: &Vec<(String, String)>) -> (r: bool)
    ensures
        r == valid_headers(pairs_view(headers@)),
{
    let ghost view = pairs_view(headers@);
    let mut i: usize = 0;
    while i < headers.len()
        invariant
            i <= headers.len(),
            view == pairs_view(headers@),
            forall|k: int| 0 <= k < i ==> valid_header(#[trigger] view[k]),
        decreases headers.len() - i,
    {
        let header = &headers[i];
        proof {
            assert(view[i as int] == pair_view(*header));
        }
        let name = header.0.as_str();
        let value = header.1.as_str();
        let begins_blank = byte_len(value) > 0 && CharClass::Blank.contains(value.as_bytes()[0]);
        if !(byte_len(name) > 0 && is_all_in(name, CharClass::Label) && is_all_in(
            value,
            CharClass::Line,
        ) && !begins_blank) {
            return false;
        }
        i += 1;
    }
    true
}

impl Authority {
    /// Whether the rules can yield these credentials.
    pub fn is_valid(&self) -> (r: bool)
        ensures
            r == valid_authority(Some(self@)),
    {
        let user = self.username.as_str();
        if !(byte_len(user) > 0 && is_all_in(user, CharClass::Alphanumeric)) {
            return false;
        }
        match &self.password {
            Some(p) => byte_len(p.as_str()) > 0 && is_all_in(p.as_str(), CharClass::Alphanumeric),
            None => true,
        }
    }
}

impl Host {
    /// Whether the rules can yield this host for an absolute URI.
    pub fn is_valid(&self) -> (r: bool)
        ensures
            r == valid_host(self@),
    {
        match self {
            Host::Named(name) => is_valid_name(name.as_str()),
            Host::IPv4(_) => true,
            Host::Wildcard => false,
        }
    }
}

impl Uri {
    /// Whether the rules can yield this target in a request line.
    pub fn is_valid(&self) -> (r: bool)
        ensures
            r == valid_uri(self@),
    {
        let path_ok = match &self.path {
            Some(p) => begins_with_byte(p.as_str(), SLASH) && is_all_in(
                p.as_str(),
                CharClass::Path,
            ),
            None => true,
        };
        let query_ok = match &self.query {
            Some(q) => are_valid_pairs(q),
            None => true,
        };
        if !(path_ok && query_ok) {
            return false;
        }
        match self.scheme {
            Some(_) => {
                let authority_ok = match &self.authority {
                    Some(a) => a.is_valid(),
                    None => true,
                };
                let port_ok = match self.port {
                    Some(p) => p <= 9999,
                    None => true,
                };
                authority_ok && self.host.is_valid() && port_ok && is_optional_in(
                    &self.fragment,
                    CharClass::Fragment,
                )
            },
            None => {
                let wildcard = match self.host {
                    Host::Wildcard => true,
                    _ => false,
                };
                self.authority.is_none() && wildcard && self.port.is_none()
                    && self.fragment.is_none() && (self.path.is_some() || self.query.is_none())
            },
        }
    }
}

impl Request {
    /// Whether the rules can yield this request, and so whether its
    /// canonical text is read back as this request.
    pub fn is_valid(&self) -> (r: bool)
        ensures
            r == valid_request(self@),
    {
        self.uri.is_valid() && are_valid_headers(&self.headers)
    }
}

} // verus!
