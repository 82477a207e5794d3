//! A target that was read from a request line is valid, and a valid target
//! is read back from its text.

use crate::authority::spec_authority;
use crate::error::Failure;
use crate::host::spec_host;
use crate::model::{Scheme, UriView};
use crate::render::{authority_text, host_text, path_text, query_text, tail_text, uri_text};
use crate::roundtrip::credentials::{
    lemma_authority_text, lemma_authority_valid, lemma_no_authority,
};
use crate::roundtrip::follow::after_fragment;
use crate::roundtrip::frame::{agree, host_stop, lemma_frame_host};
use crate::roundtrip::hosts::{lemma_host_text, lemma_host_text_bytes, lemma_host_valid};
use crate::roundtrip::pairs::{lemma_query_text, lemma_query_valid};
use crate::roundtrip::parts::{lemma_path_text, lemma_path_valid};
use crate::roundtrip::tails::{behind_port, lemma_tail_split, lemma_tail_text, lemma_tail_valid};
use crate::roundtrip::texts::{lemma_concat_assoc, lemma_concat_parts, lemma_skip_twice};
use crate::text::{starts_with_no_case, ASTERISK, SLASH, SPACE};
use crate::uri::{
    spec_absolute, spec_origin, spec_path, spec_scheme, spec_tail, spec_uri, wildcard_target,
};
use crate::valid::valid_uri;
use vstd::prelude::*;

verus! {

/// What an absolute URI begins with, revealed byte by byte.
proof fn lemma_prefixes()
    ensures
        Scheme::HTTP.prefix() =~= seq![0x68u8, 0x74, 0x74, 0x70, 0x3a, 0x2f, 0x2f],
        Scheme::HTTPS.prefix() =~= seq![0x68u8, 0x74, 0x74, 0x70, 0x73, 0x3a, 0x2f, 0x2f],
{
    reveal_strlit("http");
    reveal_strlit("https");
    reveal_strlit("://");
}

/// The text that an absolute URI of a scheme begins with is read back as
/// that scheme.
pub proof fn lemma_scheme_text(scheme: Scheme, rest: Seq<u8>)
    ensures
        spec_scheme(scheme.prefix() + rest) == Ok::<(Scheme, nat), Failure>(
            (scheme, scheme.prefix().len()),
        ),
        scheme.prefix().len() > 0,
        (scheme.prefix() + rest)[0] != ASTERISK,
        (scheme.prefix() + rest)[0] != SLASH,
{
    reveal(spec_scheme);
    lemma_prefixes();
    let s = scheme.prefix() + rest;
    lemma_concat_parts(scheme.prefix(), rest);
    assert forall|i: int| 0 <= i < scheme.prefix().len() implies #[trigger] s[i]
        == scheme.prefix()[i] by {}
    assert(starts_with_no_case(s, scheme.prefix()));
    if scheme == Scheme::HTTPS {
        assert(s[4] == Scheme::HTTPS.prefix()[4]);
        assert(crate::text::lower(s[4]) != crate::text::lower(Scheme::HTTP.prefix()[4]));
    }
}

/// A host that was read ends within the text.
proof fn lemma_host_bound(s: Seq<u8>)
    ensures
        spec_host(s) matches Ok((_, n)) ==> n <= s.len(),
{
    assert(agree(s, s, s.len()));
    lemma_frame_host(s, s, s.len());
}

/// An absolute URI that was read, with a space behind it, is valid.
pub proof fn lemma_absolute_valid(s: Seq<u8>)
    requires
        spec_absolute(s) matches Ok((_, n)) && n < s.len() && s[n as int] == SPACE,
    ensures
        spec_absolute(s) matches Ok((uri, _)) && valid_uri(uri) && uri.scheme is Some,
{
    reveal(spec_absolute);
    let (scheme, n0) = spec_scheme(s)->Ok_0;
    let s1 = s.skip(n0 as int);
    lemma_authority_valid(s1);
    let n1 = spec_authority(s1).1;
    let at_host = n0 + n1;
    let s2 = s.skip(at_host as int);
    lemma_host_bound(s2);
    let (host, n2) = spec_host(s2)->Ok_0;
    let at_tail = at_host + n2;
    let s3 = s.skip(at_tail as int);
    lemma_tail_valid(s3);
    let n3 = spec_tail(s3).1;
    assert(s2.skip(n2 as int) =~= s3);
    assert(s3.len() > 0);
    assert(s3[0] == s2[n2 as int]);
    assert(s3[n3 as int] == s[(at_tail + n3) as int]);
    assert(host_stop(s2, n2));
    lemma_host_valid(s2);
}

/// The text of a valid absolute URI, before the space that ends the
/// target, is read back as that URI.
pub proof fn lemma_absolute_text(uri: UriView, rest: Seq<u8>)
    requires
        valid_uri(uri),
        uri.scheme is Some,
        after_fragment(rest),
    ensures
        spec_absolute(uri_text(uri) + rest) == Ok::<(UriView, nat), Failure>(
            (uri, uri_text(uri).len()),
        ),
        (uri_text(uri) + rest)[0] != ASTERISK,
        (uri_text(uri) + rest)[0] != SLASH,
{
    reveal(spec_absolute);
    let scheme = uri.scheme->Some_0;
    let prefix = scheme.prefix();
    let credentials = authority_text(uri.authority);
    let host = host_text(uri.host);
    let tail = tail_text(uri);
    let s3 = tail + rest;
    let s2 = host + s3;
    let s1 = credentials + s2;
    let s0 = prefix + s1;
    assert(s0 == uri_text(uri) + rest && uri_text(uri).len() == prefix.len() + credentials.len()
        + host.len() + tail.len()) by {
        lemma_concat_assoc(host, tail, rest);
        lemma_concat_assoc(credentials, host + tail, rest);
        lemma_concat_assoc(prefix, credentials + (host + tail), rest);
    }
    lemma_scheme_text(scheme, s1);
    lemma_concat_parts(prefix, s1);
    lemma_tail_text(uri, rest);
    assert(host_stop(s3, 0));
    lemma_host_text(uri.host, s3);
    lemma_concat_parts(host, s3);
    assert(spec_authority(s1) == (uri.authority, credentials.len())) by {
        match uri.authority {
            Some(a) => {
                lemma_authority_text(a, s2);
            },
            None => {
                lemma_tail_split(uri, rest);
                lemma_host_text_bytes(uri.host);
                lemma_no_authority(host, uri.port, behind_port(uri, rest));
                lemma_concat_parts(credentials, s2);
            },
        }
    }
    lemma_concat_parts(credentials, s2);
    lemma_skip_twice(s0, prefix.len(), credentials.len());
    lemma_skip_twice(s0, prefix.len() + credentials.len(), host.len());
}

/// A target in origin form that was read is valid.
pub proof fn lemma_origin_valid(s: Seq<u8>)
    requires
        s.len() > 0,
        s[0] == SLASH,
    ensures
        valid_uri(spec_origin(s).0),
        spec_origin(s).0.scheme is None,
{
    reveal(spec_origin);
    reveal(spec_path);
    lemma_path_valid(s);
    lemma_query_valid(s.skip(spec_path(s).1 as int));
}

/// The text of a valid target in origin form, before the space that ends
/// the target, is read back as that target.
pub proof fn lemma_origin_text(uri: UriView, rest: Seq<u8>)
    requires
        valid_uri(uri),
        uri.scheme is None,
        uri.path is Some,
        after_fragment(rest),
    ensures
        spec_origin(uri_text(uri) + rest) == (uri, uri_text(uri).len()),
        (uri_text(uri) + rest)[0] == SLASH,
{
    reveal(spec_origin);
    let path = path_text(uri.path);
    let query = query_text(uri.query);
    let s1 = query + rest;
    let s0 = path + s1;
    lemma_concat_assoc(path, query, rest);
    lemma_query_text(uri.query, rest);
    lemma_path_text(uri.path, s1);
    lemma_concat_parts(path, s1);
    lemma_concat_parts(query, rest);
}

/// A target that was read, with a space behind it, is valid.
pub proof fn lemma_uri_valid(s: Seq<u8>)
    requires
        spec_uri(s) matches Ok((_, n)) && n < s.len() && s[n as int] == SPACE,
    ensures
        spec_uri(s) matches Ok((uri, _)) && valid_uri(uri),
{
    reveal(spec_uri);
    if s.len() > 0 && s[0] == ASTERISK {
    } else if s.len() > 0 && s[0] == SLASH {
        lemma_origin_valid(s);
    } else {
        lemma_absolute_valid(s);
    }
}

/// The text of a valid target, before the space that ends the target, is
/// read back as that target.
pub proof fn lemma_uri_text(uri: UriView, rest: Seq<u8>)
    requires
        valid_uri(uri),
        after_fragment(rest),
    ensures
        spec_uri(uri_text(uri) + rest) == Ok::<(UriView, nat), Failure>((uri, uri_text(uri).len())),
{
    reveal(spec_uri);
    let s = uri_text(uri) + rest;
    match uri.scheme {
        Some(_) => {
            lemma_absolute_text(uri, rest);
        },
        None => match uri.path {
            Some(_) => {
                lemma_origin_text(uri, rest);
            },
            None => {
                lemma_concat_parts(seq![ASTERISK], rest);
                assert(uri == wildcard_target());
            },
        },
    }
}

/// A target that was read ends within the text.
pub proof fn lemma_uri_bound(s: Seq<u8>)
    ensures
        spec_uri(s) matches Ok((_, n)) ==> n <= s.len(),
{
    reveal(spec_uri);
    if s.len() > 0 && s[0] == ASTERISK {
    } else if s.len() > 0 && s[0] == SLASH {
        reveal(spec_origin);
        lemma_path_valid(s);
        let n1 = spec_path(s).1;
        lemma_query_valid(s.skip(n1 as int));
    } else if spec_absolute(s) is Ok {
        reveal(spec_absolute);
        reveal(spec_scheme);
        let (_, n0) = spec_scheme(s)->Ok_0;
        let s1 = s.skip(n0 as int);
        lemma_authority_valid(s1);
        let n1 = spec_authority(s1).1;
        let s2 = s.skip((n0 + n1) as int);
        lemma_host_bound(s2);
        let (_, n2) = spec_host(s2)->Ok_0;
        lemma_tail_valid(s.skip((n0 + n1 + n2) as int));
    }
}

} // verus!
