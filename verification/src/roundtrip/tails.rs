//! What stands behind the host: read parts are valid, and valid parts are
//! read back from their text.

use crate::model::UriView;
use crate::render::{fragment_text, path_text, port_text, query_text, tail_text};
use crate::roundtrip::follow::{after_fragment, after_host, after_port};
use crate::roundtrip::pairs::{lemma_query_text, lemma_query_valid};
use crate::roundtrip::parts::{
    lemma_fragment_text, lemma_fragment_valid, lemma_path_text, lemma_path_valid,
};
use crate::roundtrip::ports::{lemma_port_text, lemma_port_valid};
use crate::roundtrip::texts::{lemma_concat_assoc, lemma_concat_parts, lemma_skip_twice};
use crate::text::{COLON, HASH, QUESTION_MARK, SLASH};
use crate::uri::{spec_optional_port, spec_path, spec_query, spec_tail, TailView};
use crate::valid::{valid_fragment, valid_path, valid_port, valid_query};
use vstd::prelude::*;

verus! {

/// The parts that were read behind a host are valid. They end within the
/// text, and where anything was read, the text begins with the mark of one
/// of the parts.
pub proof fn lemma_tail_valid(s: Seq<u8>)
    ensures
        valid_port(spec_tail(s).0.port),
        valid_path(spec_tail(s).0.path),
        valid_query(spec_tail(s).0.query),
        valid_fragment(spec_tail(s).0.fragment),
        spec_tail(s).1 <= s.len(),
        spec_tail(s).1 > 0 ==> s[0] == COLON || s[0] == SLASH || s[0] == QUESTION_MARK || s[0]
            == HASH,
{
    reveal(spec_tail);
    lemma_port_valid(s);
    let n0 = spec_optional_port(s).1;
    let s1 = s.skip(n0 as int);
    lemma_path_valid(s1);
    let n1 = spec_path(s1).1;
    lemma_skip_twice(s, n0, n1);
    let s2 = s.skip((n0 + n1) as int);
    lemma_query_valid(s2);
    let n2 = spec_query(s2).1;
    lemma_skip_twice(s, n0 + n1, n2);
    let s3 = s.skip((n0 + n1 + n2) as int);
    lemma_fragment_valid(s3);
    if n0 == 0 {
        assert(s1 =~= s);
        if n1 == 0 {
            assert(s2 =~= s);
            if n2 == 0 {
                assert(s3 =~= s);
            }
        }
    }
}

/// The text of valid parts behind a host, before the space that ends the
/// target, is read back as those parts.
pub proof fn lemma_tail_text(uri: UriView, rest: Seq<u8>)
    requires
        valid_port(uri.port),
        valid_path(uri.path),
        valid_query(uri.query),
        valid_fragment(uri.fragment),
        after_fragment(rest),
    ensures
        spec_tail(tail_text(uri) + rest) == (
            TailView { port: uri.port, path: uri.path, query: uri.query, fragment: uri.fragment },
            tail_text(uri).len(),
        ),
        after_host(tail_text(uri) + rest),
{
    reveal(spec_tail);
    let port = port_text(uri.port);
    let path = path_text(uri.path);
    let query = query_text(uri.query);
    let fragment = fragment_text(uri.fragment);
    let s3 = fragment + rest;
    let s2 = query + s3;
    let s1 = path + s2;
    let s0 = port + s1;
    lemma_fragment_text(uri.fragment, rest);
    lemma_query_text(uri.query, s3);
    lemma_path_text(uri.path, s2);
    lemma_port_text(uri.port, s1);
    lemma_concat_assoc(query, fragment, rest);
    lemma_concat_assoc(path, query + fragment, rest);
    lemma_concat_assoc(port, path + (query + fragment), rest);
    assert(s0 == tail_text(uri) + rest);
    lemma_concat_parts(port, s1);
    lemma_concat_parts(path, s2);
    lemma_concat_parts(query, s3);
    lemma_concat_parts(fragment, rest);
    lemma_skip_twice(s0, port.len(), path.len());
    lemma_skip_twice(s0, port.len() + path.len(), query.len());
}

/// What stands behind the port of a target.
pub open spec fn behind_port(uri: UriView, rest: Seq<u8>) -> Seq<u8> {
    path_text(uri.path) + (query_text(uri.query) + (fragment_text(uri.fragment) + rest))
}

/// The text behind a host is the text of the port and what stands behind
/// the port.
pub proof fn lemma_tail_split(uri: UriView, rest: Seq<u8>)
    requires
        valid_path(uri.path),
        valid_query(uri.query),
        valid_fragment(uri.fragment),
        after_fragment(rest),
    ensures
        tail_text(uri) + rest == port_text(uri.port) + behind_port(uri, rest),
        after_port(behind_port(uri, rest)),
{
    let port = port_text(uri.port);
    let path = path_text(uri.path);
    let query = query_text(uri.query);
    let fragment = fragment_text(uri.fragment);
    let s3 = fragment + rest;
    let s2 = query + s3;
    lemma_fragment_text(uri.fragment, rest);
    lemma_query_text(uri.query, s3);
    lemma_path_text(uri.path, s2);
    lemma_concat_assoc(query, fragment, rest);
    lemma_concat_assoc(path, query + fragment, rest);
    lemma_concat_assoc(port, path + (query + fragment), rest);
}

} // verus!
