//! A path and a fragment that were read are valid, and valid ones are read
//! back from their text.

use crate::render::{fragment_text, path_text};
use crate::roundtrip::follow::{after_fragment, after_path, after_port, after_query};
use crate::roundtrip::texts::{lemma_concat_assoc, lemma_concat_parts, lemma_span_text};
use crate::text::{lemma_run_is_run, CharClass, HASH, SLASH};
use crate::uri::{spec_fragment, spec_path};
use crate::valid::{valid_fragment, valid_path};
use vstd::prelude::*;

verus! {

/// A path that was read is valid; it begins with a slash and ends within
/// the text.
pub proof fn lemma_path_valid(s: Seq<u8>)
    ensures
        valid_path(spec_path(s).0),
        spec_path(s).1 <= s.len(),
        spec_path(s).1 > 0 ==> s[0] == SLASH,
{
    reveal(spec_path);
    lemma_run_is_run(s, CharClass::Path, s.len());
    if let Some(path) = spec_path(s).0 {
        assert forall|i: int| 0 <= i < path.len() implies CharClass::Path.has(
            #[trigger] path[i],
        ) by {
            assert(path[i] == s[i]);
        }
        assert(path[0] == s[0]);
    }
}

/// The text of a valid path, or no text where there is no path, is read
/// back as that path.
pub proof fn lemma_path_text(path: Option<Seq<u8>>, rest: Seq<u8>)
    requires
        valid_path(path),
        after_path(rest),
    ensures
        spec_path(path_text(path) + rest) == (path, path_text(path).len()),
        after_port(path_text(path) + rest),
{
    reveal(spec_path);
    let text = path_text(path);
    lemma_concat_parts(text, rest);
    if let Some(p) = path {
        lemma_span_text(p, rest, CharClass::Path);
    }
}

/// A fragment that was read is valid; it begins with `#` and ends within
/// the text.
pub proof fn lemma_fragment_valid(s: Seq<u8>)
    ensures
        valid_fragment(spec_fragment(s).0),
        spec_fragment(s).1 <= s.len(),
        spec_fragment(s).1 > 0 ==> s[0] == HASH,
{
    reveal(spec_fragment);
    if let Some(fragment) = spec_fragment(s).0 {
        let t = s.skip(1);
        lemma_run_is_run(t, CharClass::Fragment, t.len());
        assert forall|i: int| 0 <= i < fragment.len() implies CharClass::Fragment.has(
            #[trigger] fragment[i],
        ) by {
            assert(fragment[i] == t[i]);
        }
    }
}

/// The text of a valid fragment, or no text where there is no fragment, is
/// read back as that fragment.
pub proof fn lemma_fragment_text(fragment: Option<Seq<u8>>, rest: Seq<u8>)
    requires
        valid_fragment(fragment),
        after_fragment(rest),
    ensures
        spec_fragment(fragment_text(fragment) + rest) == (fragment, fragment_text(fragment).len()),
        after_query(fragment_text(fragment) + rest),
{
    reveal(spec_fragment);
    let text = fragment_text(fragment);
    lemma_concat_parts(text, rest);
    if let Some(f) = fragment {
        let s = text + rest;
        lemma_concat_assoc(seq![HASH], f, rest);
        lemma_concat_parts(seq![HASH], f + rest);
        lemma_span_text(f, rest, CharClass::Fragment);
        assert(s.subrange(1, 1 + f.len() as int) =~= f);
    }
}

} // verus!
