//! A query that was read is valid, and a valid query is read back from its
//! text.

use crate::render::{pair_text, pairs_text, query_text};
use crate::roundtrip::follow::{after_path, after_query};
use crate::roundtrip::texts::{lemma_concat_assoc, lemma_concat_parts, lemma_span_text};
use crate::text::{lemma_run_is_run, span, CharClass, AMPERSAND, EQUALS, HASH, QUESTION_MARK, SPACE};
use crate::uri::{lemma_pairs_unfold, spec_pair, spec_pairs, spec_query};
use crate::valid::{valid_pair, valid_pairs, valid_query};
use vstd::prelude::*;

verus! {

/// What can stand behind a pair: `&`, or what stands behind a query.
pub open spec fn after_pair(x: Seq<u8>) -> bool {
    x.len() > 0 && (x[0] == SPACE || x[0] == HASH || x[0] == AMPERSAND)
}

/// A pair that was read is valid and ends within the text.
pub proof fn lemma_pair_valid(s: Seq<u8>)
    ensures
        valid_pair(spec_pair(s).0),
        spec_pair(s).1 <= s.len(),
{
    reveal(spec_pair);
    lemma_run_is_run(s, CharClass::Key, s.len());
    let key = span(s, CharClass::Key);
    let pair = spec_pair(s).0;
    assert forall|i: int| 0 <= i < pair.0.len() implies CharClass::Key.has(
        #[trigger] pair.0[i],
    ) by {
        assert(pair.0[i] == s[i]);
    }
    if key < s.len() && s[key as int] == EQUALS {
        let t = s.skip(key + 1 as int);
        lemma_run_is_run(t, CharClass::Value, t.len());
        assert forall|i: int| 0 <= i < pair.1.len() implies CharClass::Value.has(
            #[trigger] pair.1[i],
        ) by {
            assert(pair.1[i] == t[i]);
        }
    }
}

/// The pairs that were read are valid and end within the text.
pub proof fn lemma_pairs_valid(s: Seq<u8>)
    ensures
        valid_pairs(spec_pairs(s).0),
        spec_pairs(s).1 <= s.len(),
    decreases s.len(),
{
    lemma_pairs_unfold(s);
    lemma_pair_valid(s);
    let (pair, n) = spec_pair(s);
    if n < s.len() && s[n as int] == AMPERSAND {
        let t = s.skip(n + 1 as int);
        lemma_pairs_valid(t);
        let more = spec_pairs(t).0;
        let all = seq![pair] + more;
        assert forall|i: int| 0 <= i < all.len() implies valid_pair(#[trigger] all[i]) by {
            if i > 0 {
                assert(all[i] == more[i - 1]);
            }
        }
    }
}

/// A query that was read is valid; it begins with `?` and ends within the
/// text.
pub proof fn lemma_query_valid(s: Seq<u8>)
    ensures
        valid_query(spec_query(s).0),
        spec_query(s).1 <= s.len(),
        spec_query(s).1 > 0 ==> s[0] == QUESTION_MARK,
{
    reveal(spec_query);
    if s.len() > 0 {
        lemma_pairs_valid(s.skip(1));
    }
}

/// The text of a valid pair is read back as that pair.
pub proof fn lemma_pair_text(pair: (Seq<u8>, Seq<u8>), rest: Seq<u8>)
    requires
        valid_pair(pair),
        after_pair(rest),
    ensures
        spec_pair(pair_text(pair) + rest) == (pair, pair_text(pair).len()),
{
    reveal(spec_pair);
    let s = pair_text(pair) + rest;
    let after_key = seq![EQUALS] + (pair.1 + rest);
    lemma_concat_assoc(seq![EQUALS], pair.1, rest);
    lemma_concat_assoc(pair.0, seq![EQUALS] + pair.1, rest);
    assert(s == pair.0 + after_key);
    lemma_span_text(pair.0, after_key, CharClass::Key);
    lemma_concat_parts(pair.0, after_key);
    assert(s[pair.0.len() as int] == EQUALS) by {
        assert(s.skip(pair.0.len() as int)[0] == after_key[0]);
    }
    lemma_concat_parts(seq![EQUALS], pair.1 + rest);
    assert(s.skip(pair.0.len() + 1 as int) == pair.1 + rest) by {
        assert(s.skip(pair.0.len() as int).skip(1) =~= s.skip(pair.0.len() + 1 as int));
    }
    lemma_span_text(pair.1, rest, CharClass::Value);
    assert(s.subrange(pair.0.len() + 1 as int, (pair.0.len() + 1 + pair.1.len()) as int)
        =~= pair.1);
}

/// The text of valid pairs is read back as those pairs.
pub proof fn lemma_pairs_text(pairs: Seq<(Seq<u8>, Seq<u8>)>, rest: Seq<u8>)
    requires
        pairs.len() > 0,
        valid_pairs(pairs),
        after_query(rest),
    ensures
        spec_pairs(pairs_text(pairs) + rest) == (pairs, pairs_text(pairs).len()),
        CharClass::Query.has((pairs_text(pairs) + rest)[0]),
    decreases pairs.len(),
{
    let s = pairs_text(pairs) + rest;
    let first = pair_text(pairs[0]);
    lemma_pairs_unfold(s);
    assert(valid_pair(pairs[0]));
    if pairs.len() == 1 {
        lemma_pair_text(pairs[0], rest);
        lemma_concat_parts(first, rest);
        assert(seq![pairs[0]] =~= pairs);
    } else {
        let others = pairs.drop_first();
        assert forall|i: int| 0 <= i < others.len() implies valid_pair(#[trigger] others[i]) by {
            assert(others[i] == pairs[i + 1]);
        }
        lemma_pairs_text(others, rest);
        let tail = pairs_text(others) + rest;
        let after_first = seq![AMPERSAND] + tail;
        lemma_concat_assoc(seq![AMPERSAND], pairs_text(others), rest);
        lemma_concat_assoc(first, seq![AMPERSAND] + pairs_text(others), rest);
        assert(s == first + after_first);
        lemma_pair_text(pairs[0], after_first);
        lemma_concat_parts(first, after_first);
        lemma_concat_parts(seq![AMPERSAND], tail);
        assert(s[first.len() as int] == AMPERSAND) by {
            assert(s.skip(first.len() as int)[0] == after_first[0]);
        }
        assert(s.skip(first.len() + 1 as int) == tail) by {
            assert(s.skip(first.len() as int).skip(1) =~= s.skip(first.len() + 1 as int));
        }
        assert(seq![pairs[0]] + others =~= pairs);
    }
    // the first byte of the text is the first byte of the first key, or `=`
    let key = pairs[0].0;
    lemma_concat_parts(pairs_text(pairs), rest);
    if key.len() > 0 {
        assert(CharClass::Key.has(key[0]));
        assert(first[0] == key[0]);
    } else {
        assert(first =~= seq![EQUALS] + pairs[0].1);
        assert(first[0] == EQUALS);
    }
    assert(pairs_text(pairs)[0] == first[0]);
}

/// The text of a valid query, or no text where there is no query, is read
/// back as that query.
pub proof fn lemma_query_text(query: Option<Seq<(Seq<u8>, Seq<u8>)>>, rest: Seq<u8>)
    requires
        valid_query(query),
        after_query(rest),
    ensures
        spec_query(query_text(query) + rest) == (query, query_text(query).len()),
        after_path(query_text(query) + rest),
{
    reveal(spec_query);
    let text = query_text(query);
    let s = text + rest;
    lemma_concat_parts(text, rest);
    if let Some(pairs) = query {
        lemma_concat_assoc(seq![QUESTION_MARK], pairs_text(pairs), rest);
        lemma_concat_parts(seq![QUESTION_MARK], pairs_text(pairs) + rest);
        assert(s[0] == QUESTION_MARK);
        assert(s.skip(1) == pairs_text(pairs) + rest);
        if pairs.len() > 0 {
            lemma_pairs_text(pairs, rest);
            assert(s[1] == s.skip(1)[0]);
        } else {
            assert(pairs_text(pairs) =~= Seq::<u8>::empty());
            assert(pairs =~= Seq::empty());
            assert(s[1] == s.skip(1)[0]);
            assert(pairs_text(pairs) + rest =~= rest);
        }
    }
}

} // verus!
