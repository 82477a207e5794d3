//! Header fields that were read are valid, and valid header fields are
//! read back from their text.

use crate::error::Failure;
use crate::header::{lemma_headers_unfold, line_value, spec_header, spec_headers, spec_spaced_colon};
use crate::laws::headers::{header_line, lemma_header_spacing};
use crate::render::{header_text, headers_text, line_end_text};
use crate::roundtrip::texts::{
    lemma_concat_assoc, lemma_concat_parts, lemma_skip_twice, lemma_span_text,
};
use crate::text::{
    lemma_run_is_run, lemma_run_unique, span, spec_take_while1, CharClass, CARRIAGE_RETURN,
    COLON, LINE_FEED, SPACE,
};
use crate::valid::{all_in, valid_header, valid_headers};
use vstd::prelude::*;

verus! {

/// A header field that was read is valid.
pub proof fn lemma_header_valid(s: Seq<u8>)
    ensures
        spec_header(s) matches Ok((header, _)) ==> valid_header(header),
{
    reveal(spec_header);
    reveal(spec_spaced_colon);
    lemma_run_is_run(s, CharClass::Label, s.len());
    if let Ok((header, _)) = spec_header(s) {
        let name = spec_take_while1(s, CharClass::Label)->Ok_0;
        let t = s.skip(name as int);
        lemma_run_is_run(t, CharClass::Blank, t.len());
        let before = span(t, CharClass::Blank);
        let u = t.skip(before + 1 as int);
        lemma_run_is_run(u, CharClass::Blank, u.len());
        let colon = before + 1 + span(u, CharClass::Blank);
        let start = name + colon;
        let v = s.skip(start as int);
        assert(v =~= u.skip(span(u, CharClass::Blank) as int));
        lemma_run_is_run(v, CharClass::Line, v.len());
        let end = start + span(v, CharClass::Line);
        let line = s.subrange(start as int, end as int);
        assert forall|i: int| 0 <= i < header.0.len() implies CharClass::Label.has(
            #[trigger] header.0[i],
        ) by {
            assert(header.0[i] == s[i]);
        }
        assert forall|i: int| 0 <= i < line.len() implies CharClass::Line.has(
            #[trigger] line[i],
        ) by {
            assert(line[i] == v[i]);
        }
        assert forall|i: int| 0 <= i < header.1.len() implies CharClass::Line.has(
            #[trigger] header.1[i],
        ) by {
            assert(header.1[i] == line[i]);
        }
        if header.1.len() > 0 {
            assert(header.1[0] == line[0]);
            assert(line[0] == v[0]);
            assert(v[0] == u[span(u, CharClass::Blank) as int]);
        }
    }
}

/// The header fields that were read are valid and end within the text.
pub proof fn lemma_headers_valid(s: Seq<u8>)
    ensures
        valid_headers(spec_headers(s).0),
        spec_headers(s).1 <= s.len(),
    decreases s.len(),
{
    lemma_headers_unfold(s);
    lemma_header_valid(s);
    if let Ok((header, n)) = spec_header(s) {
        let t = s.skip(n as int);
        lemma_headers_valid(t);
        let more = spec_headers(t).0;
        let all = seq![header] + more;
        assert forall|i: int| 0 <= i < all.len() implies valid_header(#[trigger] all[i]) by {
            if i > 0 {
                assert(all[i] == more[i - 1]);
            }
        }
    }
}

/// The text of a valid header field is read back as that field.
pub proof fn lemma_header_text(header: (Seq<u8>, Seq<u8>), rest: Seq<u8>)
    requires
        valid_header(header),
    ensures
        spec_header(header_text(header) + rest) == Ok::<((Seq<u8>, Seq<u8>), nat), Failure>(
            (header, header_text(header).len()),
        ),
        (header_text(header) + rest).skip(header_text(header).len() as int) == rest,
{
    let name = header.0;
    let value = header.1;
    let line = value + seq![CARRIAGE_RETURN];
    let space = seq![SPACE];
    assert(header_text(header) =~= header_line(name, Seq::empty(), space, line));
    assert(line_value(line) == value) by {
        assert(line.last() == CARRIAGE_RETURN);
        assert(line.drop_last() =~= value);
    }
    assert(all_in(line, CharClass::Line)) by {
        assert forall|i: int| 0 <= i < line.len() implies CharClass::Line.has(
            #[trigger] line[i],
        ) by {
            if i < value.len() {
                assert(line[i] == value[i]);
            }
        }
    }
    assert(!CharClass::Blank.has(line[0])) by {
        if value.len() > 0 {
            assert(line[0] == value[0]);
        }
    }
    assert(all_in(space, CharClass::Blank));
    lemma_header_spacing(name, Seq::empty(), space, line, rest);
}

/// The text of valid header fields, before a line that is no header field,
/// is read back as those fields.
pub proof fn lemma_headers_text(headers: Seq<(Seq<u8>, Seq<u8>)>, rest: Seq<u8>)
    requires
        valid_headers(headers),
        spec_header(rest) is Err,
    ensures
        spec_headers(headers_text(headers) + rest) == (headers, headers_text(headers).len()),
        (headers_text(headers) + rest).skip(headers_text(headers).len() as int) == rest,
    decreases headers.len(),
{
    let s = headers_text(headers) + rest;
    lemma_headers_unfold(s);
    lemma_concat_parts(headers_text(headers), rest);
    if headers.len() == 0 {
        assert(headers_text(headers) =~= Seq::<u8>::empty());
        assert(s =~= rest);
        assert(headers =~= Seq::empty());
    } else {
        let first = header_text(headers[0]);
        let others = headers.drop_first();
        assert forall|i: int| 0 <= i < others.len() implies valid_header(#[trigger] others[i]) by {
            assert(others[i] == headers[i + 1]);
        }
        assert(valid_header(headers[0]));
        lemma_headers_text(others, rest);
        let tail = headers_text(others) + rest;
        lemma_concat_assoc(first, headers_text(others), rest);
        assert(s == first + tail);
        lemma_header_text(headers[0], tail);
        lemma_concat_parts(first, tail);
        lemma_concat_parts(headers_text(others), rest);
        lemma_skip_twice(s, first.len(), headers_text(others).len());
        assert(seq![headers[0]] + others =~= headers);
    }
}

/// No header field begins with the end of a line.
pub proof fn lemma_no_header(rest: Seq<u8>)
    ensures
        spec_header(line_end_text() + rest) is Err,
{
    reveal(spec_header);
    let s = line_end_text() + rest;
    lemma_concat_parts(line_end_text(), rest);
    lemma_run_unique(s, CharClass::Label, s.len(), 0);
}

} // verus!
