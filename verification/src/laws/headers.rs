//! The spaces around the colon of a header field do not matter.

use crate::error::Failure;
use crate::header::{line_value, spec_header, spec_spaced_colon};
use crate::roundtrip::texts::{
    ends, lemma_concat_assoc, lemma_concat_parts, lemma_skip_twice, lemma_span_text,
};
use crate::text::{span, spec_tag_byte, spec_take_while1, CharClass, COLON, LINE_FEED};
use crate::valid::all_in;
use vstd::prelude::*;

verus! {

/// The line of a header field: the name, spaces and tabs, the colon, spaces
/// and tabs, the rest of the line, and a line feed.
pub open spec fn header_line(
    name: Seq<u8>,
    before: Seq<u8>,
    after: Seq<u8>,
    line: Seq<u8>,
) -> Seq<u8> {
    name + (before + (seq![COLON] + (after + (line + seq![LINE_FEED]))))
}

/// A colon with spaces and tabs around it, before anything but a space or a
/// tab, is read as a whole.
proof fn lemma_colon_spacing(before: Seq<u8>, after: Seq<u8>, rest: Seq<u8>)
    requires
        all_in(before, CharClass::Blank),
        all_in(after, CharClass::Blank),
        ends(rest, CharClass::Blank),
    ensures
        spec_spaced_colon(before + (seq![COLON] + (after + rest))) == Ok::<nat, Failure>(
            before.len() + 1 + after.len(),
        ),
        (before + (seq![COLON] + (after + rest))).skip((before.len() + 1 + after.len()) as int)
            == rest,
        (before + (seq![COLON] + (after + rest))).len() == before.len() + 1 + after.len()
            + rest.len(),
        !CharClass::Label.has((before + (seq![COLON] + (after + rest)))[0]),
{
    reveal(spec_spaced_colon);
    let s2 = after + rest;
    let s1 = seq![COLON] + s2;
    let s0 = before + s1;
    lemma_concat_parts(after, rest);
    lemma_concat_parts(seq![COLON], s2);
    lemma_concat_parts(before, s1);
    lemma_span_text(before, s1, CharClass::Blank);
    lemma_span_text(after, rest, CharClass::Blank);
    lemma_skip_twice(s0, before.len(), 1);
    lemma_skip_twice(s0, before.len() + 1, after.len());
    if before.len() > 0 {
        assert(CharClass::Blank.has(before[0]));
    }
}

/// A header field is a name, a colon with its spaces, and a line.
proof fn lemma_header_steps(s: Seq<u8>, name: nat, colon: nat, line: nat)
    requires
        spec_take_while1(s, CharClass::Label) == Ok::<nat, Failure>(name),
        spec_spaced_colon(s.skip(name as int)) == Ok::<nat, Failure>(colon),
        span(s.skip((name + colon) as int), CharClass::Line) == line,
        spec_tag_byte(s.skip((name + colon + line) as int), LINE_FEED) is Ok,
    ensures
        spec_header(s) == Ok::<((Seq<u8>, Seq<u8>), nat), Failure>(
            (
                (
                    s.take(name as int),
                    line_value(s.subrange((name + colon) as int, (name + colon + line) as int)),
                ),
                name + colon + line + 1,
            ),
        ),
{
    reveal(spec_header);
}

/// However many spaces and tabs stand before and behind the colon, the line
/// of a header field is read as the same name and the same value, and what
/// follows the line is left. The value is the rest of the line, without the
/// carriage return at its end if it has one.
pub proof fn lemma_header_spacing(
    name: Seq<u8>,
    before: Seq<u8>,
    after: Seq<u8>,
    line: Seq<u8>,
    rest: Seq<u8>,
)
    requires
        name.len() > 0,
        all_in(name, CharClass::Label),
        all_in(before, CharClass::Blank),
        all_in(after, CharClass::Blank),
        all_in(line, CharClass::Line),
        line.len() > 0 ==> !CharClass::Blank.has(line[0]),
    ensures
        spec_header(header_line(name, before, after, line) + rest) == Ok::<
            ((Seq<u8>, Seq<u8>), nat),
            Failure,
        >(((name, line_value(line)), header_line(name, before, after, line).len())),
        (header_line(name, before, after, line) + rest).skip(
            header_line(name, before, after, line).len() as int,
        ) == rest,
{
    let colon = seq![COLON];
    let feed = seq![LINE_FEED];
    let s3 = feed + rest;
    let s2 = line + s3;
    let s1 = before + (colon + (after + s2));
    let s0 = name + s1;
    let text = header_line(name, before, after, line);
    let sep = before.len() + 1 + after.len();
    assert(s0 == text + rest && text.len() == name.len() + sep + line.len() + 1) by {
        lemma_concat_assoc(line, feed, rest);
        lemma_concat_assoc(after, line + feed, rest);
        lemma_concat_assoc(colon, after + (line + feed), rest);
        lemma_concat_assoc(before, colon + (after + (line + feed)), rest);
        lemma_concat_assoc(name, before + (colon + (after + (line + feed))), rest);
    }
    assert(s3.len() > 0 && s3[0] == LINE_FEED && s3.skip(1) == rest) by {
        lemma_concat_parts(feed, rest);
    }
    assert(ends(s2, CharClass::Blank) && span(s2, CharClass::Line) == line.len() && s2.skip(
        line.len() as int,
    ) == s3 && s2.take(line.len() as int) == line && s2.len() == line.len() + s3.len()) by {
        lemma_concat_parts(line, s3);
        lemma_span_text(line, s3, CharClass::Line);
    }
    lemma_colon_spacing(before, after, s2);
    assert(spec_take_while1(s0, CharClass::Label) == Ok::<nat, Failure>(name.len()) && s0.skip(
        name.len() as int,
    ) == s1 && s0.take(name.len() as int) == name && s0.len() == name.len() + s1.len()) by {
        lemma_concat_parts(name, s1);
        lemma_span_text(name, s1, CharClass::Label);
    }
    let start = name.len() + sep;
    let end = start + line.len();
    assert(s0.skip(start as int) == s2) by {
        lemma_skip_twice(s0, name.len(), sep);
    }
    assert(s0.skip(end as int) == s3) by {
        lemma_skip_twice(s0, start, line.len());
    }
    assert(s0.skip((end + 1) as int) == rest) by {
        lemma_skip_twice(s0, end, 1);
    }
    assert(s0.subrange(start as int, end as int) == line) by {
        assert(s0.skip(start as int).take(line.len() as int) =~= s0.subrange(
            start as int,
            end as int,
        ));
    }
    lemma_header_steps(s0, name.len(), sep, line.len());
}

} // verus!
