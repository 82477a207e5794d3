//! Texts put together, and the runs of a class in them.

use crate::text::{is_run, lemma_run_unique, run, span, CharClass};
use crate::valid::all_in;
use vstd::prelude::*;

verus! {

/// Whether `rest` is empty or begins with a byte outside `class`.
pub open spec fn ends(rest: Seq<u8>, class: CharClass) -> bool {
    rest.len() == 0 || !class.has(rest[0])
}

/// What a text and the text behind it give, taken apart again.
pub proof fn lemma_concat_parts(a: Seq<u8>, b: Seq<u8>)
    ensures
        (a + b).len() == a.len() + b.len(),
        (a + b).take(a.len() as int) == a,
        (a + b).skip(a.len() as int) == b,
        a.len() > 0 ==> (a + b)[0] == a[0],
        a.len() == 0 ==> a + b == b,
{
    assert((a + b).take(a.len() as int) =~= a);
    assert((a + b).skip(a.len() as int) =~= b);
    if a.len() == 0 {
        assert(a + b =~= b);
    }
}

/// Skipping in two steps is skipping once.
pub proof fn lemma_skip_twice(s: Seq<u8>, m: nat, n: nat)
    requires
        m + n <= s.len(),
    ensures
        s.skip(m as int).skip(n as int) == s.skip((m + n) as int),
        s.skip(m as int).len() == s.len() - m,
{
    assert(s.skip(m as int).skip(n as int) =~= s.skip((m + n) as int));
}

/// Texts put together are the same whichever two are put together first.
pub proof fn lemma_concat_assoc(a: Seq<u8>, b: Seq<u8>, c: Seq<u8>)
    ensures
        (a + b) + c == a + (b + c),
        ((a + b) + c).len() == a.len() + b.len() + c.len(),
{
    assert((a + b) + c =~= a + (b + c));
}

/// A text of a class, followed by the end or by a byte outside the class,
/// is the run of that class, where the limit lets it be.
pub proof fn lemma_run_text(text: Seq<u8>, rest: Seq<u8>, class: CharClass, limit: nat)
    requires
        all_in(text, class),
        ends(rest, class),
        text.len() <= limit,
    ensures
        run(text + rest, class, limit) == text.len(),
        (text + rest).take(text.len() as int) == text,
        (text + rest).skip(text.len() as int) == rest,
{
    let s = text + rest;
    assert forall|i: int| 0 <= i < text.len() implies class.has(#[trigger] s[i]) by {
        assert(s[i] == text[i]);
    }
    if rest.len() > 0 {
        assert(s[text.len() as int] == rest[0]);
    }
    assert(is_run(s, class, limit, text.len()));
    lemma_run_unique(s, class, limit, text.len());
    assert(s.take(text.len() as int) =~= text);
    assert(s.skip(text.len() as int) =~= rest);
}

/// A text of a class, followed by the end or by a byte outside the class,
/// is the span of that class.
pub proof fn lemma_span_text(text: Seq<u8>, rest: Seq<u8>, class: CharClass)
    requires
        all_in(text, class),
        ends(rest, class),
    ensures
        span(text + rest, class) == text.len(),
        (text + rest).take(text.len() as int) == text,
        (text + rest).skip(text.len() as int) == rest,
{
    lemma_run_text(text, rest, class, (text + rest).len());
}

} // verus!
