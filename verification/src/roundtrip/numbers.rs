//! Numbers are read back from their decimal text.

use crate::error::Failure;
use crate::host::spec_octet_dot;
use crate::number::{all_digits, decimal, spec_octet};
use crate::render::decimal_text;
use crate::roundtrip::texts::{ends, lemma_run_text};
use crate::text::{is_digit, CharClass, DOT};
use vstd::prelude::*;

verus! {

/// The decimal text of a number is made of digits, as many as the size of
/// the number asks for, and writes the number.
pub proof fn lemma_decimal_text(v: nat)
    ensures
        all_digits(decimal_text(v)),
        decimal(decimal_text(v)) == v,
        v < 10 ==> decimal_text(v).len() == 1,
        10 <= v < 100 ==> decimal_text(v).len() == 2,
        100 <= v < 1000 ==> decimal_text(v).len() == 3,
        1000 <= v < 10000 ==> decimal_text(v).len() == 4,
    decreases v,
{
    reveal(decimal_text);
    let t = decimal_text(v);
    if v < 10 {
        assert(t.drop_last() =~= Seq::<u8>::empty());
        assert(decimal(t.drop_last()) == 0);
    } else {
        lemma_decimal_text(v / 10);
        assert(t.drop_last() =~= decimal_text(v / 10));
        assert forall|i: int| 0 <= i < t.len() implies is_digit(#[trigger] t[i]) by {
            if i < t.len() - 1 {
                assert(t[i] == decimal_text(v / 10)[i]);
            }
        }
    }
}

/// The decimal text of an octet, followed by anything but a digit, is read
/// as that octet.
pub proof fn lemma_octet_text(v: u8, rest: Seq<u8>)
    requires
        ends(rest, CharClass::Digit),
    ensures
        spec_octet(decimal_text(v as nat) + rest) == Ok::<(u8, nat), Failure>(
            (v, decimal_text(v as nat).len()),
        ),
        1 <= decimal_text(v as nat).len() <= 3,
        (decimal_text(v as nat) + rest).skip(decimal_text(v as nat).len() as int) == rest,
{
    reveal(spec_octet);
    let t = decimal_text(v as nat);
    lemma_decimal_text(v as nat);
    lemma_run_text(t, rest, CharClass::Digit, 3);
}

/// The decimal text of an octet and a dot are read as that octet and the
/// dot.
pub proof fn lemma_octet_dot_text(v: u8, rest: Seq<u8>)
    ensures
        spec_octet_dot(decimal_text(v as nat) + (seq![DOT] + rest)) == Ok::<(u8, nat), Failure>(
            (v, decimal_text(v as nat).len() + 1),
        ),
        (decimal_text(v as nat) + (seq![DOT] + rest)).skip(
            decimal_text(v as nat).len() + 1 as int,
        ) == rest,
{
    reveal(spec_octet_dot);
    let t = decimal_text(v as nat);
    let after = seq![DOT] + rest;
    assert(after[0] == DOT);
    lemma_octet_text(v, after);
    assert((t + after).skip(t.len() + 1 as int) =~= rest);
}

} // verus!
