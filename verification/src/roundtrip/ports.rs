//! A port that was read is valid, and a valid port is read back from its
//! text.

use crate::number::{all_digits, decimal, lemma_decimal_bound, spec_port, ten_to};
use crate::render::{decimal_text, port_text};
use crate::roundtrip::follow::{after_host, after_port};
use crate::roundtrip::numbers::lemma_decimal_text;
use crate::roundtrip::texts::{lemma_concat_assoc, lemma_concat_parts, lemma_run_text};
use crate::text::{is_digit, lemma_run_is_run, CharClass, COLON, ZERO};
use crate::uri::spec_optional_port;
use crate::valid::valid_port;
use vstd::prelude::*;

verus! {

/// A port that was read has at most four digits; it begins with a colon
/// and ends within the text.
pub proof fn lemma_port_valid(s: Seq<u8>)
    ensures
        valid_port(spec_optional_port(s).0),
        spec_optional_port(s).1 <= s.len(),
        spec_optional_port(s).1 > 0 ==> s[0] == COLON,
{
    reveal(spec_optional_port);
    reveal(spec_port);
    if let Ok((port, n)) = spec_port(s) {
        let t = s.skip(1);
        lemma_run_is_run(t, CharClass::Digit, 4);
        let digits = s.subrange(1, n as int);
        assert forall|i: int| 0 <= i < digits.len() implies is_digit(#[trigger] digits[i]) by {
            assert(digits[i] == t[i]);
        }
        lemma_decimal_bound(digits);
        reveal_with_fuel(ten_to, 5);
    }
}

/// Two digits write ten times the first and the second.
proof fn lemma_two_digits(d: nat)
    requires
        d < 10,
    ensures
        decimal(seq![ZERO] + decimal_text(d)) == d,
        all_digits(seq![ZERO] + decimal_text(d)),
        (seq![ZERO] + decimal_text(d)).len() == 2,
{
    lemma_decimal_text(d);
    let t = seq![ZERO] + decimal_text(d);
    assert(t.drop_last() =~= seq![ZERO]);
    assert(seq![ZERO].drop_last() =~= Seq::<u8>::empty());
    assert(decimal(seq![ZERO]) == 0) by {
        reveal_with_fuel(decimal, 2);
    }
    assert(t.last() == decimal_text(d)[0]);
    assert(decimal(decimal_text(d)) == d && decimal_text(d).drop_last() =~= Seq::<u8>::empty())
        by {
        reveal_with_fuel(decimal, 2);
    }
    reveal_with_fuel(decimal, 2);
}

/// The digits that the text of a port holds, and what they write.
pub proof fn lemma_port_digits(p: u16) -> (digits: Seq<u8>)
    requires
        p <= 9999,
    ensures
        port_text(Some(p)) == seq![COLON] + digits,
        all_digits(digits),
        2 <= digits.len() <= 4,
        decimal(digits) == p,
{
    lemma_decimal_text(p as nat);
    if p < 10 {
        lemma_two_digits(p as nat);
        let digits = seq![ZERO] + decimal_text(p as nat);
        assert(seq![COLON, ZERO] + decimal_text(p as nat) =~= seq![COLON] + digits);
        digits
    } else {
        decimal_text(p as nat)
    }
}

/// The text of a valid port, or no text where there is no port, is read
/// back as that port.
pub proof fn lemma_port_text(port: Option<u16>, rest: Seq<u8>)
    requires
        valid_port(port),
        after_port(rest),
    ensures
        spec_optional_port(port_text(port) + rest) == (port, port_text(port).len()),
        after_host(port_text(port) + rest),
{
    reveal(spec_optional_port);
    reveal(spec_port);
    let text = port_text(port);
    lemma_concat_parts(text, rest);
    match port {
        Some(p) => {
            let digits = lemma_port_digits(p);
            let s = text + rest;
            lemma_concat_assoc(seq![COLON], digits, rest);
            lemma_concat_parts(seq![COLON], digits + rest);
            assert(s.skip(1) == digits + rest);
            assert forall|i: int| 0 <= i < digits.len() implies CharClass::Digit.has(
                #[trigger] digits[i],
            ) by {}
            lemma_run_text(digits, rest, CharClass::Digit, 4);
            assert(s.subrange(1, 1 + digits.len() as int) =~= digits);
            assert(s[0] == COLON);
        },
        None => {},
    }
}

} // verus!
