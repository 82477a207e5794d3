//! Which of its forms a host is read as, and which texts are refused.

use crate::error::Failure;
use crate::host::{dotted, spec_host, spec_ipv4, spec_named_host, spec_octet_dot};
use crate::model::HostView;
use crate::number::spec_octet;
use crate::render::ipv4_text;
use crate::roundtrip::address::lemma_ipv4_round_trip;
use crate::text::{lemma_run_is_run, no_match, span, CharClass};
use vstd::prelude::*;

verus! {

/// A text that begins with an IPv4 address is read as that address, also
/// where its beginning could be read as a host name.
pub proof fn lemma_address_first(s: Seq<u8>)
    ensures
        spec_ipv4(s) matches Ok((octets, n)) ==> spec_host(s) == Ok::<(HostView, nat), Failure>(
            (HostView::IPv4(octets), n),
        ),
{
    reveal(spec_host);
}

/// The text of an address is read back, to its last byte, as the four
/// octets that it was written from.
pub proof fn lemma_address_round_trip(octets: Seq<u8>)
    requires
        octets.len() == 4,
    ensures
        spec_ipv4(ipv4_text(octets)) == Ok::<(Seq<u8>, nat), Failure>(
            (octets, ipv4_text(octets).len()),
        ),
{
    lemma_ipv4_round_trip(octets, Seq::empty());
    assert(ipv4_text(octets) + Seq::<u8>::empty() =~= ipv4_text(octets));
}

/// A text that begins with an IPv4 address begins with a digit.
proof fn lemma_address_digit(s: Seq<u8>)
    ensures
        spec_ipv4(s) is Ok ==> s.len() > 0 && CharClass::Digit.has(s[0]),
{
    reveal(spec_ipv4);
    reveal(spec_octet_dot);
    reveal(spec_octet);
    lemma_run_is_run(s, CharClass::Digit, 3);
}

/// A host is refused if and only if the text does not begin with a letter,
/// a digit or a hyphen. The failure is then an invalid character class at
/// offset 0: nothing of the text is taken.
pub proof fn lemma_host_refused(s: Seq<u8>)
    ensures
        spec_host(s) is Err <==> s.len() == 0 || !CharClass::Label.has(s[0]),
        spec_host(s) is Err ==> spec_host(s) == Err::<(HostView, nat), Failure>(no_match(0)),
{
    reveal(spec_host);
    reveal(spec_named_host);
    lemma_address_digit(s);
    lemma_run_is_run(s, CharClass::Label, s.len());
    if span(s, CharClass::Label) == 0 {
        assert(dotted(s) == 0);
    }
}

} // verus!
