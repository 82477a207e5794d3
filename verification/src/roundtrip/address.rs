//! An IPv4 address is read back from its text.

use crate::error::Failure;
use crate::host::{spec_ipv4, spec_octet_dot};
use crate::number::spec_octet;
use crate::render::{decimal_text, ipv4_text};
use crate::roundtrip::numbers::{lemma_octet_dot_text, lemma_octet_text};
use crate::roundtrip::texts::{ends, lemma_concat_assoc};
use crate::text::{CharClass, DOT};
use vstd::prelude::*;

verus! {

/// An address is three octets with their dots and a fourth octet.
proof fn lemma_ipv4_steps(
    s0: Seq<u8>,
    s1: Seq<u8>,
    s2: Seq<u8>,
    s3: Seq<u8>,
    rest: Seq<u8>,
    first: (u8, nat),
    second: (u8, nat),
    third: (u8, nat),
    fourth: (u8, nat),
)
    requires
        spec_octet_dot(s0) == Ok::<(u8, nat), Failure>(first),
        spec_octet_dot(s1) == Ok::<(u8, nat), Failure>(second),
        spec_octet_dot(s2) == Ok::<(u8, nat), Failure>(third),
        spec_octet(s3) == Ok::<(u8, nat), Failure>(fourth),
        first.1 <= s0.len() && s0.skip(first.1 as int) == s1,
        second.1 <= s1.len() && s1.skip(second.1 as int) == s2,
        third.1 <= s2.len() && s2.skip(third.1 as int) == s3,
        fourth.1 <= s3.len() && s3.skip(fourth.1 as int) == rest,
    ensures
        spec_ipv4(s0) == Ok::<(Seq<u8>, nat), Failure>(
            (
                seq![first.0, second.0, third.0, fourth.0],
                first.1 + second.1 + third.1 + fourth.1,
            ),
        ),
        s0.skip((first.1 + second.1 + third.1 + fourth.1) as int) == rest,
        s0.len() == first.1 + second.1 + third.1 + fourth.1 + rest.len(),
{
    reveal(spec_ipv4);
    assert(s0.skip(first.1 as int).skip(second.1 as int) =~= s0.skip(
        (first.1 + second.1) as int,
    ));
    assert(s0.skip((first.1 + second.1) as int).skip(third.1 as int) =~= s0.skip(
        (first.1 + second.1 + third.1) as int,
    ));
    assert(s0.skip((first.1 + second.1 + third.1) as int).skip(fourth.1 as int) =~= s0.skip(
        (first.1 + second.1 + third.1 + fourth.1) as int,
    ));
}

/// Four texts with dots between them and a text behind them, put together
/// from the left or from the right.
proof fn lemma_quad_text(t0: Seq<u8>, t1: Seq<u8>, t2: Seq<u8>, t3: Seq<u8>, rest: Seq<u8>)
    ensures
        (t0 + (seq![DOT] + (t1 + (seq![DOT] + (t2 + (seq![DOT] + t3)))))) + rest == t0 + (seq![DOT]
            + (t1 + (seq![DOT] + (t2 + (seq![DOT] + (t3 + rest)))))),
        (t0 + (seq![DOT] + (t1 + (seq![DOT] + (t2 + (seq![DOT] + t3)))))).len() == t0.len()
            + t1.len() + t2.len() + t3.len() + 3,
{
    let dot = seq![DOT];
    let x5 = dot + t3;
    let x4 = t2 + x5;
    let x3 = dot + x4;
    let x2 = t1 + x3;
    let x1 = dot + x2;
    lemma_concat_assoc(dot, t3, rest);
    lemma_concat_assoc(t2, x5, rest);
    lemma_concat_assoc(dot, x4, rest);
    lemma_concat_assoc(t1, x3, rest);
    lemma_concat_assoc(dot, x2, rest);
    lemma_concat_assoc(t0, x1, rest);
}

/// The text of an IPv4 address, followed by anything but a digit, is read
/// as that address: the four octets come back as they were written.
pub proof fn lemma_ipv4_round_trip(octets: Seq<u8>, rest: Seq<u8>)
    requires
        octets.len() == 4,
        ends(rest, CharClass::Digit),
    ensures
        spec_ipv4(ipv4_text(octets) + rest) == Ok::<(Seq<u8>, nat), Failure>(
            (octets, ipv4_text(octets).len()),
        ),
        (ipv4_text(octets) + rest).skip(ipv4_text(octets).len() as int) == rest,
{
    let t0 = decimal_text(octets[0] as nat);
    let t1 = decimal_text(octets[1] as nat);
    let t2 = decimal_text(octets[2] as nat);
    let t3 = decimal_text(octets[3] as nat);
    let s3 = t3 + rest;
    let s2 = t2 + (seq![DOT] + s3);
    let s1 = t1 + (seq![DOT] + s2);
    let s0 = t0 + (seq![DOT] + s1);
    let first = (octets[0], t0.len() + 1);
    let second = (octets[1], t1.len() + 1);
    let third = (octets[2], t2.len() + 1);
    let fourth = (octets[3], t3.len());
    assert(spec_octet_dot(s0) == Ok::<(u8, nat), Failure>(first) && first.1 <= s0.len()
        && s0.skip(first.1 as int) == s1) by {
        lemma_octet_dot_text(octets[0], s1);
    }
    assert(spec_octet_dot(s1) == Ok::<(u8, nat), Failure>(second) && second.1 <= s1.len()
        && s1.skip(second.1 as int) == s2) by {
        lemma_octet_dot_text(octets[1], s2);
    }
    assert(spec_octet_dot(s2) == Ok::<(u8, nat), Failure>(third) && third.1 <= s2.len()
        && s2.skip(third.1 as int) == s3) by {
        lemma_octet_dot_text(octets[2], s3);
    }
    assert(spec_octet(s3) == Ok::<(u8, nat), Failure>(fourth) && fourth.1 <= s3.len() && s3.skip(
        fourth.1 as int,
    ) == rest) by {
        lemma_octet_text(octets[3], rest);
    }
    lemma_ipv4_steps(s0, s1, s2, s3, rest, first, second, third, fourth);
    assert(seq![octets[0], octets[1], octets[2], octets[3]] == octets) by {
        assert(seq![octets[0], octets[1], octets[2], octets[3]] =~= octets);
    }
    lemma_quad_text(t0, t1, t2, t3, rest);
}

} // verus!
