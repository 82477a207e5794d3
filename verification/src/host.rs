//! The host of a request: a dotted-quad IPv4 address, a host name, or the
//! wildcard.

use crate::error::{Failure, ParseError};
use crate::model::{Host, HostView};
use crate::number::{parse_octet, spec_octet};
use crate::text::{
    alphanumerichyphen1, consumed, cut, failed, lemma_run_is_run, no_match, rest_of, span,
    spec_tag_byte, tag_byte, take_while, CharClass, ASTERISK, DOT,
};
use vstd::prelude::*;
use vstd::string::*;

verus! {

broadcast use {vstd::seq_lib::group_seq_lib_default, vstd::seq_lib::lemma_seq_skip_of_skip};

/// What `octet_dot` makes of the bytes `s`: an octet and the dot behind it.
#[verifier::opaque]
pub open spec fn spec_octet_dot(s: Seq<u8>) -> Result<(u8, nat), Failure> {
    match spec_octet(s) {
        Ok((value, n)) => match spec_tag_byte(s.skip(n as int), DOT) {
            Ok(_) => Ok((value, n + 1)),
            Err(f) => Err(f.shift(n)),
        },
        Err(f) => Err(f),
    }
}

/// What `parse_ipv4` makes of the bytes `s`: three octets, each with a dot
/// behind it, and a fourth octet.
#[verifier::opaque]
pub open spec fn spec_ipv4(s: Seq<u8>) -> Result<(Seq<u8>, nat), Failure> {
    match spec_octet_dot(s) {
        Err(f) => Err(f),
        Ok((a, n1)) => match spec_octet_dot(s.skip(n1 as int)) {
            Err(f) => Err(f.shift(n1)),
            Ok((b, n2)) => match spec_octet_dot(s.skip((n1 + n2) as int)) {
                Err(f) => Err(f.shift(n1 + n2)),
                Ok((c, n3)) => match spec_octet(s.skip((n1 + n2 + n3) as int)) {
                    Err(f) => Err(f.shift(n1 + n2 + n3)),
                    Ok((d, n4)) => Ok((seq![a, b, c, d], n1 + n2 + n3 + n4)),
                },
            },
        },
    }
}

/// An octet with a dot behind it.
fn octet_dot(input: &str) -> (r: Result<(u8, &str), ParseError>)
    ensures
        match spec_octet_dot(input.spec_bytes()) {
            Ok((value, n)) => r matches Ok((octet, rest)) && octet == value && rest_of(
                input,
                rest,
                n,
            ),
            Err(f) => r matches Err(e) && failed(input, e, f),
        },
{
    proof {
        reveal(spec_octet_dot);
    }
    match parse_octet(input) {
        Ok((octet, after)) => match tag_byte(after, DOT) {
            Ok(rest) => Ok((octet, rest)),
            Err(e) => Err(e.shift(consumed(input, after))),
        },
        Err(e) => Err(e),
    }
}

/// An IPv4 address in dotted-quad form: four octets with dots between them.
///
/// Each octet takes at most three digits, so a fourth digit behind the last
/// octet is left in the remainder, and one behind an earlier octet stands
/// where the dot is looked for. Any failure is that of the octet or dot that
/// was not found, at its offset.
pub fn parse_ipv4(input: &str) -> (r: Result<([u8; 4], &str), ParseError>)
    ensures
        match spec_ipv4(input.spec_bytes()) {
            Ok((octets, n)) => r matches Ok((address, rest)) && address@ == octets && rest_of(
                input,
                rest,
                n,
            ),
            Err(f) => r matches Err(e) && failed(input, e, f),
        },
{
    proof {
        reveal(spec_ipv4);
    }
    let (a, rest1) = match octet_dot(input) {
        Ok(found) => found,
        Err(e) => {
            return Err(e);
        },
    };
    let n1 = consumed(input, rest1);
    let (b, rest2) = match octet_dot(rest1) {
        Ok(found) => found,
        Err(e) => {
            return Err(e.shift(n1));
        },
    };
    let n2 = consumed(input, rest2);
    let (c, rest3) = match octet_dot(rest2) {
        Ok(found) => found,
        Err(e) => {
            return Err(e.shift(n2));
        },
    };
    let n3 = consumed(input, rest3);
    let (d, rest) = match parse_octet(rest3) {
        Ok(found) => found,
        Err(e) => {
            return Err(e.shift(n3));
        },
    };
    let address: [u8; 4] = [a, b, c, d];
    proof {
        assert(address@ =~= seq![a, b, c, d]);
    }
    Ok((address, rest))
}

/// The number of bytes that the leading labels of `s` take, each label
/// being a run of letters, digits and hyphens with a dot behind it.
pub open spec fn dotted(s: Seq<u8>) -> nat
    decreases s.len(),
{
    let label = span(s, CharClass::Label);
    if label > 0 && label < s.len() && s[label as int] == DOT {
        label + 1 + dotted(s.skip(label + 1 as int))
    } else {
        0
    }
}

/// What `parse_named_host` makes of the bytes `s`: the name, which is the
/// part of `s` that was taken, and its length.
///
/// The name is either one or more labels with a dot behind each and then a
/// run of letters, or, where `s` does not begin so, a single label.
#[verifier::opaque]
pub open spec fn spec_named_host(s: Seq<u8>) -> Result<(Seq<u8>, nat), Failure> {
    let labels = dotted(s);
    let last = span(s.skip(labels as int), CharClass::Alpha);
    let single = span(s, CharClass::Label);
    if labels > 0 && last > 0 {
        Ok((s.take((labels + last) as int), labels + last))
    } else if single > 0 {
        Ok((s.take(single as int), single))
    } else {
        Err(no_match(0))
    }
}

/// A host name.
///
/// Labels of letters, digits and hyphens, each with a dot behind it, are
/// taken as long as they come; behind them the name ends with a run of
/// letters. Where the input does not begin so (no dot, or no letter behind
/// the last dot), the name is the first label alone. The input must begin
/// with a letter, a digit or a hyphen.
pub fn parse_named_host(input: &str) -> (r: Result<(Host, &str), ParseError>)
    ensures
        match spec_named_host(input.spec_bytes()) {
            Ok((name, n)) => r matches Ok((host, rest)) && host@ == HostView::Named(name)
                && rest_of(input, rest, n),
            Err(f) => r matches Err(e) && failed(input, e, f),
        },
{
    proof {
        reveal(spec_named_host);
    }
    let ghost s = input.spec_bytes();
    let mut at = input;
    let mut labels: usize = 0;
    let mut more = true;
    proof {
        assert(s.skip(0) =~= s);
    }
    while more
        invariant
            s == input.spec_bytes(),
            rest_of(input, at, labels as nat),
            dotted(s) == labels + (if more {
                dotted(s.skip(labels as int))
            } else {
                0
            }),
        decreases s.len() - labels + (if more { 1int } else { 0int }),
    {
        proof {
            lemma_run_is_run(at.spec_bytes(), CharClass::Label, at.spec_bytes().len());
        }
        more = false;
        match alphanumerichyphen1(at) {
            Ok((_label, after)) => match tag_byte(after, DOT) {
                Ok(next) => {
                    proof {
                        let l = span(at.spec_bytes(), CharClass::Label);
                        assert(after.spec_bytes()[0] == at.spec_bytes()[l as int]);
                        assert(at.spec_bytes().skip(l as int).skip(1) =~= s.skip(
                            labels + l + 1,
                        ));
                        assert(at.spec_bytes().skip(l + 1 as int) =~= s.skip(labels + l + 1));
                    }
                    at = next;
                    labels = consumed(input, at);
                    more = true;
                },
                Err(_) => {
                    proof {
                        let l = span(at.spec_bytes(), CharClass::Label);
                        if l < at.spec_bytes().len() {
                            assert(after.spec_bytes()[0] == at.spec_bytes()[l as int]);
                        }
                    }
                },
            },
            Err(_) => {},
        }
    }
    let (_, rest) = take_while(at, CharClass::Alpha);
    let total = consumed(input, rest);
    proof {
        lemma_run_is_run(at.spec_bytes(), CharClass::Alpha, at.spec_bytes().len());
        assert(at.spec_bytes().skip(span(at.spec_bytes(), CharClass::Alpha) as int) =~= s.skip(
            labels + span(at.spec_bytes(), CharClass::Alpha),
        ));
    }
    if labels > 0 && total > labels {
        proof {
            assert(s[total - 1] == at.spec_bytes()[total - labels - 1]);
        }
        let (name, _) = cut(input, total);
        Ok((Host::Named(name.to_owned()), rest))
    } else {
        match alphanumerichyphen1(input) {
            Ok((label, rest)) => Ok((Host::Named(label.to_owned()), rest)),
            Err(e) => Err(e),
        }
    }
}

/// What `parse_wildcard` makes of the bytes `s`.
#[verifier::opaque]
pub open spec fn spec_wildcard(s: Seq<u8>) -> Result<(HostView, nat), Failure> {
    match spec_tag_byte(s, ASTERISK) {
        Ok(n) => Ok((HostView::Wildcard, n)),
        Err(f) => Err(f),
    }
}

/// The wildcard host `*`.
pub fn parse_wildcard(input: &str) -> (r: Result<(Host, &str), ParseError>)
    ensures
        match spec_wildcard(input.spec_bytes()) {
            Ok((wildcard, n)) => r matches Ok((host, rest)) && host@ == wildcard && rest_of(
                input,
                rest,
                n,
            ),
            Err(f) => r matches Err(e) && failed(input, e, f),
        },
{
    proof {
        reveal(spec_wildcard);
    }
    match tag_byte(input, ASTERISK) {
        Ok(rest) => Ok((Host::Wildcard, rest)),
        Err(e) => Err(e),
    }
}

/// What `parse_host` makes of the bytes `s`: an IPv4 address where `s`
/// begins with one, else a host name, else the failure of the host name.
#[verifier::opaque]
pub open spec fn spec_host(s: Seq<u8>) -> Result<(HostView, nat), Failure> {
    match spec_ipv4(s) {
        Ok((octets, n)) => Ok((HostView::IPv4(octets), n)),
        Err(_) => match spec_named_host(s) {
            Ok((name, n)) => Ok((HostView::Named(name), n)),
            Err(f) => Err(f),
        },
    }
}

/// The host of an absolute URI: an IPv4 address or a host name.
///
/// The address is tried first, so that four numeric labels are read as an
/// address. Where the input does not begin with an address, it is read
/// again from its start as a host name, and a failure is that of the host
/// name. The wildcard is not tried here.
pub fn parse_host(input: &str) -> (r: Result<(Host, &str), ParseError>)
    ensures
        match spec_host(input.spec_bytes()) {
            Ok((expected, n)) => r matches Ok((host, rest)) && host@ == expected && rest_of(
                input,
                rest,
                n,
            ),
            Err(f) => r matches Err(e) && failed(input, e, f),
        },
{
    proof {
        reveal(spec_host);
    }
    match parse_ipv4(input) {
        Ok((address, rest)) => Ok((Host::IPv4(address), rest)),
        Err(_) => parse_named_host(input),
    }
}

} // verus!
