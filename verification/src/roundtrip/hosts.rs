//! A host that was read is valid, and a valid host is read back from its
//! text.

use crate::error::Failure;
use crate::host::{dotted, spec_host, spec_ipv4, spec_named_host};
use crate::model::HostView;
use crate::render::{decimal_text, host_text};
use crate::roundtrip::numbers::lemma_decimal_text;
use crate::roundtrip::address::lemma_ipv4_round_trip;
use crate::roundtrip::frame::{agree, host_stop, lemma_frame_host};
use crate::roundtrip::texts::lemma_concat_parts;
use crate::text::{lemma_run_is_run, span, CharClass, DOT};
use crate::valid::{host_bytes, is_host_byte, valid_host};
use vstd::prelude::*;

verus! {

/// The labels with a dot behind each are made of host bytes.
pub proof fn lemma_dotted_bytes(s: Seq<u8>)
    ensures
        dotted(s) <= s.len(),
        forall|i: int| 0 <= i < dotted(s) ==> is_host_byte(#[trigger] s[i]),
    decreases s.len(),
{
    let label = span(s, CharClass::Label);
    lemma_run_is_run(s, CharClass::Label, s.len());
    if label > 0 && label < s.len() && s[label as int] == DOT {
        let t = s.skip(label + 1 as int);
        lemma_dotted_bytes(t);
        assert forall|i: int| 0 <= i < dotted(s) implies is_host_byte(#[trigger] s[i]) by {
            if i > label {
                assert(s[i] == t[i - label - 1]);
            }
        }
    }
}

/// A host name that was read is not empty, is made of host bytes, and is
/// the part of the text that was taken.
pub proof fn lemma_named_bytes(s: Seq<u8>)
    ensures
        spec_named_host(s) matches Ok((name, n)) ==> {
            &&& 0 < n <= s.len()
            &&& name == s.take(n as int)
            &&& host_bytes(name)
        },
{
    reveal(spec_named_host);
    lemma_dotted_bytes(s);
    lemma_run_is_run(s, CharClass::Label, s.len());
    let labels = dotted(s);
    let t = s.skip(labels as int);
    lemma_run_is_run(t, CharClass::Alpha, t.len());
    if let Ok((name, n)) = spec_named_host(s) {
        assert forall|i: int| 0 <= i < name.len() implies is_host_byte(#[trigger] name[i]) by {
            assert(name[i] == s[i]);
            if labels > 0 && span(t, CharClass::Alpha) > 0 && i >= labels {
                assert(s[i] == t[i - labels]);
            }
        }
    }
}

/// A host that was read, with no host byte behind it, is valid.
pub proof fn lemma_host_valid(s: Seq<u8>)
    requires
        spec_host(s) matches Ok((_, n)) && host_stop(s, n),
    ensures
        spec_host(s) matches Ok((host, _)) && valid_host(host),
{
    reveal(spec_host);
    reveal(spec_ipv4);
    lemma_named_bytes(s);
    if let Ok((HostView::Named(name), n)) = spec_host(s) {
        assert(agree(s, name, n));
        lemma_frame_host(s, name, n);
    }
}

/// The text of a valid host, with no host byte behind it, is read back as
/// that host.
pub proof fn lemma_host_text(host: HostView, rest: Seq<u8>)
    requires
        valid_host(host),
        host_stop(rest, 0),
    ensures
        spec_host(host_text(host) + rest) == Ok::<(HostView, nat), Failure>(
            (host, host_text(host).len()),
        ),
{
    let text = host_text(host);
    lemma_concat_parts(text, rest);
    match host {
        HostView::Named(name) => {
            assert(agree(name, name + rest, name.len())) by {
                if rest.len() > 0 {
                    assert((name + rest)[name.len() as int] == rest[0]);
                }
                assert forall|i: int| 0 <= i < name.len() implies #[trigger] name[i] == (name
                    + rest)[i] by {}
            }
            lemma_frame_host(name, name + rest, name.len());
        },
        HostView::IPv4(octets) => {
            reveal(spec_host);
            lemma_ipv4_round_trip(octets, rest);
        },
        HostView::Wildcard => {},
    }
}

/// The text of a valid host is not empty and made of host bytes.
pub proof fn lemma_host_text_bytes(host: HostView)
    requires
        valid_host(host),
    ensures
        host_text(host).len() > 0,
        host_bytes(host_text(host)),
{
    if let HostView::IPv4(octets) = host {
        let t0 = decimal_text(octets[0] as nat);
        let t1 = decimal_text(octets[1] as nat);
        let t2 = decimal_text(octets[2] as nat);
        let t3 = decimal_text(octets[3] as nat);
        lemma_decimal_text(octets[0] as nat);
        lemma_decimal_text(octets[1] as nat);
        lemma_decimal_text(octets[2] as nat);
        lemma_decimal_text(octets[3] as nat);
        let dot = seq![DOT];
        lemma_joined_bytes(dot, t3);
        lemma_joined_bytes(t2, dot + t3);
        lemma_joined_bytes(dot, t2 + (dot + t3));
        lemma_joined_bytes(t1, dot + (t2 + (dot + t3)));
        lemma_joined_bytes(dot, t1 + (dot + (t2 + (dot + t3))));
        lemma_joined_bytes(t0, dot + (t1 + (dot + (t2 + (dot + t3)))));
    }
}

/// Two texts of digits and dots make one.
proof fn lemma_joined_bytes(a: Seq<u8>, b: Seq<u8>)
    requires
        number_bytes(a),
        number_bytes(b),
    ensures
        number_bytes(a + b),
        (a + b).len() == a.len() + b.len(),
{
    assert forall|i: int| 0 <= i < (a + b).len() implies {
        let x = #[trigger] (a + b)[i];
        crate::text::is_digit(x) || x == DOT
    } by {
        if i < a.len() {
            assert((a + b)[i] == a[i]);
        } else {
            assert((a + b)[i] == b[i - a.len()]);
        }
    }
}

/// Whether `text` holds digits and dots and nothing else.
pub open spec fn number_bytes(text: Seq<u8>) -> bool {
    forall|i: int|
        0 <= i < text.len() ==> {
            let x = #[trigger] text[i];
            crate::text::is_digit(x) || x == DOT
        }
}

} // verus!
