//! What a host is read as depends on nothing behind the host.
//!
//! The rules for a host stop at the first byte that cannot stand in a host.
//! Two texts that are the same up to such a byte, or up to their end, are
//! read alike.

use crate::host::{dotted, spec_host, spec_ipv4, spec_named_host, spec_octet_dot};
use crate::number::{spec_octet, spec_one_to_three_digits};

use crate::text::{
    is_run, lemma_run_is_run, lemma_run_unique, run, span, spec_tag_byte, CharClass, DOT,
};
use crate::valid::is_host_byte;
use vstd::prelude::*;

verus! {

/// Whether no host goes on at offset `n` of `s`.
pub open spec fn host_stop(s: Seq<u8>, n: nat) -> bool {
    n <= s.len() && (n == s.len() || !is_host_byte(s[n as int]))
}

/// Whether `a` and `b` are the same up to offset `n`, where no host goes
/// on in either.
pub open spec fn agree(a: Seq<u8>, b: Seq<u8>, n: nat) -> bool {
    &&& host_stop(a, n)
    &&& host_stop(b, n)
    &&& forall|i: int| 0 <= i < n ==> #[trigger] a[i] == b[i]
}

/// Whether every byte of `class` can stand in a host.
pub open spec fn host_class(class: CharClass) -> bool {
    class == CharClass::Digit || class == CharClass::Alpha || class == CharClass::Label
}

/// Two texts that agree still agree behind their first `k` bytes.
pub proof fn lemma_agree_skip(a: Seq<u8>, b: Seq<u8>, n: nat, k: nat)
    requires
        agree(a, b, n),
        k <= n,
    ensures
        agree(a.skip(k as int), b.skip(k as int), (n - k) as nat),
{
    let a1 = a.skip(k as int);
    let b1 = b.skip(k as int);
    assert forall|i: int| 0 <= i < n - k implies #[trigger] a1[i] == b1[i] by {
        assert(a1[i] == a[i + k]);
        assert(b1[i] == b[i + k]);
    }
    if n < a.len() {
        assert(a1[n - k] == a[n as int]);
    }
    if n < b.len() {
        assert(b1[n - k] == b[n as int]);
    }
}

/// Two texts that agree begin with the same `k` bytes.
pub proof fn lemma_agree_take(a: Seq<u8>, b: Seq<u8>, n: nat, k: nat)
    requires
        agree(a, b, n),
        k <= n,
    ensures
        a.take(k as int) == b.take(k as int),
{
    assert(a.take(k as int) =~= b.take(k as int));
}

/// The run of a class of host bytes is the same in both texts and ends
/// where the host ends, at the latest.
pub proof fn lemma_frame_run(a: Seq<u8>, b: Seq<u8>, n: nat, class: CharClass, limit: nat)
    requires
        agree(a, b, n),
        host_class(class),
    ensures
        run(a, class, limit) == run(b, class, limit),
        run(a, class, limit) <= n,
{
    let r = run(a, class, limit);
    lemma_run_is_run(a, class, limit);
    if r > n {
        assert(class.has(a[n as int]));
    }
    assert forall|i: int| 0 <= i < r implies class.has(#[trigger] b[i]) by {
        assert(a[i] == b[i]);
    }
    if r < n {
        assert(a[r as int] == b[r as int]);
    }
    assert(is_run(b, class, limit, r));
    lemma_run_unique(b, class, limit, r);
}

/// The span of a class of host bytes is the same in both texts and ends
/// where the host ends, at the latest.
pub proof fn lemma_frame_span(a: Seq<u8>, b: Seq<u8>, n: nat, class: CharClass)
    requires
        agree(a, b, n),
        host_class(class),
    ensures
        span(a, class) == span(b, class),
        span(a, class) <= n,
{
    let r = span(a, class);
    lemma_run_is_run(a, class, a.len());
    if r > n {
        assert(class.has(a[n as int]));
    }
    assert forall|i: int| 0 <= i < r implies class.has(#[trigger] b[i]) by {
        assert(a[i] == b[i]);
    }
    if r < n {
        assert(a[r as int] == b[r as int]);
    }
    assert(is_run(b, class, b.len(), r));
    lemma_run_unique(b, class, b.len(), r);
}

/// Two texts that agree begin with the same octet, or with none.
pub proof fn lemma_frame_octet(a: Seq<u8>, b: Seq<u8>, n: nat)
    requires
        agree(a, b, n),
    ensures
        spec_octet(a) == spec_octet(b),
        spec_octet(a) matches Ok((_, m)) ==> m <= n,
{
    reveal(spec_octet);
    lemma_frame_run(a, b, n, CharClass::Digit, 3);
    if let Ok(m) = spec_one_to_three_digits(a) {
        lemma_agree_take(a, b, n, m);
    }
}

/// Two texts that agree both begin with a dot, or neither does.
pub proof fn lemma_frame_dot(a: Seq<u8>, b: Seq<u8>, n: nat)
    requires
        agree(a, b, n),
    ensures
        spec_tag_byte(a, DOT) == spec_tag_byte(b, DOT),
        spec_tag_byte(a, DOT) is Ok ==> 1 <= n,
{
    if n > 0 {
        assert(a[0] == b[0]);
    }
}

/// Two texts that agree begin with the same octet and dot, or with none.
pub proof fn lemma_frame_octet_dot(a: Seq<u8>, b: Seq<u8>, n: nat)
    requires
        agree(a, b, n),
    ensures
        spec_octet_dot(a) == spec_octet_dot(b),
        spec_octet_dot(a) matches Ok((_, m)) ==> m <= n,
{
    reveal(spec_octet_dot);
    lemma_frame_octet(a, b, n);
    if let Ok((_, m)) = spec_octet(a) {
        lemma_agree_skip(a, b, n, m);
        lemma_frame_dot(a.skip(m as int), b.skip(m as int), (n - m) as nat);
    }
}

/// Two texts that agree begin with the same address, or with none.
pub proof fn lemma_frame_ipv4(a: Seq<u8>, b: Seq<u8>, n: nat)
    requires
        agree(a, b, n),
    ensures
        spec_ipv4(a) == spec_ipv4(b),
        spec_ipv4(a) matches Ok((_, m)) ==> m <= n,
{
    reveal(spec_ipv4);
    lemma_frame_octet_dot(a, b, n);
    if let Ok((_, n1)) = spec_octet_dot(a) {
        lemma_agree_skip(a, b, n, n1);
        let a1 = a.skip(n1 as int);
        let b1 = b.skip(n1 as int);
        lemma_frame_octet_dot(a1, b1, (n - n1) as nat);
        if let Ok((_, n2)) = spec_octet_dot(a1) {
            lemma_agree_skip(a, b, n, n1 + n2);
            let a2 = a.skip((n1 + n2) as int);
            let b2 = b.skip((n1 + n2) as int);
            lemma_frame_octet_dot(a2, b2, (n - n1 - n2) as nat);
            if let Ok((_, n3)) = spec_octet_dot(a2) {
                lemma_agree_skip(a, b, n, n1 + n2 + n3);
                let a3 = a.skip((n1 + n2 + n3) as int);
                let b3 = b.skip((n1 + n2 + n3) as int);
                lemma_frame_octet(a3, b3, (n - n1 - n2 - n3) as nat);
            }
        }
    }
}

/// Two texts that agree begin with the same labels that end in a dot.
pub proof fn lemma_frame_dotted(a: Seq<u8>, b: Seq<u8>, n: nat)
    requires
        agree(a, b, n),
    ensures
        dotted(a) == dotted(b),
        dotted(a) <= n,
    decreases n,
{
    lemma_frame_span(a, b, n, CharClass::Label);
    let label = span(a, CharClass::Label);
    if label < n {
        assert(a[label as int] == b[label as int]);
    }
    if label > 0 && label < a.len() && a[label as int] == DOT {
        assert(label < n);
        lemma_agree_skip(a, b, n, label + 1);
        lemma_frame_dotted(
            a.skip(label + 1 as int),
            b.skip(label + 1 as int),
            (n - label - 1) as nat,
        );
    }
}

/// Two texts that agree begin with the same host name, or with none.
pub proof fn lemma_frame_named(a: Seq<u8>, b: Seq<u8>, n: nat)
    requires
        agree(a, b, n),
    ensures
        spec_named_host(a) == spec_named_host(b),
        spec_named_host(a) matches Ok((_, m)) ==> m <= n,
{
    reveal(spec_named_host);
    lemma_frame_dotted(a, b, n);
    let labels = dotted(a);
    lemma_agree_skip(a, b, n, labels);
    lemma_frame_span(
        a.skip(labels as int),
        b.skip(labels as int),
        (n - labels) as nat,
        CharClass::Alpha,
    );
    lemma_frame_span(a, b, n, CharClass::Label);
    let last = span(a.skip(labels as int), CharClass::Alpha);
    lemma_agree_take(a, b, n, labels + last);
    lemma_agree_take(a, b, n, span(a, CharClass::Label));
}

/// Two texts that are the same up to where no host goes on are read as the
/// same host, or refused alike.
pub proof fn lemma_frame_host(a: Seq<u8>, b: Seq<u8>, n: nat)
    requires
        agree(a, b, n),
    ensures
        spec_host(a) == spec_host(b),
        spec_host(a) matches Ok((_, m)) ==> m <= n,
{
    reveal(spec_host);
    lemma_frame_ipv4(a, b, n);
    lemma_frame_named(a, b, n);
}

} // verus!
