//! Credentials that were read are valid; valid credentials are read back
//! from their text; and a host without credentials is not taken for any.

use crate::model::AuthorityView;
use crate::render::authority_text;
use crate::roundtrip::texts::{lemma_concat_assoc, lemma_concat_parts, lemma_span_text};
use crate::authority::spec_authority;
use crate::text::{lemma_run_is_run, span, CharClass, AT_SIGN, COLON};
use crate::render::port_text;
use crate::roundtrip::follow::after_port;
use crate::roundtrip::ports::lemma_port_digits;
use crate::text::lemma_run_unique;
use crate::valid::{host_bytes, valid_authority, valid_port};
use vstd::prelude::*;

verus! {

/// Credentials that were read are valid and end within the text.
pub proof fn lemma_authority_valid(s: Seq<u8>)
    ensures
        valid_authority(spec_authority(s).0),
        spec_authority(s).1 <= s.len(),
{
    reveal(spec_authority);
    lemma_run_is_run(s, CharClass::Alphanumeric, s.len());
    let user = span(s, CharClass::Alphanumeric);
    let colon: nat = if user < s.len() && s[user as int] == COLON {
        1
    } else {
        0
    };
    let t = s.skip((user + colon) as int);
    lemma_run_is_run(t, CharClass::Alphanumeric, t.len());
    if let Some(a) = spec_authority(s).0 {
        assert forall|i: int| 0 <= i < a.username.len() implies CharClass::Alphanumeric.has(
            #[trigger] a.username[i],
        ) by {
            assert(a.username[i] == s[i]);
        }
        if let Some(password) = a.password {
            assert forall|i: int| 0 <= i < password.len() implies CharClass::Alphanumeric.has(
                #[trigger] password[i],
            ) by {
                assert(password[i] == t[i]);
            }
        }
    }
}

/// The text of valid credentials is read back as those credentials.
pub proof fn lemma_authority_text(authority: AuthorityView, rest: Seq<u8>)
    requires
        valid_authority(Some(authority)),
    ensures
        spec_authority(authority_text(Some(authority)) + rest) == (
            Some(authority),
            authority_text(Some(authority)).len(),
        ),
{
    reveal(spec_authority);
    let user = authority.username;
    let text = authority_text(Some(authority));
    let s = text + rest;
    match authority.password {
        Some(password) => {
            let after_password = seq![AT_SIGN] + rest;
            let after_colon = password + after_password;
            let after_user = seq![COLON] + after_colon;
            lemma_concat_assoc(password, seq![AT_SIGN], rest);
            lemma_concat_assoc(seq![COLON], password + seq![AT_SIGN], rest);
            lemma_concat_assoc(user, seq![COLON] + (password + seq![AT_SIGN]), rest);
            assert(s == user + after_user);
            lemma_span_text(user, after_user, CharClass::Alphanumeric);
            lemma_concat_parts(user, after_user);
            lemma_concat_parts(seq![COLON], after_colon);
            assert(s[user.len() as int] == COLON) by {
                assert(s.skip(user.len() as int)[0] == after_user[0]);
            }
            assert(s.skip(user.len() + 1 as int) == after_colon) by {
                assert(s.skip(user.len() as int).skip(1) =~= s.skip(user.len() + 1 as int));
            }
            lemma_span_text(password, after_password, CharClass::Alphanumeric);
            lemma_concat_parts(password, after_password);
            let end = user.len() + 1 + password.len();
            assert(s[end as int] == AT_SIGN) by {
                assert(after_colon.skip(password.len() as int)[0] == after_password[0]);
                assert(after_colon[password.len() as int] == s[end as int]);
            }
            assert(s.subrange(user.len() + 1 as int, end as int) =~= password);
        },
        None => {
            let after_user = seq![AT_SIGN] + rest;
            lemma_concat_assoc(user, seq![AT_SIGN], rest);
            assert(s == user + after_user);
            lemma_span_text(user, after_user, CharClass::Alphanumeric);
            lemma_concat_parts(user, after_user);
            assert(s[user.len() as int] == AT_SIGN) by {
                assert(s.skip(user.len() as int)[0] == after_user[0]);
            }
            lemma_run_is_run(after_user, CharClass::Alphanumeric, after_user.len());
        },
    }
}

/// The text of a host, with a port or without and then the rest of the
/// target behind it, does not begin with credentials.
pub proof fn lemma_no_authority(host: Seq<u8>, port: Option<u16>, rest: Seq<u8>)
    requires
        host.len() > 0,
        host_bytes(host),
        valid_port(port),
        after_port(rest),
    ensures
        spec_authority(host + (port_text(port) + rest)) == (None::<AuthorityView>, 0nat),
{
    reveal(spec_authority);
    let behind = port_text(port) + rest;
    let s = host + behind;
    lemma_concat_parts(host, behind);
    lemma_concat_parts(port_text(port), rest);
    lemma_run_is_run(s, CharClass::Alphanumeric, s.len());
    let user = span(s, CharClass::Alphanumeric);
    assert(s[host.len() as int] == behind[0]) by {
        assert(s.skip(host.len() as int)[0] == behind[0]);
    }
    assert(!CharClass::Alphanumeric.has(behind[0]) && behind[0] != AT_SIGN) by {
        if let Some(p) = port {
            let digits = lemma_port_digits(p);
            lemma_concat_assoc(seq![COLON], digits, rest);
            lemma_concat_parts(seq![COLON], digits + rest);
        }
    }
    if user > host.len() {
        assert(CharClass::Alphanumeric.has(s[host.len() as int]));
    }
    if user < host.len() {
        assert(s[user as int] == host[user as int]);
        assert(s.skip(user as int)[0] == s[user as int]);
        lemma_run_unique(s.skip(user as int), CharClass::Alphanumeric, s.skip(
            user as int,
        ).len(), 0);
    } else {
        match port {
            Some(p) => {
                let digits = lemma_port_digits(p);
                let after_colon = digits + rest;
                lemma_concat_assoc(seq![COLON], digits, rest);
                lemma_concat_parts(seq![COLON], after_colon);
                assert(s.skip(user + 1 as int) == after_colon) by {
                    assert(s.skip(user as int).skip(1) =~= s.skip(user + 1 as int));
                }
                assert forall|i: int| 0 <= i < digits.len() implies CharClass::Alphanumeric.has(
                    #[trigger] digits[i],
                ) by {
                    assert(crate::text::is_digit(digits[i]));
                }
                lemma_span_text(digits, rest, CharClass::Alphanumeric);
                lemma_concat_parts(digits, rest);
                let end = user + 1 + digits.len();
                assert(s[end as int] == rest[0]) by {
                    assert(after_colon.skip(digits.len() as int)[0] == rest[0]);
                    assert(after_colon[digits.len() as int] == s[end as int]);
                }
            },
            None => {
                assert(port_text(port) + rest =~= rest);
                assert(s.skip(user as int)[0] == s[user as int]);
                lemma_run_unique(s.skip(user as int), CharClass::Alphanumeric, s.skip(
                    user as int,
                ).len(), 0);
            },
        }
    }
}

} // verus!
