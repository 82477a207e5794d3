//! The credentials that may stand before the host of an absolute URI.

use crate::error::ParseError;
use crate::model::{Authority, AuthorityView};
use crate::text::{
    byte_len, lemma_run_is_run, rest_of, span, tag_byte, take_while, take_while1, CharClass,
    AT_SIGN, COLON,
};
use vstd::prelude::*;
use vstd::string::*;

verus! {

broadcast use {vstd::seq_lib::group_seq_lib_default, vstd::seq_lib::lemma_seq_skip_of_skip};

/// What `parse_authority` makes of the bytes `s`: the credentials, if `s`
/// begins with any, and how many bytes they take.
///
/// Credentials are a user name of letters and digits, then possibly a
/// colon, then possibly a password of letters and digits, then `@`. Where
/// `s` does not begin so, there are none and nothing is taken.
#[verifier::opaque]
pub open spec fn spec_authority(s: Seq<u8>) -> (Option<AuthorityView>, nat) {
    let user = span(s, CharClass::Alphanumeric);
    let colon: nat = if user < s.len() && s[user as int] == COLON {
        1
    } else {
        0
    };
    let password = span(s.skip((user + colon) as int), CharClass::Alphanumeric);
    let end = user + colon + password;
    if user > 0 && end < s.len() && s[end as int] == AT_SIGN {
        (
            Some(
                AuthorityView {
                    username: s.take(user as int),
                    password: if password > 0 {
                        Some(s.subrange((user + colon) as int, end as int))
                    } else {
                        None
                    },
                },
            ),
            end + 1,
        )
    } else {
        (None, 0)
    }
}

/// The credentials at the head of `input`, if there are any.
///
/// This never fails: where `input` does not begin with credentials that end
/// in `@`, the result is `None` and the remainder is all of `input`.
pub fn parse_authority(input: &str) -> (r: Result<(Option<Authority>, &str), ParseError>)
    ensures
        r matches Ok((authority, rest)) && ({
            let (expected, n) = spec_authority(input.spec_bytes());
            &&& rest_of(input, rest, n)
            &&& match expected {
                Some(view) => authority matches Some(found) && found@ == view,
                None => authority is None,
            }
        }),
{
    proof {
        reveal(spec_authority);
    }
    let ghost s = input.spec_bytes();
    proof {
        assert(s.skip(0) =~= s);
        lemma_run_is_run(s, CharClass::Alphanumeric, s.len());
    }
    let (user, after_user) = match take_while1(input, CharClass::Alphanumeric) {
        Ok(found) => found,
        Err(_) => {
            return Ok((None, input));
        },
    };
    let ghost u = span(s, CharClass::Alphanumeric);
    let after_colon = match tag_byte(after_user, COLON) {
        Ok(after) => after,
        Err(_) => after_user,
    };
    proof {
        if u < s.len() {
            assert(after_user.spec_bytes()[0] == s[u as int]);
        }
        lemma_run_is_run(
            after_colon.spec_bytes(),
            CharClass::Alphanumeric,
            after_colon.spec_bytes().len(),
        );
    }
    let (password, after_password) = take_while(after_colon, CharClass::Alphanumeric);
    let ghost end = s.len() - after_password.spec_bytes().len();
    proof {
        if end < s.len() {
            assert(after_password.spec_bytes()[0] == s[end]);
        }
    }
    match tag_byte(after_password, AT_SIGN) {
        Ok(rest) => {
            proof {
                let start = s.len() - after_colon.spec_bytes().len();
                assert(password.spec_bytes() =~= s.subrange(start, end));
            }
            let password = if byte_len(password) > 0 {
                Some(password.to_owned())
            } else {
                None
            };
            Ok((Some(Authority { username: user.to_owned(), password }), rest))
        },
        Err(_) => Ok((None, input)),
    }
}

} // verus!
