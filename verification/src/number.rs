//! Numbers written in decimal digits: the octets of an address and the port.

use crate::error::{ErrorKind, Failure, ParseError};
use crate::text::{
    consumed, cut_at, failed, is_digit, out_of_range, rest_of, spec_tag_byte, spec_take_m_n,
    tag_byte, take_m_n, CharClass, COLON, ZERO,
};
use vstd::prelude::*;
use vstd::string::*;

verus! {

broadcast use {vstd::seq_lib::group_seq_lib_default, vstd::seq_lib::lemma_seq_skip_of_skip};

/// The number that the decimal digits `digits` write.
pub open spec fn decimal(digits: Seq<u8>) -> nat
    decreases digits.len(),
{
    if digits.len() == 0 {
        0
    } else {
        decimal(digits.drop_last()) * 10 + (digits.last() - ZERO) as nat
    }
}

/// Whether `s` holds decimal digits and nothing else.
pub open spec fn all_digits(s: Seq<u8>) -> bool {
    forall|i: int| 0 <= i < s.len() ==> is_digit(#[trigger] s[i])
}

/// One more than the largest number that `n` decimal digits can write.
pub open spec fn ten_to(n: nat) -> nat
    decreases n,
{
    if n == 0 {
        1
    } else {
        10 * ten_to((n - 1) as nat)
    }
}

/// A number of `n` digits lies below the `n`th power of ten.
pub proof fn lemma_decimal_bound(digits: Seq<u8>)
    requires
        all_digits(digits),
    ensures
        decimal(digits) < ten_to(digits.len()),
    decreases digits.len(),
{
    if digits.len() > 0 {
        lemma_decimal_bound(digits.drop_last());
        assert(is_digit(digits[digits.len() - 1]));
    }
}

/// The number written by up to four decimal digits.
fn decimal_value(digits: &str) -> (v: u16)
    requires
        all_digits(digits.spec_bytes()),
        digits.spec_bytes().len() <= 4,
    ensures
        v == decimal(digits.spec_bytes()),
        v < ten_to(digits.spec_bytes().len()),
{
    let bytes = digits.as_bytes();
    let mut v: u16 = 0;
    let mut i: usize = 0;
    proof {
        reveal_with_fuel(ten_to, 5);
    }
    while i < bytes.len()
        invariant
            bytes@ == digits.spec_bytes(),
            all_digits(bytes@),
            i <= bytes@.len() <= 4,
            v == decimal(bytes@.take(i as int)),
            v < ten_to(i as nat),
            ten_to(4) == 10000,
            ten_to(3) == 1000,
            ten_to(2) == 100,
            ten_to(1) == 10,
            ten_to(0) == 1,
        decreases bytes@.len() - i,
    {
        let d = bytes[i] - ZERO;
        proof {
            assert(is_digit(bytes@[i as int]));
            let t = bytes@.take(i + 1);
            assert(t.drop_last() =~= bytes@.take(i as int));
            assert(t.last() == bytes@[i as int]);
            assert(ten_to((i + 1) as nat) == 10 * ten_to(i as nat));
        }
        v = v * 10 + d as u16;
        i += 1;
    }
    proof {
        assert(bytes@.take(i as int) =~= bytes@);
    }
    v
}

/// What `one_digit` makes of the bytes `s`.
pub open spec fn spec_one_digit(s: Seq<u8>) -> Result<(char, nat), Failure> {
    match spec_take_m_n(s, CharClass::Digit, 1, 1) {
        Ok(n) => Ok((s[0] as char, n)),
        Err(f) => Err(f),
    }
}

/// The decimal digit at the head of `input`, and what follows it.
pub fn one_digit(input: &str) -> (r: Result<(char, &str), ParseError>)
    ensures
        match spec_one_digit(input.spec_bytes()) {
            Ok((digit, n)) => r matches Ok((found, rest)) && found == digit && rest_of(
                input,
                rest,
                n,
            ),
            Err(f) => r matches Err(e) && failed(input, e, f),
        },
{
    match take_m_n(input, CharClass::Digit, 1, 1) {
        Ok((digit, rest)) => {
            proof {
                crate::text::lemma_run_is_run(input.spec_bytes(), CharClass::Digit, 1);
            }
            Ok((digit.as_bytes()[0] as char, rest))
        },
        Err(e) => Err(e),
    }
}

/// What `one_to_three_digits` makes of the bytes `s`.
pub open spec fn spec_one_to_three_digits(s: Seq<u8>) -> Result<nat, Failure> {
    spec_take_m_n(s, CharClass::Digit, 1, 3)
}

/// What `two_to_four_digits` makes of the bytes `s`.
pub open spec fn spec_two_to_four_digits(s: Seq<u8>) -> Result<nat, Failure> {
    spec_take_m_n(s, CharClass::Digit, 2, 4)
}

/// The one to three decimal digits at the head of `input`, as many as there
/// are, and what follows them. A fourth digit is left where it is.
pub fn one_to_three_digits(input: &str) -> (r: Result<(&str, &str), ParseError>)
    ensures
        match spec_one_to_three_digits(input.spec_bytes()) {
            Ok(n) => r matches Ok((digits, rest)) && cut_at(input, digits, rest, n),
            Err(f) => r matches Err(e) && failed(input, e, f),
        },
{
    take_m_n(input, CharClass::Digit, 1, 3)
}

/// The two to four decimal digits at the head of `input`, as many as there
/// are, and what follows them. A fifth digit is left where it is.
pub fn two_to_four_digits(input: &str) -> (r: Result<(&str, &str), ParseError>)
    ensures
        match spec_two_to_four_digits(input.spec_bytes()) {
            Ok(n) => r matches Ok((digits, rest)) && cut_at(input, digits, rest, n),
            Err(f) => r matches Err(e) && failed(input, e, f),
        },
{
    take_m_n(input, CharClass::Digit, 2, 4)
}

/// What `parse_octet` makes of the bytes `s`: the value of one to three
/// digits, which must not be above 255, and how many digits it took.
#[verifier::opaque]
pub open spec fn spec_octet(s: Seq<u8>) -> Result<(u8, nat), Failure> {
    match spec_one_to_three_digits(s) {
        Ok(n) => {
            let value = decimal(s.take(n as int));
            if value <= 255 {
                Ok((value as u8, n))
            } else {
                Err(out_of_range(n))
            }
        },
        Err(f) => Err(f),
    }
}

/// One octet of an IPv4 address: one to three decimal digits that write a
/// number up to 255. A number above 255 is a failure reported behind its
/// digits.
pub fn parse_octet(input: &str) -> (r: Result<(u8, &str), ParseError>)
    ensures
        match spec_octet(input.spec_bytes()) {
            Ok((value, n)) => r matches Ok((octet, rest)) && octet == value && rest_of(
                input,
                rest,
                n,
            ),
            Err(f) => r matches Err(e) && failed(input, e, f),
        },
{
    proof {
        reveal(spec_octet);
    }
    match one_to_three_digits(input) {
        Ok((digits, rest)) => {
            proof {
                crate::text::lemma_run_is_run(input.spec_bytes(), CharClass::Digit, 3);
            }
            let value = decimal_value(digits);
            if value <= 255 {
                Ok((value as u8, rest))
            } else {
                Err(ParseError { kind: ErrorKind::OutOfRange, offset: consumed(input, rest) })
            }
        },
        Err(e) => Err(e),
    }
}

/// What `parse_port` makes of the bytes `s`: a colon and the value of the
/// two to four digits behind it.
#[verifier::opaque]
pub open spec fn spec_port(s: Seq<u8>) -> Result<(u16, nat), Failure> {
    match spec_tag_byte(s, COLON) {
        Ok(_) => match spec_two_to_four_digits(s.skip(1)) {
            Ok(n) => Ok((decimal(s.subrange(1, 1 + n as int)) as u16, 1 + n)),
            Err(f) => Err(f.shift(1)),
        },
        Err(f) => Err(f),
    }
}

/// A port: a colon and two to four decimal digits.
pub fn parse_port(input: &str) -> (r: Result<(u16, &str), ParseError>)
    ensures
        match spec_port(input.spec_bytes()) {
            Ok((value, n)) => r matches Ok((port, rest)) && port == value && rest_of(
                input,
                rest,
                n,
            ),
            Err(f) => r matches Err(e) && failed(input, e, f),
        },
{
    proof {
        reveal(spec_port);
    }
    match tag_byte(input, COLON) {
        Ok(after) => match two_to_four_digits(after) {
            Ok((digits, rest)) => {
                proof {
                    crate::text::lemma_run_is_run(after.spec_bytes(), CharClass::Digit, 4);
                    let s = input.spec_bytes();
                    let n = spec_two_to_four_digits(s.skip(1))->Ok_0;
                    assert(s.skip(1).take(n as int) =~= s.subrange(1, 1 + n as int));
                    assert(s.skip(1).skip(n as int) =~= s.skip(1 + n as int));
                }
                Ok((decimal_value(digits), rest))
            },
            Err(e) => Err(e.shift(1)),
        },
        Err(e) => Err(e),
    }
}

} // verus!
