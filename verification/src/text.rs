//! Text as bytes: character classes, runs of a class, literal tags, and the
//! cutting of a `&str` at a byte offset.
//!
//! Every rule of the grammar is stated over the UTF-8 bytes of its input
//! (`spec_bytes`), so that offsets are byte offsets. All bytes that the
//! grammar gives a meaning to are ASCII; bytes of longer UTF-8 sequences only
//! ever occur inside free text (header values, paths, queries, fragments).

use crate::error::{ErrorKind, Failure, ParseError};
use vstd::prelude::*;
use vstd::string::*;
use vstd::utf8::*;

verus! {

broadcast use {vstd::seq_lib::group_seq_lib_default, vstd::seq_lib::lemma_seq_skip_of_skip};

/// The classes of bytes that the grammar tells apart.
#[derive(Debug, Clone, Copy, PartialEq, Eq, Structural)]
pub enum CharClass {
    /// `0` to `9`.
    Digit,
    /// `a` to `z` and `A` to `Z`.
    Alpha,
    /// A digit or a letter.
    Alphanumeric,
    /// A digit, a letter or `-`: what a host label or a header name is made of.
    Label,
    /// A space or a horizontal tab.
    Blank,
    /// Anything but a line feed.
    Line,
    /// A visible byte other than `?` and `#`: what a path is made of.
    Path,
    /// A visible byte other than `#`: what a query is made of.
    Query,
    /// A visible byte other than `=`, `&` and `#`: what a query key is made of.
    Key,
    /// A visible byte other than `&` and `#`: what a query value is made of.
    Value,
    /// A visible byte: what a fragment is made of.
    Fragment,
}

/// Horizontal tab.
pub const TAB: u8 = 0x09;

/// Line feed, which ends a line.
pub const LINE_FEED: u8 = 0x0a;

/// Carriage return, which may stand before the line feed.
pub const CARRIAGE_RETURN: u8 = 0x0d;

/// Space.
pub const SPACE: u8 = 0x20;

/// `#`, which begins a fragment.
pub const HASH: u8 = 0x23;

/// `&`, which parts the pairs of a query.
pub const AMPERSAND: u8 = 0x26;

/// `*`, the wildcard.
pub const ASTERISK: u8 = 0x2a;

/// `-`.
pub const HYPHEN: u8 = 0x2d;

/// `.`, which parts the labels of a host and the octets of an address.
pub const DOT: u8 = 0x2e;

/// `/`, which begins a path.
pub const SLASH: u8 = 0x2f;

/// The digit `0`.
pub const ZERO: u8 = 0x30;

/// `:`, which begins a port and parts a header name from its value.
pub const COLON: u8 = 0x3a;

/// `=`, which parts a key from its value.
pub const EQUALS: u8 = 0x3d;

/// `?`, which begins a query.
pub const QUESTION_MARK: u8 = 0x3f;

/// `@`, which ends the credentials.
pub const AT_SIGN: u8 = 0x40;

/// The control byte DEL.
pub const DELETE: u8 = 0x7f;

/// A decimal digit.
pub open spec fn is_digit(b: u8) -> bool {
    0x30 <= b <= 0x39
}

/// An ASCII letter.
pub open spec fn is_alpha(b: u8) -> bool {
    0x41 <= b <= 0x5a || 0x61 <= b <= 0x7a
}

/// Neither a control byte nor a space; bytes of multi-byte UTF-8 sequences
/// count as visible.
pub open spec fn is_visible(b: u8) -> bool {
    b > SPACE && b != DELETE
}

/// The lower-case form of an ASCII letter; every other byte is unchanged.
pub open spec fn lower(b: u8) -> u8 {
    if 0x41 <= b <= 0x5a {
        (b + 0x20) as u8
    } else {
        b
    }
}

impl CharClass {
    /// Whether `b` belongs to the class.
    pub open spec fn has(self, b: u8) -> bool {
        match self {
            CharClass::Digit => is_digit(b),
            CharClass::Alpha => is_alpha(b),
            CharClass::Alphanumeric => is_digit(b) || is_alpha(b),
            CharClass::Label => is_digit(b) || is_alpha(b) || b == HYPHEN,
            CharClass::Blank => b == SPACE || b == TAB,
            CharClass::Line => b != LINE_FEED,
            CharClass::Path => is_visible(b) && b != QUESTION_MARK && b != HASH,
            CharClass::Query => is_visible(b) && b != HASH,
            CharClass::Key => is_visible(b) && b != EQUALS && b != AMPERSAND && b != HASH,
            CharClass::Value => is_visible(b) && b != AMPERSAND && b != HASH,
            CharClass::Fragment => is_visible(b),
        }
    }

    /// Whether every byte of the class is ASCII. The classes of free text
    /// are not: they admit the bytes of multi-byte sequences.
    pub open spec fn ascii_only(self) -> bool {
        match self {
            CharClass::Digit | CharClass::Alpha | CharClass::Alphanumeric | CharClass::Label
            | CharClass::Blank => true,
            _ => false,
        }
    }

    /// Whether `b` belongs to the class.
    pub fn contains(self, b: u8) -> (r: bool)
        ensures
            r == self.has(b),
    {
        let digit = 0x30 <= b && b <= 0x39;
        let alpha = (0x41 <= b && b <= 0x5a) || (0x61 <= b && b <= 0x7a);
        let visible = b > SPACE && b != DELETE;
        match self {
            CharClass::Digit => digit,
            CharClass::Alpha => alpha,
            CharClass::Alphanumeric => digit || alpha,
            CharClass::Label => digit || alpha || b == HYPHEN,
            CharClass::Blank => b == SPACE || b == TAB,
            CharClass::Line => not_newline(b as char),
            CharClass::Path => visible && b != QUESTION_MARK && b != HASH,
            CharClass::Query => visible && b != HASH,
            CharClass::Key => visible && b != EQUALS && b != AMPERSAND && b != HASH,
            CharClass::Value => visible && b != AMPERSAND && b != HASH,
            CharClass::Fragment => visible,
        }
    }
}

/// Whether `chr` can stand inside a line, that is, is not the line feed that
/// ends it.
pub fn not_newline(chr: char) -> (r: bool)
    ensures
        r == (chr != '\n'),
{
    chr != '\n'
}

/// The lower-case form of an ASCII letter; every other byte is unchanged.
pub fn to_lower(b: u8) -> (r: u8)
    ensures
        r == lower(b),
{
    if 0x41 <= b && b <= 0x5a {
        b + 0x20
    } else {
        b
    }
}

/// The bytes of a text of ASCII characters, one byte for each character.
pub open spec fn ascii(chars: Seq<char>) -> Seq<u8> {
    Seq::new(chars.len(), |i: int| chars[i] as u8)
}

/// The bytes of a text of ASCII characters are its characters.
pub proof fn lemma_ascii_bytes(text: &str)
    requires
        is_ascii(text),
    ensures
        text.spec_bytes() == ascii(text@),
{
    is_ascii_spec_bytes(text);
}

/// The length of the longest prefix of `s` that lies in `class` and is at
/// most `limit` bytes long.
pub open spec fn run(s: Seq<u8>, class: CharClass, limit: nat) -> nat
    decreases limit,
{
    if limit > 0 && s.len() > 0 && class.has(s[0]) {
        1 + run(s.skip(1), class, (limit - 1) as nat)
    } else {
        0
    }
}

/// The length of the longest prefix of `s` that lies in `class`.
pub open spec fn span(s: Seq<u8>, class: CharClass) -> nat {
    run(s, class, s.len())
}

/// What pins `run(s, class, limit)` down: `n` bytes of the class, and then
/// the limit, the end of `s`, or a byte outside the class.
pub open spec fn is_run(s: Seq<u8>, class: CharClass, limit: nat, n: nat) -> bool {
    &&& n <= limit
    &&& n <= s.len()
    &&& forall|i: int| 0 <= i < n ==> class.has(#[trigger] s[i])
    &&& (n == limit || n == s.len() || !class.has(s[n as int]))
}

/// A run is a run: it lies in the class, and it ends at the limit, at the
/// end of the text, or before a byte outside the class.
pub proof fn lemma_run_is_run(s: Seq<u8>, class: CharClass, limit: nat)
    ensures
        is_run(s, class, limit, run(s, class, limit)),
    decreases limit,
{
    if limit > 0 && s.len() > 0 && class.has(s[0]) {
        let t = s.skip(1);
        lemma_run_is_run(t, class, (limit - 1) as nat);
        let n = run(s, class, limit);
        assert forall|i: int| 0 <= i < n implies class.has(#[trigger] s[i]) by {
            if i > 0 {
                assert(s[i] == t[i - 1]);
            }
        }
        if !(n == limit || n == s.len()) {
            assert(s[n as int] == t[n - 1]);
        }
    }
}

/// There is only one run: a number of bytes that lies in the class and ends
/// as a run ends is the run.
pub proof fn lemma_run_unique(s: Seq<u8>, class: CharClass, limit: nat, n: nat)
    requires
        is_run(s, class, limit, n),
    ensures
        run(s, class, limit) == n,
    decreases limit,
{
    if limit > 0 && s.len() > 0 && class.has(s[0]) {
        let t = s.skip(1);
        assert(n > 0);
        assert forall|i: int| 0 <= i < n - 1 implies class.has(#[trigger] t[i]) by {
            assert(t[i] == s[i + 1]);
        }
        if !(n == limit || n == s.len()) {
            assert(t[n - 1] == s[n as int]);
        }
        lemma_run_unique(t, class, (limit - 1) as nat, (n - 1) as nat);
    } else {
        if n > 0 {
            assert(class.has(s[0]));
        }
    }
}

/// Whether `s` begins with `tag`.
pub open spec fn starts_with(s: Seq<u8>, tag: Seq<u8>) -> bool {
    tag.len() <= s.len() && s.take(tag.len() as int) == tag
}

/// Whether `s` begins with `tag`, ASCII letters compared without regard to
/// case.
pub open spec fn starts_with_no_case(s: Seq<u8>, tag: Seq<u8>) -> bool {
    &&& tag.len() <= s.len()
    &&& forall|i: int| 0 <= i < tag.len() ==> lower(#[trigger] s[i]) == lower(tag[i])
}

/// Whether a text with the bytes `s` can be cut in two at offset `n` from
/// what the bytes next to the cut show: an ASCII byte on either side, or no
/// byte at all.
pub open spec fn cut_point(s: Seq<u8>, n: int) -> bool {
    &&& 0 <= n <= s.len()
    &&& (n == 0 || n == s.len() || s[n - 1] < 0x80 || s[n] < 0x80)
}

/// A cut point of valid UTF-8 lies between two characters.
pub proof fn lemma_cut_point_is_boundary(s: Seq<u8>, n: int)
    requires
        valid_utf8(s),
        cut_point(s, n),
    ensures
        is_char_boundary(s, n),
{
    if n == 0 || n == s.len() {
        is_char_boundary_start_end_of_seq(s);
    } else if s[n] < 0x80 {
        is_char_boundary_iff_not_is_continuation_byte(s, n);
    } else {
        is_char_boundary_iff_not_is_continuation_byte(s, n - 1);
        valid_utf8_split(s, n - 1);
        let t = s.subrange(n - 1, s.len() as int);
        assert(t[0] == s[n - 1]);
        assert(length_of_first_scalar(t) == 1);
        let u = pop_first_scalar(t);
        assert(valid_utf8(u));
        assert(u.len() > 0);
        assert(u[0] == s[n]);
        assert(valid_first_scalar(u));
        is_char_boundary_iff_not_is_continuation_byte(s, n);
    }
}

/// The two parts of `input` before and behind byte offset `n`.
pub fn cut(input: &str, n: usize) -> (r: (&str, &str))
    requires
        cut_point(input.spec_bytes(), n as int),
    ensures
        r.0.spec_bytes() == input.spec_bytes().take(n as int),
        r.1.spec_bytes() == input.spec_bytes().skip(n as int),
{
    proof {
        encode_utf8_valid_utf8(input@);
        lemma_cut_point_is_boundary(input.spec_bytes(), n as int);
    }
    input.split_at(n)
}

/// The number of leading bytes of `input` that lie in `class`, counted up to
/// `limit`. Where the count did not stop inside free text for the limit's
/// sake, `input` can be cut there.
pub fn scan(input: &str, class: CharClass, limit: usize) -> (n: usize)
    ensures
        n == run(input.spec_bytes(), class, limit as nat),
        class.ascii_only() || limit >= input.spec_bytes().len() ==> cut_point(
            input.spec_bytes(),
            n as int,
        ),
{
    let bytes = input.as_bytes();
    let mut n: usize = 0;
    while n < limit && n < bytes.len() && class.contains(bytes[n])
        invariant
            bytes@ == input.spec_bytes(),
            n <= limit,
            n <= bytes@.len(),
            forall|i: int| 0 <= i < n ==> class.has(#[trigger] bytes@[i]),
        decreases bytes@.len() - n,
    {
        n += 1;
    }
    proof {
        lemma_run_unique(bytes@, class, limit as nat, n as nat);
        if 0 < n < bytes@.len() {
            if class.ascii_only() {
                assert(class.has(bytes@[n - 1]));
            } else if !class.has(bytes@[n as int]) {
                assert(bytes@[n as int] < 0x80);
            }
        }
    }
    n
}

/// Whether `rest` is what is left of `input` behind its first `n` bytes.
pub open spec fn rest_of(input: &str, rest: &str, n: nat) -> bool {
    &&& n <= input.spec_bytes().len()
    &&& rest.spec_bytes() == input.spec_bytes().skip(n as int)
    &&& rest.spec_bytes().len() == input.spec_bytes().len() - n
}

/// Whether `e` reports the failure `f`, which lies within `input`.
pub open spec fn failed(input: &str, e: ParseError, f: Failure) -> bool {
    e@ == f && f.offset <= input.spec_bytes().len()
}

/// Whether `matched` and `rest` are `input` cut in two at offset `n`.
pub open spec fn cut_at(input: &str, matched: &str, rest: &str, n: nat) -> bool {
    rest_of(input, rest, n) && matched.spec_bytes() == input.spec_bytes().take(n as int)
}

/// The failure of a literal that is not there, `at` bytes into the input.
pub open spec fn unexpected(at: nat) -> Failure {
    Failure { kind: ErrorKind::UnexpectedToken, offset: at }
}

/// The failure of a character class that is not there, `at` bytes into the
/// input.
pub open spec fn no_match(at: nat) -> Failure {
    Failure { kind: ErrorKind::InvalidCharacterClass, offset: at }
}

/// The failure of a number that is too large and ends `at` bytes into the
/// input.
pub open spec fn out_of_range(at: nat) -> Failure {
    Failure { kind: ErrorKind::OutOfRange, offset: at }
}

/// The number of bytes of `input`.
pub fn byte_len(input: &str) -> (n: usize)
    ensures
        n == input.spec_bytes().len(),
{
    input.as_bytes().len()
}

/// How many bytes of `input` lie before `rest`, which is what a rule left
/// of it.
pub fn consumed(input: &str, rest: &str) -> (n: usize)
    requires
        rest.spec_bytes().len() <= input.spec_bytes().len(),
    ensures
        n == input.spec_bytes().len() - rest.spec_bytes().len(),
        input.spec_bytes().len() <= usize::MAX,
{
    byte_len(input) - byte_len(rest)
}

/// The longest prefix of `input` that lies in `class`, and what follows it.
pub fn take_while<'a>(input: &'a str, class: CharClass) -> (r: (&'a str, &'a str))
    ensures
        cut_at(input, r.0, r.1, span(input.spec_bytes(), class)),
{
    let n = scan(input, class, byte_len(input));
    proof {
        lemma_run_is_run(input.spec_bytes(), class, input.spec_bytes().len());
    }
    cut(input, n)
}

/// What `take_while1` makes of the bytes `s`: the length of the longest
/// prefix in `class`, which must not be empty.
pub open spec fn spec_take_while1(s: Seq<u8>, class: CharClass) -> Result<nat, Failure> {
    if span(s, class) > 0 {
        Ok(span(s, class))
    } else {
        Err(no_match(0))
    }
}

/// The longest prefix of `input` that lies in `class`, and what follows it;
/// a failure where `input` does not begin with a byte of the class.
pub fn take_while1<'a>(input: &'a str, class: CharClass) -> (r: Result<
    (&'a str, &'a str),
    ParseError,
>)
    ensures
        match spec_take_while1(input.spec_bytes(), class) {
            Ok(n) => r matches Ok((matched, rest)) && cut_at(input, matched, rest, n),
            Err(f) => r matches Err(e) && failed(input, e, f),
        },
{
    let (matched, rest) = take_while(input, class);
    if byte_len(matched) == 0 {
        Err(ParseError { kind: ErrorKind::InvalidCharacterClass, offset: 0 })
    } else {
        Ok((matched, rest))
    }
}

/// A run of letters, digits and hyphens at the head of `input`, and what
/// follows it. This is what a host label and the name of a header field
/// are made of. An input that does not begin with such a byte is refused:
/// the run must not be empty.
pub fn alphanumerichyphen1(input: &str) -> (r: Result<(&str, &str), ParseError>)
    ensures
        match spec_take_while1(input.spec_bytes(), CharClass::Label) {
            Ok(n) => r matches Ok((matched, rest)) && cut_at(input, matched, rest, n),
            Err(f) => r matches Err(e) && failed(input, e, f),
        },
{
    take_while1(input, CharClass::Label)
}

/// What `take_m_n` makes of the bytes `s`: the length of the longest prefix
/// in `class` of at most `max` bytes, which must have at least `min`.
pub open spec fn spec_take_m_n(s: Seq<u8>, class: CharClass, min: nat, max: nat) -> Result<
    nat,
    Failure,
> {
    let n = run(s, class, max);
    if n >= min {
        Ok(n)
    } else {
        Err(no_match(n))
    }
}

/// Between `min` and `max` leading bytes of `input` that lie in `class`, as
/// many as there are, and what follows them. Where there are fewer than
/// `min`, the failure is reported at the first byte that should have been
/// of the class.
pub fn take_m_n<'a>(input: &'a str, class: CharClass, min: usize, max: usize) -> (r: Result<
    (&'a str, &'a str),
    ParseError,
>)
    requires
        class.ascii_only(),
    ensures
        match spec_take_m_n(input.spec_bytes(), class, min as nat, max as nat) {
            Ok(n) => r matches Ok((matched, rest)) && cut_at(input, matched, rest, n),
            Err(f) => r matches Err(e) && failed(input, e, f),
        },
{
    let n = scan(input, class, max);
    proof {
        lemma_run_is_run(input.spec_bytes(), class, max as nat);
    }
    if n < min {
        Err(ParseError { kind: ErrorKind::InvalidCharacterClass, offset: n })
    } else {
        Ok(cut(input, n))
    }
}

/// What `tag_byte` makes of the bytes `s`.
pub open spec fn spec_tag_byte(s: Seq<u8>, b: u8) -> Result<nat, Failure> {
    if s.len() > 0 && s[0] == b {
        Ok(1)
    } else {
        Err(unexpected(0))
    }
}

/// What follows the ASCII character `b` at the head of `input`; a failure
/// where `input` does not begin with it.
pub fn tag_byte(input: &str, b: u8) -> (r: Result<&str, ParseError>)
    requires
        b < 0x80,
    ensures
        match spec_tag_byte(input.spec_bytes(), b) {
            Ok(n) => r matches Ok(rest) && rest_of(input, rest, n),
            Err(f) => r matches Err(e) && failed(input, e, f),
        },
{
    let bytes = input.as_bytes();
    if bytes.len() > 0 && bytes[0] == b {
        Ok(cut(input, 1).1)
    } else {
        Err(ParseError { kind: ErrorKind::UnexpectedToken, offset: 0 })
    }
}

/// Whether `input` begins with the byte `b`.
pub fn begins_with_byte(input: &str, b: u8) -> (r: bool)
    ensures
        r == (input.spec_bytes().len() > 0 && input.spec_bytes()[0] == b),
{
    let bytes = input.as_bytes();
    bytes.len() > 0 && bytes[0] == b
}

/// A text that begins with another text, letters compared without regard to
/// case, can be cut behind it.
pub proof fn lemma_cut_behind_tag(s: Seq<u8>, tag: Seq<u8>)
    requires
        valid_utf8(s),
        valid_utf8(tag),
        starts_with_no_case(s, tag),
    ensures
        is_char_boundary(s, tag.len() as int),
    decreases tag.len(),
{
    if tag.len() > 0 {
        assert(lower(s[0]) == lower(tag[0]));
        let w = length_of_first_scalar(tag);
        assert(length_of_first_scalar(s) == w);
        let s1 = pop_first_scalar(s);
        let t1 = pop_first_scalar(tag);
        assert forall|i: int| 0 <= i < t1.len() implies lower(#[trigger] s1[i]) == lower(
            t1[i],
        ) by {
            assert(s1[i] == s[i + w]);
            assert(t1[i] == tag[i + w]);
        }
        lemma_cut_behind_tag(s1, t1);
    }
}

/// What `tag` and `tag_no_case` make of the bytes `s`, given whether `s`
/// begins with the literal.
pub open spec fn spec_tag(found: bool, len: nat) -> Result<nat, Failure> {
    if found {
        Ok(len)
    } else {
        Err(unexpected(0))
    }
}

/// The text `literal` at the head of `input`, its ASCII letters in any mix of
/// upper and lower case, and what follows it; a failure where `input` does
/// not begin with it.
pub fn tag_no_case<'a>(input: &'a str, literal: &str) -> (r: Result<(&'a str, &'a str), ParseError>)
    ensures
        match spec_tag(
            starts_with_no_case(input.spec_bytes(), literal.spec_bytes()),
            literal.spec_bytes().len(),
        ) {
            Ok(n) => r matches Ok((matched, rest)) && cut_at(input, matched, rest, n),
            Err(f) => r matches Err(e) && failed(input, e, f),
        },
{
    let bytes = input.as_bytes();
    let lit = literal.as_bytes();
    if lit.len() > bytes.len() {
        return Err(ParseError { kind: ErrorKind::UnexpectedToken, offset: 0 });
    }
    let mut i: usize = 0;
    while i < lit.len()
        invariant
            bytes@ == input.spec_bytes(),
            lit@ == literal.spec_bytes(),
            i <= lit@.len() <= bytes@.len(),
            forall|k: int| 0 <= k < i ==> lower(#[trigger] bytes@[k]) == lower(lit@[k]),
        decreases lit@.len() - i,
    {
        if to_lower(bytes[i]) != to_lower(lit[i]) {
            return Err(ParseError { kind: ErrorKind::UnexpectedToken, offset: 0 });
        }
        i += 1;
    }
    proof {
        encode_utf8_valid_utf8(input@);
        encode_utf8_valid_utf8(literal@);
        lemma_cut_behind_tag(bytes@, lit@);
    }
    let (matched, rest) = input.split_at(lit.len());
    Ok((matched, rest))
}

/// The text `literal` at the head of `input` and what follows it; a failure
/// where `input` does not begin with it.
pub fn tag<'a>(input: &'a str, literal: &str) -> (r: Result<(&'a str, &'a str), ParseError>)
    ensures
        match spec_tag(
            starts_with(input.spec_bytes(), literal.spec_bytes()),
            literal.spec_bytes().len(),
        ) {
            Ok(n) => r matches Ok((matched, rest)) && cut_at(input, matched, rest, n),
            Err(f) => r matches Err(e) && failed(input, e, f),
        },
{
    let bytes = input.as_bytes();
    let lit = literal.as_bytes();
    if lit.len() > bytes.len() {
        return Err(ParseError { kind: ErrorKind::UnexpectedToken, offset: 0 });
    }
    let mut i: usize = 0;
    while i < lit.len()
        invariant
            bytes@ == input.spec_bytes(),
            lit@ == literal.spec_bytes(),
            i <= lit@.len() <= bytes@.len(),
            forall|k: int| 0 <= k < i ==> #[trigger] bytes@[k] == lit@[k],
        decreases lit@.len() - i,
    {
        if bytes[i] != lit[i] {
            assert(bytes@.take(lit@.len() as int)[i as int] != lit@[i as int]);
            return Err(ParseError { kind: ErrorKind::UnexpectedToken, offset: 0 });
        }
        i += 1;
    }
    proof {
        assert(bytes@.take(lit@.len() as int) =~= lit@);
        encode_utf8_valid_utf8(input@);
        encode_utf8_valid_utf8(literal@);
        lemma_cut_behind_tag(bytes@, lit@);
    }
    let (matched, rest) = input.split_at(lit.len());
    Ok((matched, rest))
}

} // verus!
