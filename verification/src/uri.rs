//! The target of a request: the wildcard, a path in origin form, or an
//! absolute URI.

use crate::authority::{parse_authority, spec_authority};
use crate::error::{ErrorKind, Failure, ParseError};
use crate::host::{parse_host, parse_wildcard, spec_host, spec_wildcard};
use crate::model::{pair_view, pairs_view, text_view, Host, HostView, Scheme, Uri, UriView};
use crate::number::{parse_port, spec_port};
use crate::text::{
    ascii, begins_with_byte, byte_len, consumed, cut, failed, lemma_ascii_bytes,
    lemma_run_is_run, rest_of, span, starts_with_no_case, tag_byte, tag_no_case, take_while,
    unexpected, CharClass, AMPERSAND, ASTERISK, EQUALS, HASH, QUESTION_MARK, SLASH,
};
use vstd::prelude::*;
use vstd::string::*;

verus! {

broadcast use {vstd::seq_lib::group_seq_lib_default, vstd::seq_lib::lemma_seq_skip_of_skip};

impl Scheme {
    /// The name of the scheme, in lower case.
    pub open spec fn token(self) -> Seq<u8> {
        match self {
            Scheme::HTTP => ascii("http"@),
            Scheme::HTTPS => ascii("https"@),
        }
    }

    /// What an absolute URI of this scheme begins with: the name of the
    /// scheme and `://`.
    pub open spec fn prefix(self) -> Seq<u8> {
        self.token() + ascii("://"@)
    }

    /// The name of the scheme, in lower case.
    pub fn name(self) -> (r: &'static str)
        ensures
            r.spec_bytes() == self.token(),
    {
        proof {
            reveal_strlit("http");
            reveal_strlit("https");
        }
        let name = match self {
            Scheme::HTTP => "http",
            Scheme::HTTPS => "https",
        };
        proof {
            lemma_ascii_bytes(name);
        }
        name
    }

    /// The name of the scheme and `://`, in lower case.
    pub fn prefix_text(self) -> (r: &'static str)
        ensures
            r.spec_bytes() == self.prefix(),
    {
        proof {
            reveal_strlit("http");
            reveal_strlit("https");
            reveal_strlit("://");
            reveal_strlit("http://");
            reveal_strlit("https://");
        }
        let text = match self {
            Scheme::HTTP => "http://",
            Scheme::HTTPS => "https://",
        };
        proof {
            lemma_ascii_bytes(text);
            assert(ascii(text@) =~= self.prefix());
        }
        text
    }

    /// The scheme that `name` names, in any mix of upper and lower case.
    /// A text that is not, as a whole, the name of a scheme is an unexpected
    /// token.
    pub fn from_name(name: &str) -> (r: Result<Scheme, ErrorKind>)
        ensures
            r == (if same_no_case(name.spec_bytes(), Scheme::HTTP.token()) {
                Ok::<Scheme, ErrorKind>(Scheme::HTTP)
            } else if same_no_case(name.spec_bytes(), Scheme::HTTPS.token()) {
                Ok::<Scheme, ErrorKind>(Scheme::HTTPS)
            } else {
                Err::<Scheme, ErrorKind>(ErrorKind::UnexpectedToken)
            }),
    {
        if is_named(name, Scheme::HTTP) {
            Ok(Scheme::HTTP)
        } else if is_named(name, Scheme::HTTPS) {
            Ok(Scheme::HTTPS)
        } else {
            Err(ErrorKind::UnexpectedToken)
        }
    }
}

/// Whether `s` is `text`, letters compared without regard to case.
pub open spec fn same_no_case(s: Seq<u8>, text: Seq<u8>) -> bool {
    s.len() == text.len() && starts_with_no_case(s, text)
}

/// Whether `name` is the name of `scheme`, in any mix of upper and lower
/// case.
fn is_named(name: &str, scheme: Scheme) -> (r: bool)
    ensures
        r == same_no_case(name.spec_bytes(), scheme.token()),
{
    match tag_no_case(name, scheme.name()) {
        Ok((_, rest)) => byte_len(rest) == 0,
        Err(_) => false,
    }
}

/// What `parse_scheme` makes of the bytes `s`.
#[verifier::opaque]
pub open spec fn spec_scheme(s: Seq<u8>) -> Result<(Scheme, nat), Failure> {
    if starts_with_no_case(s, Scheme::HTTP.prefix()) {
        Ok((Scheme::HTTP, Scheme::HTTP.prefix().len()))
    } else if starts_with_no_case(s, Scheme::HTTPS.prefix()) {
        Ok((Scheme::HTTPS, Scheme::HTTPS.prefix().len()))
    } else {
        Err(unexpected(0))
    }
}

/// The scheme that an absolute URI begins with: `http://` or `https://`,
/// in any mix of upper and lower case. Anything else is an unexpected token
/// at offset 0.
pub fn parse_scheme(input: &str) -> (r: Result<(Scheme, &str), ParseError>)
    ensures
        match spec_scheme(input.spec_bytes()) {
            Ok((expected, n)) => r matches Ok((scheme, rest)) && scheme == expected && rest_of(
                input,
                rest,
                n,
            ),
            Err(f) => r matches Err(e) && failed(input, e, f),
        },
{
    proof {
        reveal(spec_scheme);
    }
    match tag_no_case(input, Scheme::HTTP.prefix_text()) {
        Ok((_, rest)) => Ok((Scheme::HTTP, rest)),
        Err(_) => match tag_no_case(input, Scheme::HTTPS.prefix_text()) {
            Ok((_, rest)) => Ok((Scheme::HTTPS, rest)),
            Err(e) => Err(e),
        },
    }
}

/// What `optional_port` makes of the bytes `s`.
#[verifier::opaque]
pub open spec fn spec_optional_port(s: Seq<u8>) -> (Option<u16>, nat) {
    match spec_port(s) {
        Ok((port, n)) => (Some(port), n),
        Err(_) => (None, 0),
    }
}

/// The port at the head of `input`, if `input` begins with one; else
/// nothing is taken.
pub fn optional_port(input: &str) -> (r: (Option<u16>, &str))
    ensures
        r.0 == spec_optional_port(input.spec_bytes()).0,
        rest_of(input, r.1, spec_optional_port(input.spec_bytes()).1),
{
    proof {
        reveal(spec_optional_port);
        assert(input.spec_bytes().skip(0) =~= input.spec_bytes());
    }
    match parse_port(input) {
        Ok((port, rest)) => (Some(port), rest),
        Err(_) => (None, input),
    }
}

/// What `parse_path` makes of the bytes `s`: where `s` begins with a slash,
/// the path, which runs up to the first `?`, `#`, space or control byte.
#[verifier::opaque]
pub open spec fn spec_path(s: Seq<u8>) -> (Option<Seq<u8>>, nat) {
    if s.len() > 0 && s[0] == SLASH {
        let n = span(s, CharClass::Path);
        (Some(s.take(n as int)), n)
    } else {
        (None, 0)
    }
}

/// The path at the head of `input`, with its leading slash, if `input`
/// begins with one; else nothing is taken.
pub fn parse_path(input: &str) -> (r: (Option<String>, &str))
    ensures
        text_view(r.0) == spec_path(input.spec_bytes()).0,
        rest_of(input, r.1, spec_path(input.spec_bytes()).1),
{
    proof {
        reveal(spec_path);
    }
    if begins_with_byte(input, SLASH) {
        let (path, rest) = take_while(input, CharClass::Path);
        (Some(path.to_owned()), rest)
    } else {
        proof {
            assert(input.spec_bytes().skip(0) =~= input.spec_bytes());
        }
        (None, input)
    }
}

/// What `parse_pair` makes of the bytes `s`: a key, and the value behind
/// the `=` that follows the key, if one follows.
#[verifier::opaque]
pub open spec fn spec_pair(s: Seq<u8>) -> ((Seq<u8>, Seq<u8>), nat) {
    let key = span(s, CharClass::Key);
    if key < s.len() && s[key as int] == EQUALS {
        let value = span(s.skip(key + 1 as int), CharClass::Value);
        (
            (s.take(key as int), s.subrange(key + 1 as int, (key + 1 + value) as int)),
            key + 1 + value,
        )
    } else {
        ((s.take(key as int), Seq::empty()), key)
    }
}

/// One pair of a query: a key, and a value where `=` follows the key. A
/// key without `=` has the empty value. Key and value may both be empty.
pub fn parse_pair(input: &str) -> (r: ((String, String), &str))
    ensures
        pair_view(r.0) == spec_pair(input.spec_bytes()).0,
        rest_of(input, r.1, spec_pair(input.spec_bytes()).1),
{
    proof {
        reveal(spec_pair);
    }
    let ghost s = input.spec_bytes();
    let (key, after_key) = take_while(input, CharClass::Key);
    proof {
        lemma_run_is_run(s, CharClass::Key, s.len());
        let k = span(s, CharClass::Key);
        if k < s.len() {
            assert(after_key.spec_bytes()[0] == s[k as int]);
        }
    }
    match tag_byte(after_key, EQUALS) {
        Ok(at_value) => {
            let (value, rest) = take_while(at_value, CharClass::Value);
            proof {
                let k = span(s, CharClass::Key);
                let v = span(at_value.spec_bytes(), CharClass::Value);
                lemma_run_is_run(
                    at_value.spec_bytes(),
                    CharClass::Value,
                    at_value.spec_bytes().len(),
                );
                assert(value.spec_bytes() =~= s.subrange(k + 1 as int, (k + 1 + v) as int));
            }
            ((key.to_owned(), value.to_owned()), rest)
        },
        Err(_) => {
            let (value, rest) = cut(after_key, 0);
            proof {
                assert(value.spec_bytes() =~= Seq::<u8>::empty());
                assert(after_key.spec_bytes().skip(0) =~= after_key.spec_bytes());
            }
            ((key.to_owned(), value.to_owned()), rest)
        },
    }
}

/// What `parse_pairs` makes of the bytes `s`: one pair, and one more behind
/// every `&` that follows a pair.
#[verifier::opaque]
pub open spec fn spec_pairs(s: Seq<u8>) -> (Seq<(Seq<u8>, Seq<u8>)>, nat)
    decreases s.len(),
{
    let (pair, n) = spec_pair(s);
    if n < s.len() && s[n as int] == AMPERSAND {
        let (more, m) = spec_pairs(s.skip(n + 1 as int));
        (seq![pair] + more, n + 1 + m)
    } else {
        (seq![pair], n)
    }
}

/// A pair takes no more bytes than there are.
pub proof fn lemma_pair_length(s: Seq<u8>)
    ensures
        spec_pair(s).1 <= s.len(),
{
    reveal(spec_pair);
    lemma_run_is_run(s, CharClass::Key, s.len());
    let key = span(s, CharClass::Key);
    if key < s.len() {
        let t = s.skip(key + 1 as int);
        lemma_run_is_run(t, CharClass::Value, t.len());
    }
}

/// The pairs of `s` are its first pair and, where `&` follows it, the pairs
/// of what follows the `&`.
pub proof fn lemma_pairs_unfold(s: Seq<u8>)
    ensures
        spec_pair(s).1 <= s.len(),
        spec_pairs(s) == ({
            let (pair, n) = spec_pair(s);
            if n < s.len() && s[n as int] == AMPERSAND {
                (
                    seq![pair] + spec_pairs(s.skip(n + 1 as int)).0,
                    n + 1 + spec_pairs(s.skip(n + 1 as int)).1,
                )
            } else {
                (seq![pair], n)
            }
        }),
{
    reveal(spec_pairs);
    lemma_pair_length(s);
}

/// The pairs of a query: at least one, with `&` between them.
pub fn parse_pairs(input: &str) -> (r: (Vec<(String, String)>, &str))
    ensures
        pairs_view(r.0@) == spec_pairs(input.spec_bytes()).0,
        rest_of(input, r.1, spec_pairs(input.spec_bytes()).1),
{
    let ghost s = input.spec_bytes();
    let mut pairs: Vec<(String, String)> = Vec::new();
    let mut at = input;
    let mut more = true;
    proof {
        assert(s.skip(0) =~= s);
        assert(pairs_view(pairs@) =~= Seq::empty());
    }
    while more
        invariant
            s == input.spec_bytes(),
            rest_of(input, at, (s.len() - at.spec_bytes().len()) as nat),
            more ==> spec_pairs(s) == (
                pairs_view(pairs@) + spec_pairs(at.spec_bytes()).0,
                (s.len() - at.spec_bytes().len() + spec_pairs(at.spec_bytes()).1) as nat,
            ),
            !more ==> spec_pairs(s) == (
                pairs_view(pairs@),
                (s.len() - at.spec_bytes().len()) as nat,
            ),
        decreases at.spec_bytes().len() + (if more { 1int } else { 0int }),
    {
        proof {
            lemma_pairs_unfold(at.spec_bytes());
        }
        let ghost before = at.spec_bytes();
        let ghost old_view = pairs_view(pairs@);
        let (pair, after_pair) = parse_pair(at);
        let ghost view = pair_view(pair);
        proof {
            assert(pairs_view(pairs@.push(pair)) =~= old_view + seq![view]);
            let n = spec_pair(before).1;
            if n < before.len() {
                assert(after_pair.spec_bytes()[0] == before[n as int]);
            }
        }
        pairs.push(pair);
        match tag_byte(after_pair, AMPERSAND) {
            Ok(next) => {
                proof {
                    let tail = spec_pairs(next.spec_bytes()).0;
                    assert(old_view + (seq![view] + tail) =~= pairs_view(pairs@) + tail);
                }
                at = next;
            },
            Err(_) => {
                at = after_pair;
                more = false;
            },
        }
    }
    (pairs, at)
}

/// What `parse_query` makes of the bytes `s`: where `s` begins with `?`,
/// the pairs behind it, which are none where no byte of a query follows.
#[verifier::opaque]
pub open spec fn spec_query(s: Seq<u8>) -> (Option<Seq<(Seq<u8>, Seq<u8>)>>, nat) {
    if s.len() > 0 && s[0] == QUESTION_MARK {
        if s.len() > 1 && CharClass::Query.has(s[1]) {
            let (pairs, n) = spec_pairs(s.skip(1));
            (Some(pairs), 1 + n)
        } else {
            (Some(Seq::empty()), 1)
        }
    } else {
        (None, 0)
    }
}

/// The query at the head of `input`, if `input` begins with `?`; else
/// nothing is taken. The query runs up to the first `#`, space or control
/// byte; its pairs keep their order.
pub fn parse_query(input: &str) -> (r: (Option<Vec<(String, String)>>, &str))
    ensures
        match spec_query(input.spec_bytes()).0 {
            Some(pairs) => r.0 matches Some(found) && pairs_view(found@) == pairs,
            None => r.0 is None,
        },
        rest_of(input, r.1, spec_query(input.spec_bytes()).1),
{
    proof {
        reveal(spec_query);
    }
    match tag_byte(input, QUESTION_MARK) {
        Ok(after) => {
            let bytes = after.as_bytes();
            proof {
                if after.spec_bytes().len() > 0 {
                    assert(after.spec_bytes()[0] == input.spec_bytes()[1]);
                }
            }
            if bytes.len() > 0 && CharClass::Query.contains(bytes[0]) {
                let (pairs, rest) = parse_pairs(after);
                (Some(pairs), rest)
            } else {
                let pairs: Vec<(String, String)> = Vec::new();
                proof {
                    assert(pairs_view(pairs@) =~= Seq::empty());
                }
                (Some(pairs), after)
            }
        },
        Err(_) => {
            proof {
                assert(input.spec_bytes().skip(0) =~= input.spec_bytes());
            }
            (None, input)
        },
    }
}

/// What `parse_fragment` makes of the bytes `s`: where `s` begins with
/// `#`, the fragment behind it, which runs up to the first space or control
/// byte.
#[verifier::opaque]
pub open spec fn spec_fragment(s: Seq<u8>) -> (Option<Seq<u8>>, nat) {
    if s.len() > 0 && s[0] == HASH {
        let n = span(s.skip(1), CharClass::Fragment);
        (Some(s.subrange(1, 1 + n as int)), 1 + n)
    } else {
        (None, 0)
    }
}

/// The fragment at the head of `input`, without its `#`, if `input` begins
/// with `#`; else nothing is taken.
pub fn parse_fragment(input: &str) -> (r: (Option<String>, &str))
    ensures
        text_view(r.0) == spec_fragment(input.spec_bytes()).0,
        rest_of(input, r.1, spec_fragment(input.spec_bytes()).1),
{
    proof {
        reveal(spec_fragment);
    }
    match tag_byte(input, HASH) {
        Ok(after) => {
            let (fragment, rest) = take_while(after, CharClass::Fragment);
            proof {
                let s = input.spec_bytes();
                let n = span(s.skip(1), CharClass::Fragment);
                lemma_run_is_run(s.skip(1), CharClass::Fragment, s.skip(1).len());
                assert(fragment.spec_bytes() =~= s.subrange(1, 1 + n as int));
            }
            (Some(fragment.to_owned()), rest)
        },
        Err(_) => {
            proof {
                assert(input.spec_bytes().skip(0) =~= input.spec_bytes());
            }
            (None, input)
        },
    }
}

/// The target `*`.
pub open spec fn wildcard_target() -> UriView {
    UriView {
        scheme: None,
        authority: None,
        host: HostView::Wildcard,
        port: None,
        path: None,
        query: None,
        fragment: None,
    }
}

/// What `parse_uri` makes of bytes `s` that begin with a slash: a path and,
/// where one follows, a query.
#[verifier::opaque]
pub open spec fn spec_origin(s: Seq<u8>) -> (UriView, nat) {
    let (path, n1) = spec_path(s);
    let (query, n2) = spec_query(s.skip(n1 as int));
    (
        UriView {
            scheme: None,
            authority: None,
            host: HostView::Wildcard,
            port: None,
            path,
            query,
            fragment: None,
        },
        n1 + n2,
    )
}

/// What stands behind the host of an absolute URI.
pub struct TailView {
    pub port: Option<u16>,
    pub path: Option<Seq<u8>>,
    pub query: Option<Seq<(Seq<u8>, Seq<u8>)>>,
    pub fragment: Option<Seq<u8>>,
}

/// What `parse_tail` makes of the bytes `s`: a port, a path, a query and a
/// fragment, in this order, each taken where it is found and absent where
/// it is not.
#[verifier::opaque]
pub open spec fn spec_tail(s: Seq<u8>) -> (TailView, nat) {
    let (port, n0) = spec_optional_port(s);
    let (path, n1) = spec_path(s.skip(n0 as int));
    let at_query = n0 + n1;
    let (query, n2) = spec_query(s.skip(at_query as int));
    let at_fragment = at_query + n2;
    let (fragment, n3) = spec_fragment(s.skip(at_fragment as int));
    (TailView { port, path, query, fragment }, at_fragment + n3)
}

/// What `parse_uri` makes of bytes `s` that begin with neither `*` nor a
/// slash: an absolute URI.
///
/// A scheme and a host there must be. Credentials before the host, and a
/// port, a path, a query and a fragment behind it, are each taken where
/// they are found and are absent where they are not.
#[verifier::opaque]
pub open spec fn spec_absolute(s: Seq<u8>) -> Result<(UriView, nat), Failure> {
    match spec_scheme(s) {
        Err(f) => Err(f),
        Ok((scheme, n0)) => {
            let (authority, n1) = spec_authority(s.skip(n0 as int));
            let at_host = n0 + n1;
            match spec_host(s.skip(at_host as int)) {
                Err(f) => Err(f.shift(at_host)),
                Ok((host, n2)) => {
                    let at_tail = at_host + n2;
                    let (tail, n3) = spec_tail(s.skip(at_tail as int));
                    Ok(
                        (
                            UriView {
                                scheme: Some(scheme),
                                authority,
                                host,
                                port: tail.port,
                                path: tail.path,
                                query: tail.query,
                                fragment: tail.fragment,
                            },
                            at_tail + n3,
                        ),
                    )
                },
            }
        },
    }
}

/// What `parse_uri` makes of the bytes `s`. The first byte decides the
/// form of the target: `*` is the wildcard, a slash begins the origin form,
/// and anything else must begin an absolute URI.
#[verifier::opaque]
pub open spec fn spec_uri(s: Seq<u8>) -> Result<(UriView, nat), Failure> {
    if s.len() > 0 && s[0] == ASTERISK {
        Ok((wildcard_target(), 1))
    } else if s.len() > 0 && s[0] == SLASH {
        Ok(spec_origin(s))
    } else {
        spec_absolute(s)
    }
}

/// A target in origin form: a path and, where one follows, a query.
fn parse_origin(input: &str) -> (r: (Uri, &str))
    requires
        input.spec_bytes().len() > 0,
        input.spec_bytes()[0] == SLASH,
    ensures
        r.0@ == spec_origin(input.spec_bytes()).0,
        rest_of(input, r.1, spec_origin(input.spec_bytes()).1),
{
    proof {
        reveal(spec_origin);
    }
    let (path, at_query) = parse_path(input);
    let (query, rest) = parse_query(at_query);
    (
        Uri {
            scheme: None,
            authority: None,
            host: Host::Wildcard,
            port: None,
            path,
            query,
            fragment: None,
        },
        rest,
    )
}

/// What stands behind the host of an absolute URI.
#[derive(Debug, Clone, PartialEq, Eq, Hash)]
pub struct Tail {
    pub port: Option<u16>,
    pub path: Option<String>,
    pub query: Option<Vec<(String, String)>>,
    pub fragment: Option<String>,
}

impl View for Tail {
    type V = TailView;

    open spec fn view(&self) -> TailView {
        TailView {
            port: self.port,
            path: text_view(self.path),
            query: match self.query {
                Some(q) => Some(pairs_view(q@)),
                None => None,
            },
            fragment: text_view(self.fragment),
        }
    }
}

/// The port, the path, the query and the fragment at the head of `input`,
/// as far as they are there.
pub fn parse_tail(input: &str) -> (r: (Tail, &str))
    ensures
        r.0@ == spec_tail(input.spec_bytes()).0,
        rest_of(input, r.1, spec_tail(input.spec_bytes()).1),
{
    proof {
        reveal(spec_tail);
    }
    let (port, at_path) = optional_port(input);
    let (path, at_query) = parse_path(at_path);
    let (query, at_fragment) = parse_query(at_query);
    let (fragment, rest) = parse_fragment(at_fragment);
    (Tail { port, path, query, fragment }, rest)
}

/// An absolute URI.
fn parse_absolute(input: &str) -> (r: Result<(Uri, &str), ParseError>)
    ensures
        match spec_absolute(input.spec_bytes()) {
            Ok((expected, n)) => r matches Ok((uri, rest)) && uri@ == expected && rest_of(
                input,
                rest,
                n,
            ),
            Err(f) => r matches Err(e) && failed(input, e, f),
        },
{
    proof {
        reveal(spec_absolute);
    }
    let (scheme, at_authority) = match parse_scheme(input) {
        Ok(found) => found,
        Err(e) => {
            return Err(e);
        },
    };
    let (authority, at_host) = match parse_authority(at_authority) {
        Ok(found) => found,
        Err(e) => {
            return Err(e);
        },
    };
    let (host, at_tail) = match parse_host(at_host) {
        Ok(found) => found,
        Err(e) => {
            return Err(e.shift(consumed(input, at_host)));
        },
    };
    let (tail, rest) = parse_tail(at_tail);
    Ok(
        (
            Uri {
                scheme: Some(scheme),
                authority,
                host,
                port: tail.port,
                path: tail.path,
                query: tail.query,
                fragment: tail.fragment,
            },
            rest,
        ),
    )
}

/// The target of a request.
///
/// `*` is the wildcard target. A target that begins with a slash is in
/// origin form: a path and possibly a query. Any other target must be an
/// absolute URI, `scheme://[user[:password]@]host[:port][/path][?query][#fragment]`;
/// a missing scheme is an unexpected token at offset 0, and a missing host is
/// the failure of the host, at the offset where the host should begin.
pub fn parse_uri(input: &str) -> (r: Result<(Uri, &str), ParseError>)
    ensures
        match spec_uri(input.spec_bytes()) {
            Ok((expected, n)) => r matches Ok((uri, rest)) && uri@ == expected && rest_of(
                input,
                rest,
                n,
            ),
            Err(f) => r matches Err(e) && failed(input, e, f),
        },
{
    proof {
        reveal(spec_uri);
        reveal(spec_wildcard);
    }
    if begins_with_byte(input, ASTERISK) {
        match parse_wildcard(input) {
            Ok((host, rest)) => Ok(
                (
                    Uri {
                        scheme: None,
                        authority: None,
                        host,
                        port: None,
                        path: None,
                        query: None,
                        fragment: None,
                    },
                    rest,
                ),
            ),
            Err(e) => Err(e),
        }
    } else if begins_with_byte(input, SLASH) {
        Ok(parse_origin(input))
    } else {
        parse_absolute(input)
    }
}

} // verus!
