//! Writing values out as their canonical text.

use crate::model::{
    pair_view, pairs_view, text_view, Authority, Host, Request, Uri,
};
use crate::render::{
    authority_text, decimal_text, fragment_text, header_text, headers_text, host_text, ipv4_text,
    line_end_text, pair_text, pairs_text, path_text, port_text, query_text, request_line_text,
    request_text, tail_text, uri_text,
};
use crate::text::{
    ascii, lemma_ascii_bytes, AMPERSAND, ASTERISK, AT_SIGN, COLON, DOT, EQUALS, HASH,
    QUESTION_MARK, SPACE, ZERO,
};
use vstd::prelude::*;
use vstd::string::*;
use vstd::utf8::*;

verus! {

/// The bytes of two texts put together are the bytes of the first and then
/// the bytes of the second.
pub proof fn lemma_encode_concat(a: Seq<char>, b: Seq<char>)
    ensures
        encode_utf8(a + b) == encode_utf8(a) + encode_utf8(b),
    decreases a.len(),
{
    if a.len() == 0 {
        assert(a + b =~= b);
        assert(encode_utf8(a) + encode_utf8(b) =~= encode_utf8(b));
    } else {
        assert((a + b).drop_first() =~= a.drop_first() + b);
        lemma_encode_concat(a.drop_first(), b);
        assert((a + b)[0] == a[0]);
        assert(encode_utf8(a + b) =~= encode_utf8(a) + encode_utf8(b));
    }
}

/// Writes `piece` at the end of `out`.
fn push_text(out: &mut String, piece: &str)
    ensures
        encode_utf8(final(out)@) == encode_utf8(old(out)@) + piece.spec_bytes(),
{
    proof {
        lemma_encode_concat(out@, piece@);
    }
    out.append(piece);
}

/// The text of one decimal digit.
fn digit_text(d: u8) -> (r: &'static str)
    requires
        d < 10,
    ensures
        r.spec_bytes() == seq![(ZERO + d) as u8],
{
    proof {
        reveal_strlit("0");
        reveal_strlit("1");
        reveal_strlit("2");
        reveal_strlit("3");
        reveal_strlit("4");
        reveal_strlit("5");
        reveal_strlit("6");
        reveal_strlit("7");
        reveal_strlit("8");
        reveal_strlit("9");
    }
    let text = if d == 0 {
        "0"
    } else if d == 1 {
        "1"
    } else if d == 2 {
        "2"
    } else if d == 3 {
        "3"
    } else if d == 4 {
        "4"
    } else if d == 5 {
        "5"
    } else if d == 6 {
        "6"
    } else if d == 7 {
        "7"
    } else if d == 8 {
        "8"
    } else {
        "9"
    };
    proof {
        lemma_ascii_bytes(text);
        assert(ascii(text@) =~= seq![(ZERO + d) as u8]);
    }
    text
}

/// Writes `v` in decimal, without leading zeros, at the end of `out`.
fn push_decimal(out: &mut String, v: u16)
    ensures
        encode_utf8(final(out)@) == encode_utf8(old(out)@) + decimal_text(v as nat),
    decreases v,
{
    proof {
        reveal(decimal_text);
    }
    if v >= 10 {
        push_decimal(out, v / 10);
    }
    let ghost before = encode_utf8(out@);
    push_text(out, digit_text((v % 10) as u8));
    proof {
        if v >= 10 {
            assert(before + seq![(ZERO + v % 10) as u8] =~= encode_utf8(old(out)@) + decimal_text(
                (v / 10) as nat,
            ).push((ZERO + v % 10) as u8));
        }
    }
}

/// Writes the ASCII character `b` at the end of `out`.
fn push_mark(out: &mut String, b: u8)
    requires
        b == SPACE || b == DOT || b == COLON || b == AT_SIGN || b == EQUALS || b == AMPERSAND || b
            == QUESTION_MARK || b == HASH || b == ASTERISK,
    ensures
        encode_utf8(final(out)@) == encode_utf8(old(out)@) + seq![b],
{
    proof {
        reveal_strlit(" ");
        reveal_strlit(".");
        reveal_strlit(":");
        reveal_strlit("@");
        reveal_strlit("=");
        reveal_strlit("&");
        reveal_strlit("?");
        reveal_strlit("#");
        reveal_strlit("*");
    }
    let text = if b == SPACE {
        " "
    } else if b == DOT {
        "."
    } else if b == COLON {
        ":"
    } else if b == AT_SIGN {
        "@"
    } else if b == EQUALS {
        "="
    } else if b == AMPERSAND {
        "&"
    } else if b == QUESTION_MARK {
        "?"
    } else if b == HASH {
        "#"
    } else {
        "*"
    };
    proof {
        lemma_ascii_bytes(text);
        assert(ascii(text@) =~= seq![b]);
    }
    push_text(out, text);
}

/// Writes the end of a line at the end of `out`.
fn push_line_end(out: &mut String)
    ensures
        encode_utf8(final(out)@) == encode_utf8(old(out)@) + line_end_text(),
{
    proof {
        reveal_strlit("\r\n");
        lemma_ascii_bytes("\r\n");
        assert(ascii("\r\n"@) =~= line_end_text());
    }
    push_text(out, "\r\n");
}

/// Writes the four octets of an address, with dots between them, at the
/// end of `out`.
fn push_ipv4(out: &mut String, octets: &[u8; 4])
    ensures
        encode_utf8(final(out)@) == encode_utf8(old(out)@) + ipv4_text(octets@),
{
    let ghost base = encode_utf8(out@);
    push_decimal(out, octets[0] as u16);
    push_mark(out, DOT);
    push_decimal(out, octets[1] as u16);
    push_mark(out, DOT);
    push_decimal(out, octets[2] as u16);
    push_mark(out, DOT);
    push_decimal(out, octets[3] as u16);
    proof {
        assert(encode_utf8(out@) =~= base + ipv4_text(octets@));
    }
}

/// The text of an IPv4 address: its four octets in decimal, without
/// leading zeros, with dots between them.
pub fn format_ipv4(octets: [u8; 4]) -> (r: String)
    ensures
        encode_utf8(r@) == ipv4_text(octets@),
{
    let mut out = String::new();
    proof {
        assert(encode_utf8(out@) =~= Seq::<u8>::empty());
    }
    push_ipv4(&mut out, &octets);
    proof {
        assert(Seq::<u8>::empty() + ipv4_text(octets@) =~= ipv4_text(octets@));
    }
    out
}

/// Writes the text of `host` at the end of `out`.
fn push_host(out: &mut String, host: &Host)
    ensures
        encode_utf8(final(out)@) == encode_utf8(old(out)@) + host_text(host@),
{
    match host {
        Host::Named(name) => push_text(out, name.as_str()),
        Host::IPv4(octets) => push_ipv4(out, octets),
        Host::Wildcard => push_mark(out, ASTERISK),
    }
}

/// Writes the credentials, if there are any, at the end of `out`.
fn push_authority(out: &mut String, authority: &Option<Authority>)
    ensures
        encode_utf8(final(out)@) == encode_utf8(old(out)@) + authority_text(
            match *authority {
                Some(a) => Some(a@),
                None => None,
            },
        ),
{
    let ghost base = encode_utf8(out@);
    match authority {
        Some(a) => {
            push_text(out, a.username.as_str());
            match &a.password {
                Some(password) => {
                    push_mark(out, COLON);
                    push_text(out, password.as_str());
                    push_mark(out, AT_SIGN);
                    proof {
                        assert(encode_utf8(out@) =~= base + authority_text(Some(a@)));
                    }
                },
                None => {
                    push_mark(out, AT_SIGN);
                    proof {
                        assert(encode_utf8(out@) =~= base + authority_text(Some(a@)));
                    }
                },
            }
        },
        None => {
            proof {
                assert(base + Seq::<u8>::empty() =~= base);
            }
        },
    }
}

/// Writes the port, if there is one, at the end of `out`.
fn push_port(out: &mut String, port: Option<u16>)
    ensures
        encode_utf8(final(out)@) == encode_utf8(old(out)@) + port_text(port),
{
    let ghost base = encode_utf8(out@);
    match port {
        Some(p) => {
            push_mark(out, COLON);
            if p < 10 {
                push_text(out, digit_text(0));
            }
            push_decimal(out, p);
            proof {
                assert(encode_utf8(out@) =~= base + port_text(port));
            }
        },
        None => {
            proof {
                assert(base + Seq::<u8>::empty() =~= base);
            }
        },
    }
}

/// Writes an optional text at the end of `out`, behind `mark` where one is
/// given.
fn push_optional(out: &mut String, mark: Option<u8>, text: &Option<String>)
    requires
        mark matches Some(b) ==> b == HASH,
    ensures
        encode_utf8(final(out)@) == encode_utf8(old(out)@) + (match (mark, text_view(*text)) {
            (Some(b), Some(t)) => seq![b] + t,
            (None, Some(t)) => t,
            (_, None) => Seq::empty(),
        }),
{
    let ghost base = encode_utf8(out@);
    match text {
        Some(t) => {
            if let Some(b) = mark {
                push_mark(out, b);
            }
            push_text(out, t.as_str());
            proof {
                if let Some(b) = mark {
                    assert((base + seq![b]) + encode_utf8(t@) =~= base + (seq![b] + encode_utf8(
                        t@,
                    )));
                }
            }
        },
        None => {
            proof {
                assert(base + Seq::<u8>::empty() =~= base);
            }
        },
    }
}

/// The text of pairs with one more pair behind them.
proof fn lemma_pairs_text_push(pairs: Seq<(Seq<u8>, Seq<u8>)>, pair: (Seq<u8>, Seq<u8>))
    ensures
        pairs_text(pairs.push(pair)) == (if pairs.len() == 0 {
            pair_text(pair)
        } else {
            pairs_text(pairs) + (seq![AMPERSAND] + pair_text(pair))
        }),
    decreases pairs.len(),
{
    let all = pairs.push(pair);
    if pairs.len() == 0 {
    } else {
        assert(all.drop_first() =~= pairs.drop_first().push(pair));
        assert(all[0] == pairs[0]);
        lemma_pairs_text_push(pairs.drop_first(), pair);
        if pairs.len() == 1 {
            assert(pairs.drop_first().len() == 0);
        } else {
            assert(pairs_text(all) =~= pairs_text(pairs) + (seq![AMPERSAND] + pair_text(pair)));
        }
    }
}

/// Writes the pairs of a query, with `&` between them, at the end of `out`.
fn push_pairs(out: &mut String, pairs: &Vec<(String, String)>)
    ensures
        encode_utf8(final(out)@) == encode_utf8(old(out)@) + pairs_text(pairs_view(pairs@)),
{
    let ghost base = encode_utf8(out@);
    let ghost view = pairs_view(pairs@);
    let mut i: usize = 0;
    proof {
        assert(view.take(0) =~= Seq::empty());
        assert(base + pairs_text(view.take(0)) =~= base);
    }
    while i < pairs.len()
        invariant
            i <= pairs.len(),
            view == pairs_view(pairs@),
            encode_utf8(out@) == base + pairs_text(view.take(i as int)),
        decreases pairs.len() - i,
    {
        let ghost before = encode_utf8(out@);
        if i > 0 {
            push_mark(out, AMPERSAND);
        }
        let pair = &pairs[i];
        push_text(out, pair.0.as_str());
        push_mark(out, EQUALS);
        push_text(out, pair.1.as_str());
        proof {
            let done = view.take(i as int);
            assert(view[i as int] == pair_view(*pair));
            assert(view.take(i + 1) =~= done.push(view[i as int]));
            lemma_pairs_text_push(done, view[i as int]);
            let text = pair_text(view[i as int]);
            if i > 0 {
                assert(encode_utf8(out@) =~= before + (seq![AMPERSAND] + text));
                assert(base + (pairs_text(done) + (seq![AMPERSAND] + text)) =~= before + (
                seq![AMPERSAND] + text));
            } else {
                assert(encode_utf8(out@) =~= before + text);
                assert(pairs_text(done) =~= Seq::<u8>::empty());
                assert(base + text =~= before + text);
            }
        }
        i += 1;
    }
    proof {
        assert(view.take(i as int) =~= view);
    }
}

/// Writes the query, if there is one, at the end of `out`.
fn push_query(out: &mut String, query: &Option<Vec<(String, String)>>)
    ensures
        encode_utf8(final(out)@) == encode_utf8(old(out)@) + query_text(
            match *query {
                Some(q) => Some(pairs_view(q@)),
                None => None,
            },
        ),
{
    let ghost base = encode_utf8(out@);
    match query {
        Some(pairs) => {
            push_mark(out, QUESTION_MARK);
            push_pairs(out, pairs);
            proof {
                let text = pairs_text(pairs_view(pairs@));
                assert((base + seq![QUESTION_MARK]) + text =~= base + (seq![QUESTION_MARK]
                    + text));
            }
        },
        None => {
            proof {
                assert(base + Seq::<u8>::empty() =~= base);
            }
        },
    }
}

/// Four texts written one behind the other.
proof fn lemma_written(base: Seq<u8>, a: Seq<u8>, b: Seq<u8>, c: Seq<u8>, d: Seq<u8>)
    ensures
        (((base + a) + b) + c) + d == base + (a + (b + (c + d))),
{
    assert((((base + a) + b) + c) + d =~= base + (a + (b + (c + d))));
}

/// Writes what stands behind the host of `uri` at the end of `out`.
fn push_tail(out: &mut String, uri: &Uri)
    ensures
        encode_utf8(final(out)@) == encode_utf8(old(out)@) + tail_text(uri@),
{
    let ghost base = encode_utf8(out@);
    push_port(out, uri.port);
    push_optional(out, None, &uri.path);
    push_query(out, &uri.query);
    push_optional(out, Some(HASH), &uri.fragment);
    proof {
        let view = uri@;
        lemma_written(
            base,
            port_text(view.port),
            path_text(view.path),
            query_text(view.query),
            fragment_text(view.fragment),
        );
    }
}

/// Writes the text of `uri` at the end of `out`.
fn push_uri(out: &mut String, uri: &Uri)
    ensures
        encode_utf8(final(out)@) == encode_utf8(old(out)@) + uri_text(uri@),
{
    let ghost base = encode_utf8(out@);
    match uri.scheme {
        Some(scheme) => {
            push_text(out, scheme.prefix_text());
            push_authority(out, &uri.authority);
            push_host(out, &uri.host);
            push_tail(out, uri);
            proof {
                let view = uri@;
                lemma_written(
                    base,
                    scheme.prefix(),
                    authority_text(view.authority),
                    host_text(view.host),
                    tail_text(view),
                );
            }
        },
        None => match &uri.path {
            Some(path) => {
                push_text(out, path.as_str());
                push_query(out, &uri.query);
                proof {
                    let view = uri@;
                    assert(encode_utf8(out@) =~= base + uri_text(view));
                }
            },
            None => {
                push_mark(out, ASTERISK);
            },
        },
    }
}

/// The text of header fields with one more field behind them.
proof fn lemma_headers_text_push(headers: Seq<(Seq<u8>, Seq<u8>)>, header: (Seq<u8>, Seq<u8>))
    ensures
        headers_text(headers.push(header)) == headers_text(headers) + header_text(header),
    decreases headers.len(),
{
    let all = headers.push(header);
    if headers.len() == 0 {
        assert(all.drop_first() =~= Seq::empty());
        assert(headers_text(all.drop_first()) =~= Seq::<u8>::empty());
        assert(headers_text(all) =~= header_text(header));
        assert(headers_text(headers) + header_text(header) =~= header_text(header));
    } else {
        assert(all.drop_first() =~= headers.drop_first().push(header));
        assert(all[0] == headers[0]);
        lemma_headers_text_push(headers.drop_first(), header);
        assert(headers_text(all) =~= headers_text(headers) + header_text(header));
    }
}

/// Writes the lines of the header fields at the end of `out`.
fn push_headers(out: &mut String, headers: &Vec<(String, String)>)
    ensures
        encode_utf8(final(out)@) == encode_utf8(old(out)@) + headers_text(pairs_view(headers@)),
{
    proof {
        reveal_strlit(": ");
        lemma_ascii_bytes(": ");
        assert(ascii(": "@) =~= seq![COLON, SPACE]);
    }
    let ghost base = encode_utf8(out@);
    let ghost view = pairs_view(headers@);
    let mut i: usize = 0;
    proof {
        assert(view.take(0) =~= Seq::empty());
        assert(base + headers_text(view.take(0)) =~= base);
    }
    while i < headers.len()
        invariant
            i <= headers.len(),
            view == pairs_view(headers@),
            ": ".spec_bytes() == seq![COLON, SPACE],
            encode_utf8(out@) == base + headers_text(view.take(i as int)),
        decreases headers.len() - i,
    {
        let ghost before = encode_utf8(out@);
        let header = &headers[i];
        push_text(out, header.0.as_str());
        push_text(out, ": ");
        push_text(out, header.1.as_str());
        push_line_end(out);
        proof {
            let done = view.take(i as int);
            assert(view[i as int] == pair_view(*header));
            assert(view.take(i + 1) =~= done.push(view[i as int]));
            lemma_headers_text_push(done, view[i as int]);
            let text = header_text(view[i as int]);
            assert(encode_utf8(out@) =~= before + text);
            assert(base + (headers_text(done) + text) =~= before + text);
        }
        i += 1;
    }
    proof {
        assert(view.take(i as int) =~= view);
    }
}

impl Host {
    /// The canonical text of the host: the name as it is, the address in
    /// decimal with dots, or `*`.
    pub fn to_text(&self) -> (r: String)
        ensures
            encode_utf8(r@) == host_text(self@),
    {
        let mut out = String::new();
        proof {
            assert(encode_utf8(out@) =~= Seq::<u8>::empty());
            assert(Seq::<u8>::empty() + host_text(self@) =~= host_text(self@));
        }
        push_host(&mut out, self);
        out
    }
}

impl Uri {
    /// The canonical text of the target.
    ///
    /// A target with a scheme is written as an absolute URI, whatever its
    /// path. A target without a scheme is written as its path and query, or
    /// as `*` where it has no path.
    pub fn to_text(&self) -> (r: String)
        ensures
            encode_utf8(r@) == uri_text(self@),
    {
        let mut out = String::new();
        proof {
            assert(encode_utf8(out@) =~= Seq::<u8>::empty());
            assert(Seq::<u8>::empty() + uri_text(self@) =~= uri_text(self@));
        }
        push_uri(&mut out, self);
        out
    }
}

impl Request {
    /// The canonical text of the head of the request: the request line, one
    /// line for each header field, and an empty line, each line ended by a
    /// carriage return and a line feed.
    pub fn to_text(&self) -> (r: String)
        ensures
            encode_utf8(r@) == request_text(self@),
    {
        let mut out = String::new();
        proof {
            assert(encode_utf8(out@) =~= Seq::<u8>::empty());
        }
        push_text(&mut out, self.method.name());
        push_mark(&mut out, SPACE);
        push_uri(&mut out, &self.uri);
        push_mark(&mut out, SPACE);
        push_text(&mut out, self.version.name());
        push_line_end(&mut out);
        push_headers(&mut out, &self.headers);
        push_line_end(&mut out);
        proof {
            let view = self@;
            let a = view.method.token();
            let b = seq![SPACE];
            let c = uri_text(view.uri);
            let d = view.version.token();
            let e = line_end_text();
            let f = headers_text(view.headers);
            assert(request_line_text(view.method, view.uri, view.version) == a + (b + (c + (b + (d
                + e)))));
            assert(encode_utf8(out@) == (((((((Seq::<u8>::empty() + a) + b) + c) + b) + d) + e)
                + f) + e);
            assert((((((((Seq::<u8>::empty() + a) + b) + c) + b) + d) + e) + f) + e =~= (a + (b
                + (c + (b + (d + e))))) + (f + e));
        }
        out
    }
}

} // verus!
