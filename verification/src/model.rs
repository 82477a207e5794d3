//! The values that a successful parse yields, and what each of them stands
//! for mathematically. Text is modelled by its UTF-8 bytes.

use vstd::prelude::*;
use vstd::utf8::encode_utf8;

verus! {

/// A request method.
#[allow(clippy::upper_case_acronyms)]
#[derive(Debug, Clone, Copy, PartialEq, Eq, Hash, Structural)]
pub enum Method {
    GET,
    HEAD,
    POST,
    PUT,
    DELETE,
    CONNECT,
    OPTIONS,
    TRACE,
}

/// The scheme of an absolute URI.
#[allow(clippy::upper_case_acronyms)]
#[derive(Debug, Clone, Copy, PartialEq, Eq, Hash, Structural)]
pub enum Scheme {
    HTTP,
    HTTPS,
}

/// The protocol version named at the end of the request line.
#[derive(Debug, Clone, Copy, PartialEq, Eq, Hash, Structural)]
pub enum Version {
    /// `HTTP/1.0`
    Http10,
    /// `HTTP/1.1`
    Http11,
}

/// The host that a request is aimed at.
#[derive(Debug, Clone, PartialEq, Eq, Hash)]
pub enum Host {
    /// A host name: labels of letters, digits and hyphens, joined by dots.
    Named(String),
    /// An IPv4 address, its four octets in the order they are written.
    IPv4([u8; 4]),
    /// `*`: no host in particular.
    Wildcard,
}

/// What a [`Host`] stands for.
pub enum HostView {
    Named(Seq<u8>),
    IPv4(Seq<u8>),
    Wildcard,
}

impl View for Host {
    type V = HostView;

    open spec fn view(&self) -> HostView {
        match *self {
            Host::Named(name) => HostView::Named(encode_utf8(name@)),
            Host::IPv4(octets) => HostView::IPv4(octets@),
            Host::Wildcard => HostView::Wildcard,
        }
    }
}

/// The credentials that stand before the host of an absolute URI.
#[derive(Debug, Clone, PartialEq, Eq, Hash)]
pub struct Authority {
    pub username: String,
    pub password: Option<String>,
}

/// What an [`Authority`] stands for.
pub struct AuthorityView {
    pub username: Seq<u8>,
    pub password: Option<Seq<u8>>,
}

impl View for Authority {
    type V = AuthorityView;

    open spec fn view(&self) -> AuthorityView {
        AuthorityView {
            username: encode_utf8(self.username@),
            password: match self.password {
                Some(p) => Some(encode_utf8(p@)),
                None => None,
            },
        }
    }
}

/// A header field: its name and its value.
pub type Header = (String, String);

/// The header fields of a request, in the order in which they were written.
pub type Headers = Vec<Header>;

/// What a pair of texts, such as a [`Header`], stands for.
pub open spec fn pair_view(pair: (String, String)) -> (Seq<u8>, Seq<u8>) {
    (encode_utf8(pair.0@), encode_utf8(pair.1@))
}

/// What a list of pairs of texts stands for.
pub open spec fn pairs_view(pairs: Seq<(String, String)>) -> Seq<(Seq<u8>, Seq<u8>)> {
    pairs.map_values(|pair: (String, String)| pair_view(pair))
}

/// What an optional text stands for.
pub open spec fn text_view(text: Option<String>) -> Option<Seq<u8>> {
    match text {
        Some(t) => Some(encode_utf8(t@)),
        None => None,
    }
}

/// The target of a request.
///
/// A target in absolute form has a scheme and names its host. The wildcard
/// target `*` and a target in origin form (a path, with or without a query)
/// have no scheme and name no host in particular: their host is
/// [`Host::Wildcard`], and the origin form is the one with a path.
#[derive(Debug, Clone, PartialEq, Eq, Hash)]
pub struct Uri {
    pub scheme: Option<Scheme>,
    pub authority: Option<Authority>,
    pub host: Host,
    pub port: Option<u16>,
    pub path: Option<String>,
    pub query: Option<Vec<(String, String)>>,
    pub fragment: Option<String>,
}

/// What a [`Uri`] stands for.
pub struct UriView {
    pub scheme: Option<Scheme>,
    pub authority: Option<AuthorityView>,
    pub host: HostView,
    pub port: Option<u16>,
    pub path: Option<Seq<u8>>,
    pub query: Option<Seq<(Seq<u8>, Seq<u8>)>>,
    pub fragment: Option<Seq<u8>>,
}

impl View for Uri {
    type V = UriView;

    open spec fn view(&self) -> UriView {
        UriView {
            scheme: self.scheme,
            authority: match self.authority {
                Some(a) => Some(a@),
                None => None,
            },
            host: self.host@,
            port: self.port,
            path: text_view(self.path),
            query: match self.query {
                Some(q) => Some(pairs_view(q@)),
                None => None,
            },
            fragment: text_view(self.fragment),
        }
    }
}

/// The head of a request: the request line and the header fields.
#[derive(Debug, Clone, PartialEq, Eq, Hash)]
pub struct Request {
    pub method: Method,
    pub uri: Uri,
    pub version: Version,
    pub headers: Headers,
}

/// What a [`Request`] stands for.
pub struct RequestView {
    pub method: Method,
    pub uri: UriView,
    pub version: Version,
    pub headers: Seq<(Seq<u8>, Seq<u8>)>,
}

impl View for Request {
    type V = RequestView;

    open spec fn view(&self) -> RequestView {
        RequestView {
            method: self.method,
            uri: self.uri@,
            version: self.version,
            headers: pairs_view(self.headers@),
        }
    }
}

} // verus!
