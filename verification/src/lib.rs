//! Parser for the head of an HTTP/1.x request.
//!
//! The head is the request line (method, target, protocol version), the
//! header fields, and the empty line behind them. [`parse_request`] reads it
//! from a text buffer into a [`Request`] and returns what follows it in the
//! buffer. Nothing is read from anywhere else and nothing is changed: every
//! function here is a pure function of its arguments.
//!
//! The grammar is a set of rules, each a function that takes the text that
//! is left, reads a value from its head, and returns the value together with
//! the text behind it, or fails with the kind of the failure and the byte
//! offset at which it was met. A rule that fails has taken nothing. The
//! rules for the parts are public, too: [`parse_method`], [`parse_uri`],
//! [`parse_host`], [`parse_ipv4`], [`parse_authority`], [`parse_header`],
//! [`parse_headers`] and the smaller ones in their modules.
//!
//! Every rule is verified against a mathematical description of what it
//! reads, a function on the UTF-8 bytes of the text (`spec_request` for
//! `parse_request`, and so on). On top of these descriptions, three modules
//! hold what is proved of the grammar as a whole:
//!
//! - `laws`: which texts are read as which method and which are refused;
//!   which texts are refused as a host; that the spaces around the colon of a
//!   header field do not matter;
//! - `valid`: which values the rules can yield, and how to test a value
//!   for it;
//! - `roundtrip`: that every value read is valid, that the canonical text
//!   of a valid value (module `render`, written by module `format`) is read
//!   back as that value, and so that reading the canonical text of a request
//!   that was read yields the same request again.

pub mod authority;
pub mod error;
pub mod format;
pub mod header;
pub mod host;
pub mod laws;
pub mod method;
pub mod model;
pub mod number;
pub mod render;
pub mod request;
pub mod roundtrip;
pub mod text;
pub mod uri;
pub mod valid;

pub use authority::parse_authority;
pub use error::{ErrorKind, ParseError};
pub use format::format_ipv4;
pub use header::{parse_header, parse_headers};
pub use host::{parse_host, parse_ipv4, parse_named_host, parse_wildcard};
pub use method::parse_method;
pub use model::{Authority, Header, Headers, Host, Method, Request, Scheme, Uri, Version};
pub use number::{parse_octet, parse_port};
pub use request::{parse_request, parse_request_line, parse_version};
pub use uri::{parse_scheme, parse_uri};
