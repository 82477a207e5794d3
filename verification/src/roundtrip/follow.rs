//! What can stand behind each part of a target in a request line.

use crate::text::{COLON, HASH, QUESTION_MARK, SLASH, SPACE};
use vstd::prelude::*;

verus! {

/// Behind the target stands a space.
pub open spec fn after_fragment(x: Seq<u8>) -> bool {
    x.len() > 0 && x[0] == SPACE
}

/// Behind the query stands a fragment or what stands behind that.
pub open spec fn after_query(x: Seq<u8>) -> bool {
    x.len() > 0 && (x[0] == SPACE || x[0] == HASH)
}

/// Behind the path stands a query or what stands behind that.
pub open spec fn after_path(x: Seq<u8>) -> bool {
    x.len() > 0 && (x[0] == SPACE || x[0] == HASH || x[0] == QUESTION_MARK)
}

/// Behind the port stands a path or what stands behind that.
pub open spec fn after_port(x: Seq<u8>) -> bool {
    x.len() > 0 && (x[0] == SPACE || x[0] == HASH || x[0] == QUESTION_MARK || x[0] == SLASH)
}

/// Behind the host stands a port or what stands behind that.
pub open spec fn after_host(x: Seq<u8>) -> bool {
    x.len() > 0 && (x[0] == SPACE || x[0] == HASH || x[0] == QUESTION_MARK || x[0] == SLASH
        || x[0] == COLON)
}

} // verus!
