//! What every text that begins with the token of a method is read as, and
//! which texts are refused.

use crate::method::spec_method;
use crate::model::Method;
use crate::text::{lower, starts_with_no_case, unexpected};
use vstd::prelude::*;

verus! {

/// The tokens of the methods, revealed byte by byte.
proof fn lemma_tokens()
    ensures
        Method::GET.token() =~= seq![0x47u8, 0x45, 0x54],
        Method::HEAD.token() =~= seq![0x48u8, 0x45, 0x41, 0x44],
        Method::POST.token() =~= seq![0x50u8, 0x4f, 0x53, 0x54],
        Method::PUT.token() =~= seq![0x50u8, 0x55, 0x54],
        Method::DELETE.token() =~= seq![0x44u8, 0x45, 0x4c, 0x45, 0x54, 0x45],
        Method::CONNECT.token() =~= seq![0x43u8, 0x4f, 0x4e, 0x4e, 0x45, 0x43, 0x54],
        Method::OPTIONS.token() =~= seq![0x4fu8, 0x50, 0x54, 0x49, 0x4f, 0x4e, 0x53],
        Method::TRACE.token() =~= seq![0x54u8, 0x52, 0x41, 0x43, 0x45],
{
    reveal_strlit("GET");
    reveal_strlit("HEAD");
    reveal_strlit("POST");
    reveal_strlit("PUT");
    reveal_strlit("DELETE");
    reveal_strlit("CONNECT");
    reveal_strlit("OPTIONS");
    reveal_strlit("TRACE");
}

/// No text begins with the tokens of two methods.
pub proof fn lemma_one_method(s: Seq<u8>, first: Method, second: Method)
    requires
        starts_with_no_case(s, first.token()),
        starts_with_no_case(s, second.token()),
    ensures
        first == second,
{
    lemma_tokens();
    assert(lower(s[0]) == lower(first.token()[0]));
    assert(lower(s[0]) == lower(second.token()[0]));
    assert(lower(s[1]) == lower(first.token()[1]));
    assert(lower(s[1]) == lower(second.token()[1]));
}

/// A text that begins with the token of a method, in any mix of upper and
/// lower case, is read as that method, and what is left of the text is all
/// that follows the token.
pub proof fn lemma_method_found(s: Seq<u8>, method: Method)
    requires
        starts_with_no_case(s, method.token()),
    ensures
        spec_method(s) == Ok::<(Method, nat), crate::error::Failure>(
            (method, method.token().len()),
        ),
{
    reveal(spec_method);
    if starts_with_no_case(s, Method::GET.token()) {
        lemma_one_method(s, method, Method::GET);
    }
    if starts_with_no_case(s, Method::POST.token()) {
        lemma_one_method(s, method, Method::POST);
    }
    if starts_with_no_case(s, Method::PUT.token()) {
        lemma_one_method(s, method, Method::PUT);
    }
    if starts_with_no_case(s, Method::DELETE.token()) {
        lemma_one_method(s, method, Method::DELETE);
    }
    if starts_with_no_case(s, Method::CONNECT.token()) {
        lemma_one_method(s, method, Method::CONNECT);
    }
    if starts_with_no_case(s, Method::OPTIONS.token()) {
        lemma_one_method(s, method, Method::OPTIONS);
    }
    if starts_with_no_case(s, Method::TRACE.token()) {
        lemma_one_method(s, method, Method::TRACE);
    }
    if starts_with_no_case(s, Method::HEAD.token()) {
        lemma_one_method(s, method, Method::HEAD);
    }
}

/// A text that begins with the token of no method is refused as an
/// unexpected token at offset 0, and only such a text is refused.
pub proof fn lemma_method_refused(s: Seq<u8>)
    ensures
        spec_method(s) is Err <==> forall|method: Method|
            !starts_with_no_case(s, #[trigger] method.token()),
        spec_method(s) is Err ==> spec_method(s) == Err::<(Method, nat), crate::error::Failure>(
            unexpected(0),
        ),
{
    reveal(spec_method);
    if spec_method(s) is Err {
        assert forall|method: Method| !starts_with_no_case(s, #[trigger] method.token()) by {
            if starts_with_no_case(s, method.token()) {
                lemma_method_found(s, method);
            }
        }
    } else {
        let (method, _) = spec_method(s)->Ok_0;
        assert(starts_with_no_case(s, method.token()));
    }
}

} // verus!
