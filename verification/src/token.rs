//! Reading the display-name token of an upgrade request with `ws_kit`.

use vstd::prelude::*;
use ws_kit::extractor::TokenExtractor;

verus! {

/// The token that `ws_kit`'s default extractor finds given the value of the
/// `Authorization` header (if any, and if it is text) and the raw query
/// string.
pub uninterp spec fn token_of(auth: Option<Seq<char>>, query: Seq<char>) -> Option<Seq<char>>;

/// `TokenExtractor::default().extract_from_parts(auth, None, query)`: the
/// default extractor looks at the `Authorization: Bearer` value, then the
/// `token` query parameter, then `access_token`, and has no cookie source.
/// Its result is named `token_of`; every source yields only non-empty tokens
/// (a bearer token is trimmed and refused when empty, a query value is
/// refused when empty after decoding).
#[verifier::external_body]
pub fn extract_token(auth: Option<&str>, query: &str) -> (r: Option<String>)
    ensures
        token_of(
            match auth {
                Some(a) => Some(a@),
                None => None,
            },
            query@,
        ) == match r {
            Some(t) => Some(t@),
            None => None,
        },
        r matches Some(t) ==> t@.len() > 0,
{
    TokenExtractor::default().extract_from_parts(auth, None, query)
}

} // verus!
