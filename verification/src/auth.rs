//! The authentication guard: a request passes when it carries the shared
//! secret, either in the `x-api-key` header or in the `key` query parameter.
use vstd::prelude::*;

verus! {

/// The fixed message of a rejected request; it does not say why the
/// request failed.
pub open spec fn forbidden_message() -> Seq<char> {
    "invalid api key"@
}

/// The view of an optional request value.
pub open spec fn opt_view(o: Option<String>) -> Option<Seq<char>> {
    match o {
        Some(s) => Some(s@),
        None => None,
    }
}

/// Authentication succeeds exactly when the header value or the query
/// value equals the secret, byte for byte.
pub open spec fn auth_ok(
    header: Option<Seq<char>>,
    query: Option<Seq<char>>,
    secret: Seq<char>,
) -> bool {
    header == Some(secret) || query == Some(secret)
}

/// Checks the supplied key against the configured secret: the header is
/// consulted first, the query parameter only if the header is absent or
/// mismatched. A failure is the fixed forbidden message, whatever its cause.
pub fn authenticate(
    header: &Option<String>,
    query: &Option<String>,
    secret: &String,
) -> (r: Result<(), String>)
    ensures
        r is Ok <==> auth_ok(opt_view(*header), opt_view(*query), secret@),
        r matches Err(m) ==> m@ == forbidden_message(),
{
    if let Some(h) = header {
        if h.eq(secret) {
            return Ok(());
        }
    }
    if let Some(q) = query {
        if q.eq(secret) {
            return Ok(());
        }
    }
    Err(String::from_str("invalid api key"))
}

} // verus!
