//! Small trusted shims around std string building and the token generator.

use rand::Rng;
use vstd::prelude::*;

verus! {

/// Relies on std's string formatting: the result is the two parts, joined.
#[verifier::external_body]
pub(crate) fn concat2(a: &str, b: &str) -> (r: String)
    ensures
        r@ == a@ + b@,
{
    format!("{}{}", a, b)
}

/// Relies on std's string formatting: the result is the three parts, joined.
#[verifier::external_body]
pub(crate) fn concat3(a: &str, b: &str, c: &str) -> (r: String)
    ensures
        r@ == a@ + b@ + c@,
{
    format!("{}{}{}", a, b, c)
}

/// An alphanumeric ASCII character, as the token generator produces them.
pub open spec fn is_token_char(c: char) -> bool {
    ('a' <= c <= 'z') || ('A' <= c <= 'Z') || ('0' <= c <= '9')
}

/// Relies on rand's `thread_rng` with the `Alphanumeric` distribution:
/// each sampled value is one of a-z, A-Z, 0-9, so the collected string has
/// exactly `len` such characters.
#[verifier::external_body]
fn random_alphanumeric(len: usize) -> (r: String)
    ensures
        r@.len() == len,
        forall|i: int| 0 <= i < r@.len() ==> is_token_char(#[trigger] r@[i]),
{
    rand::thread_rng().sample_iter(&rand::distributions::Alphanumeric).take(len).map(
        char::from,
    ).collect()
}

/// A fresh admin token: 32 alphanumeric characters. A new one is drawn for
/// every supervisor instance, so a restart rotates the token.
pub fn fresh_admin_token() -> (r: String)
    ensures
        r@.len() == 32,
        forall|i: int| 0 <= i < r@.len() ==> is_token_char(#[trigger] r@[i]),
{
    random_alphanumeric(32)
}

} // verus!
