//! Percent-encoding of query values for the topping-delete request, through
//! the `urlencoding` crate.

use vstd::prelude::*;

use crate::strutil::push_char;

verus! {

/// What `urlencoding::encode` returns for a text. The encoding depends on
/// the input characters alone.
pub uninterp spec fn url_encoded(s: Seq<char>) -> Seq<char>;

/// A character percent-encoding passes through unchanged.
pub open spec fn is_url_unreserved(c: char) -> bool {
    ('a' <= c && c <= 'z') || ('A' <= c && c <= 'Z') || ('0' <= c && c <= '9') || c == '-' || c
        == '_' || c == '.' || c == '~'
}

/// Relies on urlencoding::encode: percent-encodes every byte except ASCII
/// alphanumerics and `-`, `_`, `.`, `~`; those characters, and an empty
/// input, pass through unchanged.
#[verifier::external_body]
pub fn encode_query_value(s: &str) -> (r: String)
    ensures
        r@ == url_encoded(s@),
        s@.len() == 0 ==> r@.len() == 0,
        (forall|i: int| 0 <= i < s@.len() ==> is_url_unreserved(#[trigger] s@[i])) ==> r@ == s@,
{
    urlencoding::encode(s).into_owned()
}

/// The request path that deletes a topping by name, the name percent-encoded
/// as a query value.
pub fn delete_topping_path(name: &str) -> (r: String)
    ensures
        r@ == ("/toppings?name=")@ + url_encoded(name@),
{
    let mut r = String::from_str("/toppings?name=");
    let encoded = encode_query_value(name);
    r.append(encoded.as_str());
    r
}

} // verus!
