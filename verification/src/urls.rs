//! Trusted boundary to the `url` crate: parsing a base URL and joining the
//! fixed endpoint paths onto it. Both operations are deterministic functions
//! of their textual inputs, so their results are given names that the rest of
//! the library reasons with.

use vstd::prelude::*;

verus! {

/// The serialized normal form that `url::Url::parse` gives to `s`, or `None`
/// when `s` is not a valid URL.
pub uninterp spec fn url_parse_of(s: Seq<char>) -> Option<Seq<char>>;

/// The serialized result of parsing `base` and joining `path` onto it, or
/// `None` when either step fails.
pub uninterp spec fn url_join_of(base: Seq<char>, path: Seq<char>) -> Option<Seq<char>>;

/// Relies on `url::Url::parse`: whether a string parses, and the normal form
/// it parses to, depend on the string alone.
#[verifier::external_body]
pub fn parse_url(s: &str) -> (r: Option<String>)
    ensures
        match r {
            Some(u) => url_parse_of(s@) == Some(u@),
            None => url_parse_of(s@) is None,
        },
{
    match url::Url::parse(s) {
        Ok(u) => Some(String::from(u)),
        Err(_) => None,
    }
}

/// Relies on `url::Url::parse` and `url::Url::join`: both depend on their
/// textual inputs alone.
#[verifier::external_body]
pub fn join_url(base: &str, path: &str) -> (r: Option<String>)
    ensures
        match r {
            Some(u) => url_join_of(base@, path@) == Some(u@),
            None => url_join_of(base@, path@) is None,
        },
{
    match url::Url::parse(base) {
        Ok(b) => match b.join(path) {
            Ok(u) => Some(String::from(u)),
            Err(_) => None,
        },
        Err(_) => None,
    }
}

} // verus!
