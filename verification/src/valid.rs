use vstd::prelude::*;

verus! {

/// Whether a string parses as an absolute URL. The name stands for the
/// outcome of `url::Url::parse`, which depends on the characters alone.
pub uninterp spec fn url_ok(s: Seq<char>) -> bool;

/// Whether a string is a valid RFC 3339 date-and-time. The name stands for
/// the outcome of chrono's RFC 3339 parser, which depends on the
/// characters alone.
pub uninterp spec fn rfc3339_ok(s: Seq<char>) -> bool;

/// Relies on `url::Url::parse`: it returns `Ok` exactly on strings that
/// parse as absolute URLs, and never panics.
#[verifier::external_body]
pub fn check_url(s: &str) -> (r: bool)
    ensures
        r == url_ok(s@),
{
    url::Url::parse(s).is_ok()
}

/// Relies on chrono's `DateTime::parse_from_rfc3339`: it returns `Ok`
/// exactly on valid RFC 3339 date-and-time strings, and never panics.
#[verifier::external_body]
pub fn check_rfc3339(s: &str) -> (r: bool)
    ensures
        r == rfc3339_ok(s@),
{
    chrono::DateTime::parse_from_rfc3339(s).is_ok()
}

} // verus!
