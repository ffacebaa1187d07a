//! The origin invariant: which URLs count as staying on the configured
//! host and port, and resolution of user-supplied URL strings.

use vstd::prelude::*;

verus! {

/// What the origin check reads of a URL: its host and port, if any.
pub struct UrlParts {
    pub host: Option<String>,
    pub port: Option<u16>,
}

/// A URL stays within the domain when its host and port, where it has
/// them at all, match the domain's.
pub open spec fn spec_within_domain(uri: &UrlParts, domain: &UrlParts) -> bool {
    (uri.host is None || option_str_eq(uri.host, domain.host)) && (uri.port is None || uri.port
        == domain.port)
}

/// Equality of two optional strings, by contents.
pub open spec fn option_str_eq(a: Option<String>, b: Option<String>) -> bool {
    match (a, b) {
        (Option::None, Option::None) => true,
        (Option::Some(x), Option::Some(y)) => x@ == y@,
        _ => false,
    }
}

/// Does `uri` stay on the configured origin's host and port? A URL
/// without a host (or without a port) passes the corresponding check.
pub fn is_within_domain(uri: &UrlParts, domain: &UrlParts) -> (r: bool)
    ensures
        r == spec_within_domain(uri, domain),
{
    let host_ok = match (&uri.host, &domain.host) {
        (Option::None, _) => true,
        (Option::Some(a), Option::Some(b)) => string_eq(a, b),
        (Option::Some(_), Option::None) => false,
    };
    let port_ok = match (&uri.port, &domain.port) {
        (Option::None, _) => true,
        (Option::Some(a), Option::Some(b)) => *a == *b,
        (Option::Some(_), Option::None) => false,
    };
    host_ok && port_ok
}

/// Contents equality of two strings.
fn string_eq(a: &String, b: &String) -> (r: bool)
    ensures
        r == (a@ == b@),
{
    a.eq(b)
}

/// The serialisation of `input` resolved against the absolute URL
/// `context` under the URL standard, or `None` when the pair does not
/// parse: a function of the two strings alone.
pub uninterp spec fn join_of(context: Seq<char>, input: Seq<char>) -> Option<Seq<char>>;

/// Relies on `url::Url::parse` followed by `Url::join` and the crate's
/// `From<Url> for String`: parsing is deterministic in the input
/// string, joining resolves `input` against the parsed base following
/// the URL standard, and the conversion returns the resolved URL's
/// serialisation. The three calls together are one resolution, named
/// by `join_of`; an error from either stage yields `None`.
#[verifier::external_body]
fn resolve_url(context: &str, input: &str) -> (r: Option<String>)
    ensures
        match r {
            Some(s) => join_of(context@, input@) == Some(s@),
            None => join_of(context@, input@) is None,
        },
{
    match ::url::Url::parse(context) {
        Ok(base) => match base.join(input) {
            Ok(resolved) => Some(String::from(resolved)),
            Err(_) => None,
        },
        Err(_) => None,
    }
}

/// Failure to resolve a URL string against its context.
#[derive(Clone, Copy, Debug, PartialEq, Eq, Structural)]
pub enum UrlError {
    Parse,
}

/// Resolves a browser-supplied URL string against the current page's
/// URL, as the address bar would; errors exactly when the resolution
/// has no result.
pub fn parse_browser_url(string: &str, context: &str) -> (r: Result<String, UrlError>)
    ensures
        r is Ok <==> join_of(context@, string@) is Some,
        r matches Ok(s) ==> join_of(context@, string@) == Some(s@),
{
    match resolve_url(context, string) {
        Some(s) => Ok(s),
        None => Err(UrlError::Parse),
    }
}

} // verus!
