//! The URL utility: deriving the origin `{scheme}://{host}` of the crawled
//! site from the initial URL.

use vstd::prelude::*;
use vstd::string::*;

verus! {

/// What URL parsing extracts from a string: `None` when the string is not a
/// syntactically valid absolute URL, otherwise the scheme and, when the URL
/// has one, the host.  Parsing is a function of the input characters alone.
pub uninterp spec fn parsed_scheme_host(s: Seq<char>) -> Option<(Seq<char>, Option<Seq<char>>)>;

/// Failure of `get_base_url`.
#[derive(Debug, Clone, Copy, PartialEq, Eq, Structural)]
pub enum ParseError {
    /// The input is not a syntactically valid absolute URL.
    Invalid,
    /// The URL is valid but has no host component.
    NoHost,
}

/// Relies on `url::Url::parse` together with `Url::scheme` and
/// `Url::host_str`: parsing fails exactly on strings that are not valid
/// absolute URLs, and otherwise yields a scheme and an optional host that
/// depend on the input string alone.
#[verifier::external_body]
fn parse_scheme_and_host(s: &str) -> (r: Option<(String, Option<String>)>)
    ensures
        r.deep_view() == parsed_scheme_host(s@),
{
    match url::Url::parse(s) {
        Ok(u) => Some((u.scheme().to_string(), u.host_str().map(|h| h.to_string()))),
        Err(_) => None,
    }
}

/// The origin string `{scheme}://{host}`.
pub open spec fn spec_base_url(scheme: Seq<char>, host: Seq<char>) -> Seq<char> {
    scheme + "://"@ + host
}

/// Joins a scheme and a host into the origin `{scheme}://{host}`.
pub fn make_base_url(scheme: &str, host: &str) -> (r: String)
    ensures
        r@ == spec_base_url(scheme@, host@),
{
    let mut r = String::new();
    r.append(scheme);
    r.append("://");
    r.append(host);
    proof {
        assert(r@ =~= spec_base_url(scheme@, host@));
    }
    r
}

/// Derives the origin of `url` — scheme and host, dropping path, query and
/// fragment.  Fails when the input is not a valid absolute URL, and when
/// the URL has no host component.
pub fn get_base_url(url: &str) -> (r: Result<String, ParseError>)
    ensures
        match parsed_scheme_host(url@) {
            None => r matches Err(e) && e == ParseError::Invalid,
            Some(p) => match p.1 {
                None => r matches Err(e) && e == ParseError::NoHost,
                Some(h) => r matches Ok(b) && b@ == spec_base_url(p.0, h),
            },
        },
{
    match parse_scheme_and_host(url) {
        None => Err(ParseError::Invalid),
        Some((scheme, host_opt)) => match host_opt {
            None => Err(ParseError::NoHost),
            Some(host) => Ok(make_base_url(scheme.as_str(), host.as_str())),
        },
    }
}

} // verus!
