//! The origin guard: deciding whether a candidate URL belongs to the same
//! origin (host) as the crawl's starting URL.

use vstd::prelude::*;

verus! {

/// The host component of `s` read as an absolute URL: `None` when `s` does
/// not parse as an absolute URL, or parses to one without a host component.
pub uninterp spec fn host_of(s: Seq<char>) -> Option<Seq<char>>;

/// Relies on `url::Url::parse` and `url::Url::host_str`: the host component
/// of a URL string is a function of that string alone, and parse failures or
/// host-less URLs yield `None`.
#[verifier::external_body]
pub(crate) fn parse_host(url: &str) -> (r: Option<String>)
    ensures
        r.deep_view() == host_of(url@),
{
    url::Url::parse(url).ok().and_then(|u| u.host_str().map(|h| h.to_string()))
}

/// Whether `url` parses to an absolute URL whose host equals `base_domain`
/// exactly (case-sensitive, no subdomain matching, no scheme or port
/// comparison). Unparseable or host-less URLs are never same-domain.
pub fn is_same_domain(url: &str, base_domain: &str) -> (r: bool)
    ensures
        r == (host_of(url@) == Some(base_domain@)),
{
    match parse_host(url) {
        Some(h) => h == base_domain.to_owned(),
        None => false,
    }
}

} // verus!
