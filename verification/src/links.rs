//! The link extractor: discovering `href` targets in a page, resolving them
//! against a base URL, and keeping only same-origin absolute URLs.

use vstd::prelude::*;
use kuchiki::traits::TendrilSink;
use crate::origin::{host_of, is_same_domain};

verus! {

/// The values of the `href` attributes of the document's `a[href]`
/// elements, in document order, duplicates included.
pub uninterp spec fn hrefs_of(raw: Seq<char>) -> Seq<Seq<char>>;

/// The absolute URL that `href` resolves to against the base URL `base`
/// under the standard URL resolution rules; `None` when `base` does not
/// parse as an absolute URL or the resolution fails.
pub uninterp spec fn resolved(base: Seq<char>, href: Seq<char>) -> Option<Seq<char>>;

/// Relies on kuchiki's `parse_html`, `select` and attribute lookup: the
/// `href` values of a document's anchor elements, in document order, are a
/// function of the markup alone.
#[verifier::external_body]
pub(crate) fn extract_hrefs(raw: &str) -> (r: Vec<String>)
    ensures
        r.deep_view() == hrefs_of(raw@),
{
    let document = kuchiki::parse_html().one(raw);
    let mut out = Vec::new();
    if let Ok(iter) = document.select("a[href]") {
        for link in iter {
            if let Some(href) = link.attributes.borrow().get("href") {
                out.push(href.to_string());
            }
        }
    }
    out
}

/// Relies on `url::Url::parse`, `url::Url::join` and `Url`'s serialization:
/// resolving a reference against a base URL is a function of the two
/// strings alone, and failures on either step yield `None`.
#[verifier::external_body]
pub(crate) fn resolve_href(base: &str, href: &str) -> (r: Option<String>)
    ensures
        r.deep_view() == resolved(base@, href@),
{
    url::Url::parse(base).ok().and_then(|b| b.join(href).ok()).map(|u| u.to_string())
}

/// The same-origin links among `hrefs`: each href resolved against `base`,
/// hrefs that fail to resolve skipped, and only resolved URLs whose host is
/// exactly `base_domain` kept, in order, duplicates included.
pub open spec fn same_origin_links(
    hrefs: Seq<Seq<char>>,
    base: Seq<char>,
    base_domain: Seq<char>,
) -> Seq<Seq<char>>
    decreases hrefs.len(),
{
    if hrefs.len() == 0 {
        Seq::empty()
    } else {
        let init = same_origin_links(hrefs.drop_last(), base, base_domain);
        match resolved(base, hrefs.last()) {
            Some(u) => if host_of(u) == Some(base_domain) {
                init.push(u)
            } else {
                init
            },
            None => init,
        }
    }
}

/// Every link the link extractor keeps is on the origin host: a URL that
/// resolves to any other host never appears among the extracted links, so
/// it can never reach the frontier.
pub proof fn lemma_links_same_origin(
    hrefs: Seq<Seq<char>>,
    base: Seq<char>,
    base_domain: Seq<char>,
)
    ensures
        forall|i: int|
            0 <= i < same_origin_links(hrefs, base, base_domain).len() ==> host_of(
                #[trigger] same_origin_links(hrefs, base, base_domain)[i],
            ) == Some(base_domain),
    decreases hrefs.len(),
{
    if hrefs.len() != 0 {
        lemma_links_same_origin(hrefs.drop_last(), base, base_domain);
        let init = same_origin_links(hrefs.drop_last(), base, base_domain);
        assert forall|i: int|
            0 <= i < same_origin_links(hrefs, base, base_domain).len() implies host_of(
            #[trigger] same_origin_links(hrefs, base, base_domain)[i],
        ) == Some(base_domain) by {
            if i < init.len() {
                assert(same_origin_links(hrefs, base, base_domain)[i] == init[i]);
            }
        }
    }
}

/// Discovers every link of the raw page `raw_html`: each `href` in document
/// order is resolved against `base_url`, unresolvable hrefs are skipped,
/// and only URLs on the origin host `base_domain` are returned, duplicates
/// included.
pub fn extract_links(raw_html: &str, base_url: &str, base_domain: &str) -> (links: Vec<String>)
    ensures
        links.deep_view() == same_origin_links(hrefs_of(raw_html@), base_url@, base_domain@),
{
    let hrefs = extract_hrefs(raw_html);
    let ghost all = hrefs.deep_view();
    let mut links: Vec<String> = Vec::new();
    let mut i: usize = 0;
    proof {
        assert(all.take(0) =~= Seq::<Seq<char>>::empty());
    }
    while i < hrefs.len()
        invariant
            i <= hrefs.len(),
            all == hrefs.deep_view(),
            all.len() == hrefs@.len(),
            links.deep_view() == same_origin_links(all.take(i as int), base_url@, base_domain@),
        decreases hrefs.len() - i,
    {
        proof {
            assert(all.take(i + 1).drop_last() =~= all.take(i as int));
            assert(all.take(i + 1).last() == hrefs@[i as int]@);
        }
        let href = &hrefs[i];
        match resolve_href(base_url, href.as_str()) {
            Some(u) => {
                if is_same_domain(u.as_str(), base_domain) {
                    let ghost old_links = links.deep_view();
                    links.push(u);
                    proof {
                        assert(links.deep_view() =~= old_links.push(links@.last()@));
                    }
                } else {
                }
            },
            None => {},
        }
        i += 1;
    }
    proof {
        assert(all.take(hrefs@.len() as int) =~= all);
    }
    links
}

} // verus!
