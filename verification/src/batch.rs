//! The per-task kernel of the batch runner: everything one batch task
//! decides once its fetch has resolved. The concurrent fan-out itself is
//! plumbing around this function; it hands in the HTTP status and raw body
//! and takes back the page and its discovered links.

use vstd::prelude::*;
use crate::content::{cleaned_body, page_from_response, spec_status_ok, spec_title};
use crate::links::{extract_links, hrefs_of, same_origin_links};

verus! {

/// One successfully fetched page: its URL, its title, and its normalized
/// body markup. Immutable once produced.
pub struct PageResult {
    pub url: String,
    pub title: String,
    pub content: String,
}

/// The work one batch task does after its fetch resolved with `status` and
/// the raw body: on a success status, the page (title falling back to the
/// URL, body cleaned of script and style) and the same-origin links
/// discovered in the raw body; on any other status, no page and no links.
pub fn process_page(
    url: &str,
    status: u16,
    raw_body: &str,
    base_url: &str,
    base_domain: &str,
) -> (r: (Option<PageResult>, Vec<String>))
    ensures
        r.0 is Some <==> spec_status_ok(status),
        match r.0 {
            Some(p) => p.url@ == url@ && p.title@ == spec_title(url@, raw_body@) && p.content@
                == cleaned_body(raw_body@),
            None => true,
        },
        spec_status_ok(status) ==> r.1.deep_view() == same_origin_links(
            hrefs_of(raw_body@),
            base_url@,
            base_domain@,
        ),
        !spec_status_ok(status) ==> r.1.deep_view() == Seq::<Seq<char>>::empty(),
{
    match page_from_response(url, status, raw_body) {
        Ok((title, content)) => {
            let links = extract_links(raw_body, base_url, base_domain);
            let result = PageResult { url: url.to_owned(), title, content };
            (Some(result), links)
        },
        Err(_) => {
            let links: Vec<String> = Vec::new();
            proof {
                assert(links.deep_view() =~= Seq::<Seq<char>>::empty());
            }
            (None, links)
        },
    }
}

} // verus!
