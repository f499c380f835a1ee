//! The content extractor: normalizing a fetched page's raw HTML into a
//! title and a cleaned body, and turning one HTTP response into a page.

use vstd::prelude::*;
use kuchiki::traits::TendrilSink;

verus! {

/// The serialized markup of the document's body element after every script
/// and style subtree has been removed; when the document parses to a tree
/// without a body element, the serialization of the whole document.
pub uninterp spec fn cleaned_body(raw: Seq<char>) -> Seq<char>;

/// The text contents of the document's first title element; `None` when the
/// document has no title element.
pub uninterp spec fn title_text(raw: Seq<char>) -> Option<Seq<char>>;

/// Relies on kuchiki's HTML parser and serializer (`parse_html`,
/// `select_first`, `select`, `NodeRef::detach`, and node `to_string`):
/// parsing and serializing are pure functions of the markup, so the body
/// left after detaching every `script` and `style` subtree is a function of
/// `raw` alone.
#[verifier::external_body]
pub(crate) fn extract_main_content(raw: &str) -> (r: String)
    ensures
        r@ == cleaned_body(raw@),
{
    let document = kuchiki::parse_html().one(raw);
    if let Ok(body) = document.select_first("body") {
        if let Ok(iter) = body.as_node().select("script, style") {
            let found: Vec<_> = iter.collect();
            for node in found {
                node.as_node().detach();
            }
        }
        body.as_node().to_string()
    } else {
        document.to_string()
    }
}

/// Relies on kuchiki's `parse_html`, `select_first` and `text_contents`: the
/// first title element's text is a function of the markup alone.
#[verifier::external_body]
pub(crate) fn extract_title(raw: &str) -> (r: Option<String>)
    ensures
        r.deep_view() == title_text(raw@),
{
    let document = kuchiki::parse_html().one(raw);
    document.select_first("title").ok().map(|t| t.text_contents())
}

/// How one fetched URL can fail: a response outside the HTTP success range,
/// or a network-level failure before any status was seen.
#[derive(Debug)]
pub enum FetchError {
    HttpStatus(u16),
    Transport(String),
}

/// Whether `status` is an HTTP success status.
pub open spec fn spec_status_ok(status: u16) -> bool {
    200 <= status < 300
}

/// The title recorded for a page: the document's first title element's
/// text, or the page's own URL when the document has none.
pub open spec fn spec_title(url: Seq<char>, raw: Seq<char>) -> Seq<char> {
    match title_text(raw) {
        Some(t) => t,
        None => url,
    }
}

/// Turns one HTTP response into a page: rejected with the status code
/// unless the status is in the success range; otherwise the pair of the
/// page's title (falling back to `url` when the document has none) and its
/// cleaned body markup.
pub fn page_from_response(url: &str, status: u16, raw_body: &str) -> (r: Result<
    (String, String),
    FetchError,
>)
    ensures
        r is Ok <==> spec_status_ok(status),
        match r {
            Ok(p) => p.0@ == spec_title(url@, raw_body@) && p.1@ == cleaned_body(raw_body@),
            Err(e) => e == FetchError::HttpStatus(status),
        },
{
    if !(200 <= status && status < 300) {
        return Err(FetchError::HttpStatus(status));
    }
    let title = match extract_title(raw_body) {
        Some(t) => t,
        None => url.to_owned(),
    };
    let content = extract_main_content(raw_body);
    Ok((title, content))
}

} // verus!
