use site_crawler::auth::detect_auth_details;
use site_crawler::batch::{process_page, PageResult};
use site_crawler::content::{page_from_response, FetchError};
use site_crawler::links::extract_links;
use site_crawler::origin::is_same_domain;
use site_crawler::sections::{build_page_sections, sort_by_url};

fn s(text: &str) -> String {
    String::from(text)
}

fn page(url: &str, title: &str, content: &str) -> PageResult {
    PageResult { url: s(url), title: s(title), content: s(content) }
}

#[test]
fn same_domain_exact_host_matches() {
    assert!(is_same_domain("http://example.com/x?q=1", "example.com"));
}

#[test]
fn same_domain_other_host_rejected() {
    assert!(!is_same_domain("http://other.com/x", "example.com"));
    assert!(!is_same_domain("http://sub.example.com/", "example.com"));
}

#[test]
fn same_domain_unparseable_rejected() {
    assert!(!is_same_domain("not a url", "example.com"));
    assert!(!is_same_domain("/relative/only", "example.com"));
}

#[test]
fn relative_link_resolves_against_base() {
    let html = "<html><body><a href=\"../c\">c</a></body></html>";
    let links = extract_links(html, "http://example.com/a/b", "example.com");
    assert_eq!(links, vec![s("http://example.com/c")]);
}

#[test]
fn cross_host_link_not_extracted() {
    let html = "<html><body><a href=\"http://other.com/x\">x</a>\
                <a href=\"/here\">y</a></body></html>";
    let links = extract_links(html, "http://example.com/", "example.com");
    assert_eq!(links, vec![s("http://example.com/here")]);
}

#[test]
fn unresolvable_href_skipped() {
    let html = "<html><body><a href=\"http://[bad\">x</a></body></html>";
    let links = extract_links(html, "http://example.com/", "example.com");
    assert!(links.is_empty());
}

#[test]
fn duplicate_links_kept_in_document_order() {
    let html = "<html><body><a href=\"/a\">1</a><a href=\"/b\">2</a>\
                <a href=\"/a\">3</a></body></html>";
    let links = extract_links(html, "http://example.com/", "example.com");
    assert_eq!(
        links,
        vec![s("http://example.com/a"), s("http://example.com/b"), s("http://example.com/a")]
    );
}

#[test]
fn script_and_style_removed() {
    let html = "<body><script>alert(1)</script><p>hi</p></body>";
    let (_, content) = page_from_response("http://example.com/", 200, html).unwrap();
    assert!(content.contains("<p>hi</p>"));
    assert!(!content.contains("<script"));
    assert!(!content.contains("alert(1)"));
}

#[test]
fn style_subtree_removed_too() {
    let html = "<body><style>p { color: red }</style><p>keep</p></body>";
    let (_, content) = page_from_response("http://example.com/", 200, html).unwrap();
    assert!(content.contains("<p>keep</p>"));
    assert!(!content.contains("<style"));
}

#[test]
fn title_taken_from_document() {
    let html = "<html><head><title>Welcome</title></head><body><p>x</p></body></html>";
    let (title, _) = page_from_response("http://example.com/", 200, html).unwrap();
    assert_eq!(title, "Welcome");
}

#[test]
fn title_falls_back_to_url() {
    let html = "<html><body><p>x</p></body></html>";
    let (title, _) = page_from_response("http://example.com/page", 200, html).unwrap();
    assert_eq!(title, "http://example.com/page");
}

#[test]
fn http_error_status_yields_fetch_error() {
    let r = page_from_response("http://example.com/", 404, "<body>gone</body>");
    assert!(matches!(r, Err(FetchError::HttpStatus(404))));
}

#[test]
fn redirect_status_is_not_success() {
    let r = page_from_response("http://example.com/", 301, "");
    assert!(matches!(r, Err(FetchError::HttpStatus(301))));
}

#[test]
fn transport_error_carries_message() {
    let e = FetchError::Transport(s("connection refused"));
    assert!(matches!(e, FetchError::Transport(m) if m == "connection refused"));
}

#[test]
fn failed_status_gives_no_page_and_no_links() {
    let html = "<body><a href=\"/x\">x</a></body>";
    let (res, links) =
        process_page("http://example.com/", 500, html, "http://example.com/", "example.com");
    assert!(res.is_none());
    assert!(links.is_empty());
}

#[test]
fn successful_page_carries_links() {
    let html = "<body><a href=\"/x\">x</a></body>";
    let (res, links) =
        process_page("http://example.com/", 200, html, "http://example.com/", "example.com");
    let p = res.unwrap();
    assert_eq!(p.url, "http://example.com/");
    assert_eq!(links, vec![s("http://example.com/x")]);
}

#[test]
fn auth_login_hint_exact() {
    let pages = vec![(s("http://example.com/login"), s("<form><INPUT type=PASSWORD></form>"))];
    assert_eq!(
        detect_auth_details(&pages),
        "Login page detected at http://example.com/login. Use BasicAuth or form-based \
         authentication. Analyze the form structure for exact selectors."
    );
}

#[test]
fn auth_bearer_hint_exact() {
    let pages = vec![(s("http://example.com/api"), s("send an Authorization header"))];
    assert_eq!(
        detect_auth_details(&pages),
        "Bearer token authentication likely required. Check API documentation or network requests."
    );
}

#[test]
fn auth_default_hint_exact() {
    let pages = vec![(s("http://example.com/"), s("<p>plain page</p>"))];
    assert_eq!(
        detect_auth_details(&pages),
        "No specific authentication method detected. Manual analysis required."
    );
}

#[test]
fn auth_nothing_detected_when_empty() {
    let pages: Vec<(String, String)> = Vec::new();
    assert_eq!(
        detect_auth_details(&pages),
        "No specific authentication method detected. Manual analysis required."
    );
}

#[test]
fn auth_login_needs_login_path() {
    // password and input appear, but the path never looks like a sign-in page
    let pages = vec![(s("http://example.com/docs"), s("password input fields explained"))];
    assert_eq!(
        detect_auth_details(&pages),
        "No specific authentication method detected. Manual analysis required."
    );
}

#[test]
fn sections_home_page_label() {
    let pages = vec![page("http://example.com/", "t", "<p>home</p>")];
    assert_eq!(
        build_page_sections(&pages),
        "- / (Home Page) HTML:\n```html\n<p>home</p>\n```"
    );
}

#[test]
fn sections_plain_path_label() {
    let pages = vec![page("http://example.com/about", "t", "<p>a</p>")];
    assert_eq!(build_page_sections(&pages), "- /about HTML:\n```html\n<p>a</p>\n```");
}

#[test]
fn sections_empty_placeholder() {
    let pages: Vec<PageResult> = Vec::new();
    assert_eq!(build_page_sections(&pages), "[No pages scraped]");
}

#[test]
fn sections_joined_with_newlines() {
    let pages = vec![
        page("http://example.com/a", "t", "<p>1</p>"),
        page("http://example.com/b", "t", "<p>2</p>"),
    ];
    assert_eq!(
        build_page_sections(&pages),
        "- /a HTML:\n```html\n<p>1</p>\n```\n- /b HTML:\n```html\n<p>2</p>\n```"
    );
}

#[test]
fn sort_orders_results_by_url() {
    let pages = vec![
        page("http://example.com/c", "t", "3"),
        page("http://example.com/a", "t", "1"),
        page("http://example.com/b", "t", "2"),
    ];
    let sorted = sort_by_url(pages);
    let urls: Vec<String> = sorted.into_iter().map(|p| p.url).collect();
    assert_eq!(
        urls,
        vec![s("http://example.com/a"), s("http://example.com/b"), s("http://example.com/c")]
    );
}
