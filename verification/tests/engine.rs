use site_crawler::batch::{process_page, PageResult};
use site_crawler::frontier::{crawl_pages, CrawlError, Crawler};

fn s(text: &str) -> String {
    String::from(text)
}

fn page(url: &str, title: &str, content: &str) -> PageResult {
    PageResult { url: s(url), title: s(title), content: s(content) }
}

#[test]
fn invalid_start_url_rejected() {
    let r = Crawler::new("not a url at all", 10, 50);
    assert!(matches!(r, Err(CrawlError::InvalidStartUrl)));
}

#[test]
fn hostless_start_url_rejected() {
    let r = Crawler::new("mailto:someone@example.com", 10, 50);
    assert!(matches!(r, Err(CrawlError::InvalidStartUrl)));
}

#[test]
fn start_url_enqueued_then_drained() {
    let mut c = Crawler::new("http://example.com/", 10, 50).unwrap();
    assert_eq!(c.queue.len(), 1);
    let batch = c.next_batch();
    assert_eq!(batch, vec![s("http://example.com/")]);
    assert_eq!(c.visited, vec![s("http://example.com/")]);
    assert_eq!(c.queue.len(), 0);
    assert!(c.is_done());
}

#[test]
fn drain_respects_page_budget() {
    let mut c = Crawler::new("http://example.com/", 10, 2).unwrap();
    let links = vec![
        s("http://example.com/a"),
        s("http://example.com/b"),
        s("http://example.com/c"),
    ];
    c.record_batch(Vec::new(), links);
    assert_eq!(c.queue.len(), 4);
    // batch_size is 10, but the budget of 2 pages caps the first drain
    let batch = c.next_batch();
    assert_eq!(batch.len(), 2);
    assert_eq!(c.visited.len(), 2);
    let batch = c.next_batch();
    assert!(batch.is_empty());
    assert_eq!(c.visited.len(), 2);
}

#[test]
fn url_never_drained_twice() {
    let mut c = Crawler::new("http://example.com/", 10, 50).unwrap();
    let first = c.next_batch();
    assert_eq!(first, vec![s("http://example.com/")]);
    // a page links back to the start URL: it must not be enqueued again
    c.record_batch(Vec::new(), vec![s("http://example.com/"), s("http://example.com/a")]);
    let second = c.next_batch();
    assert_eq!(second, vec![s("http://example.com/a")]);
    assert_eq!(c.visited, vec![s("http://example.com/"), s("http://example.com/a")]);
}

#[test]
fn cross_host_links_never_enqueued() {
    let mut c = Crawler::new("http://example.com/", 10, 50).unwrap();
    c.record_batch(Vec::new(), vec![s("http://other.com/x"), s("http://example.com/ok")]);
    assert_eq!(c.queue, vec![s("http://example.com/"), s("http://example.com/ok")]);
}

#[test]
fn duplicate_links_enqueued_once() {
    let mut c = Crawler::new("http://example.com/", 10, 50).unwrap();
    c.record_batch(Vec::new(), vec![s("http://example.com/a"), s("http://example.com/a")]);
    assert_eq!(c.queue, vec![s("http://example.com/"), s("http://example.com/a")]);
}

#[test]
fn queue_capped_at_thousand() {
    let mut c = Crawler::new("http://example.com/", 10, 50).unwrap();
    let links: Vec<String> =
        (0..1200).map(|i| format!("http://example.com/p{}", i)).collect();
    c.record_batch(Vec::new(), links);
    assert_eq!(c.queue.len(), 1000);
    // the front of the queue (earliest discovered) is what survives
    assert_eq!(c.queue[0], s("http://example.com/"));
    assert_eq!(c.queue[1], s("http://example.com/p0"));
}

#[test]
fn first_success_wins_in_output() {
    let mut c = Crawler::new("http://example.com/", 10, 50).unwrap();
    c.record_batch(vec![page("http://example.com/a", "first", "one")], Vec::new());
    c.record_batch(vec![page("http://example.com/a", "second", "two")], Vec::new());
    assert_eq!(c.output.len(), 1);
    assert_eq!(c.output[0].title, "first");
}

#[test]
fn http_404_excluded_but_others_recorded() {
    let mut c = Crawler::new("http://example.com/", 10, 50).unwrap();
    c.record_batch(Vec::new(), vec![s("http://example.com/a"), s("http://example.com/b")]);
    let batch = c.next_batch();
    assert_eq!(batch.len(), 3);
    let mut results = Vec::new();
    let mut links = Vec::new();
    for url in &batch {
        let status = if url == "http://example.com/a" { 404 } else { 200 };
        let (res, mut found) =
            process_page(url, status, "<body><p>x</p></body>", "http://example.com/", "example.com");
        if let Some(p) = res {
            results.push(p);
        }
        links.append(&mut found);
    }
    c.record_batch(results, links);
    let urls: Vec<String> = c.output.iter().map(|p| p.url.clone()).collect();
    assert_eq!(urls, vec![s("http://example.com/"), s("http://example.com/b")]);
}

#[test]
fn crawl_invalid_start() {
    let pages: Vec<(String, String)> = Vec::new();
    let r = crawl_pages("no-host-here", &pages, 2, 10);
    assert!(matches!(r, Err(CrawlError::InvalidStartUrl)));
}

#[test]
fn crawl_cycle_terminates_three_pages() {
    // start page links to /a and /b, both of which link back to /
    let pages = vec![
        (
            s("http://example.com/"),
            s("<body><a href=\"/a\">a</a><a href=\"/b\">b</a></body>"),
        ),
        (s("http://example.com/a"), s("<body><a href=\"/\">home</a></body>")),
        (s("http://example.com/b"), s("<body><a href=\"/\">home</a></body>")),
    ];
    let out = crawl_pages("http://example.com/", &pages, 2, 10).unwrap();
    let mut urls: Vec<String> = out.iter().map(|p| p.url.clone()).collect();
    urls.sort();
    assert_eq!(
        urls,
        vec![s("http://example.com/"), s("http://example.com/a"), s("http://example.com/b")]
    );
    assert_eq!(out.len(), 3);
}

#[test]
fn crawl_respects_max_pages() {
    // a chain long enough to exhaust the budget
    let pages = vec![
        (s("http://example.com/"), s("<body><a href=\"/1\">n</a></body>")),
        (s("http://example.com/1"), s("<body><a href=\"/2\">n</a></body>")),
        (s("http://example.com/2"), s("<body><a href=\"/3\">n</a></body>")),
        (s("http://example.com/3"), s("<body></body>")),
    ];
    let out = crawl_pages("http://example.com/", &pages, 1, 2).unwrap();
    assert_eq!(out.len(), 2);
}

#[test]
fn failed_fetch_skips_page_but_crawl_continues() {
    // /missing has no page in the table: it behaves as a failed fetch and
    // yields no entry, while /a is still crawled
    let pages = vec![
        (
            s("http://example.com/"),
            s("<body><a href=\"/missing\">m</a><a href=\"/a\">a</a></body>"),
        ),
        (s("http://example.com/a"), s("<body><p>fine</p></body>")),
    ];
    let out = crawl_pages("http://example.com/", &pages, 2, 10).unwrap();
    let mut urls: Vec<String> = out.iter().map(|p| p.url.clone()).collect();
    urls.sort();
    assert_eq!(urls, vec![s("http://example.com/"), s("http://example.com/a")]);
}

#[test]
fn crawl_stays_on_origin_host() {
    let pages = vec![
        (
            s("http://example.com/"),
            s("<body><a href=\"http://other.com/x\">x</a><a href=\"/a\">a</a></body>"),
        ),
        (s("http://example.com/a"), s("<body></body>")),
        (s("http://other.com/x"), s("<body>should never be fetched</body>")),
    ];
    let out = crawl_pages("http://example.com/", &pages, 2, 10).unwrap();
    assert!(out.iter().all(|p| p.url.starts_with("http://example.com/")));
    assert_eq!(out.len(), 2);
}

#[test]
fn crawl_content_is_cleaned() {
    let pages = vec![(
        s("http://example.com/"),
        s("<head><title>Home</title></head><body><script>alert(1)</script><p>hi</p></body>"),
    )];
    let out = crawl_pages("http://example.com/", &pages, 2, 10).unwrap();
    assert_eq!(out.len(), 1);
    assert_eq!(out[0].title, "Home");
    assert!(out[0].content.contains("<p>hi</p>"));
    assert!(!out[0].content.contains("<script"));
}
