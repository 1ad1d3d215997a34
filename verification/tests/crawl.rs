use rustic_qurry::crawler::{Crawler, SaveLocation};
use rustic_qurry::errors::CrawlError;
use rustic_qurry::extract::{get_page, get_urls};
use rustic_qurry::frontier::Frontier;
use rustic_qurry::page::Page;
use rustic_qurry::pool::{WorkerPool, WorkerState};
use rustic_qurry::sink::sink_file_name;

#[test]
fn canonicalize_strips_fragment_and_query() {
    let c = Crawler::sanitize_url("https://example.com/page?q=1#frag").unwrap();
    assert_eq!(c, "https://example.com/page");
}

#[test]
fn canonicalize_keeps_scheme_host_path() {
    let c = Crawler::sanitize_url("https://example.com/a/b").unwrap();
    assert_eq!(c, "https://example.com/a/b");
}

#[test]
fn canonicalize_is_idempotent_on_examples() {
    for addr in [
        "https://example.com/a?x=1#y",
        "https://a.test/",
        "http://host.test/p/q?z",
        "https://example.com",
    ] {
        let once = Crawler::sanitize_url(addr).unwrap();
        let twice = Crawler::sanitize_url(&once).unwrap();
        assert_eq!(once, twice);
    }
}

#[test]
fn canonicalize_rejects_malformed_address() {
    let r = Crawler::sanitize_url("not an address");
    assert!(matches!(r, Err(CrawlError::MalformedAddress)));
    let relative = Crawler::sanitize_url("/only/a/path");
    assert!(matches!(relative, Err(CrawlError::MalformedAddress)));
}

#[test]
fn extraction_scenario() {
    let html = "<html><head><title>Test</title></head><body><h1>Test</h1>\
                <a href=\"https://example.com/first#frag\">x</a>\
                <a href=\"/other\">y</a>\
                <a href=\"#frag\">z</a></body></html>";
    let base = String::from("https://example.com/");
    let frontier = Frontier::new();
    let links = get_urls(html, &base, &base, &frontier);
    assert_eq!(
        links,
        vec![
            String::from("https://example.com/first"),
            String::from("https://example.com/other"),
        ]
    );
}

#[test]
fn extraction_builds_page_record() {
    let html = "<html><head><title>Test</title>\
                <meta name=\"description\" content=\"About tests\"></head>\
                <body><p>body</p></body></html>";
    let url = String::from("https://example.com/");
    let page = get_page(html, &url);
    assert_eq!(page.url, "https://example.com/");
    assert_eq!(page.title, "Test");
    assert_eq!(page.description, "About tests");
    assert!(page.html.contains("<p>body</p>"));
    assert_ne!(page.html, html);
}

#[test]
fn extraction_defaults_to_empty_title_and_description() {
    let html = "<html><body><p>plain</p></body></html>";
    let url = String::from("https://example.com/");
    let page = get_page(html, &url);
    assert_eq!(page.title, "");
    assert_eq!(page.description, "");
}

#[test]
fn scope_requires_prefix_of_canonical_seed() {
    // A host that merely extends the seed's host is out of scope: the seed
    // address is not a character prefix of its canonical form.
    let html = "<a href=\"https://a.test.evil/\">evil</a><a href=\"https://a.test/ok\">ok</a>";
    let base = String::from("https://a.test/");
    let frontier = Frontier::new();
    let links = get_urls(html, &base, &base, &frontier);
    assert_eq!(links, vec![String::from("https://a.test/ok")]);
}

#[test]
fn extraction_deduplicates_link_targets() {
    // Three spellings of one page: the canonical target appears once.
    let html = "<a href=\"/x\">a</a><a href=\"/x#frag\">b</a><a href=\"/x?q=1\">c</a>";
    let base = String::from("https://a.test/");
    let frontier = Frontier::new();
    let links = get_urls(html, &base, &base, &frontier);
    assert_eq!(links, vec![String::from("https://a.test/x")]);
}

#[test]
fn extraction_excludes_visited_links() {
    let html = "<a href=\"/\">home</a><a href=\"/y\">y</a>";
    let seed = String::from("https://a.test/");
    let mut crawler = Crawler::new(SaveLocation::File);
    crawler.read_seeds(vec![seed.clone()]);
    let first = crawler.next_task().unwrap();
    assert_eq!(first, "https://a.test/");
    crawler.complete(first, "<p>no links</p>");
    let links = get_urls(html, &seed, &seed, &crawler.frontier);
    assert_eq!(links, vec![String::from("https://a.test/y")]);
}

#[test]
fn duplicate_addresses_are_claimed_once() {
    let mut crawler = Crawler::new(SaveLocation::File);
    crawler.read_seeds(vec![
        String::from("https://a.test/"),
        String::from("https://a.test/"),
    ]);
    assert_eq!(crawler.next_task(), Some(String::from("https://a.test/")));
    assert_eq!(crawler.next_task(), None);
}

#[test]
fn out_of_scope_seed_lines_are_dropped() {
    let mut crawler = Crawler::new(SaveLocation::File);
    crawler.read_seeds(vec![String::from("nonsense line"), String::from("https://a.test/")]);
    assert_eq!(crawler.next_task(), Some(String::from("https://a.test/")));
    assert_eq!(crawler.next_task(), None);
}

#[test]
fn end_to_end_scenario() {
    let mut crawler = Crawler::new(SaveLocation::File);
    crawler.read_seeds(vec![String::from("https://a.test/")]);
    let site_addrs = vec![
        String::from("https://a.test/"),
        String::from("https://a.test/x"),
    ];
    let site_bodies = vec![
        String::from("<html><body><a href=\"/x\">x</a></body></html>"),
        String::from(
            "<html><body><a href=\"/\">home</a><a href=\"https://b.test/\">out</a></body></html>",
        ),
    ];
    let stored = crawler.run_crawl(&site_addrs, &site_bodies);
    assert_eq!(crawler.visited_count(), 2);
    assert!(crawler.is_visited(&String::from("https://a.test/")));
    assert!(crawler.is_visited(&String::from("https://a.test/x")));
    assert!(!crawler.is_visited(&String::from("https://b.test/")));
    assert_eq!(stored.len(), 2);
    let urls: Vec<&str> = stored.iter().map(|p| p.url.as_str()).collect();
    assert!(urls.contains(&"https://a.test/"));
    assert!(urls.contains(&"https://a.test/x"));
}

#[test]
fn fetch_failures_are_abandoned_within_a_run() {
    let mut crawler = Crawler::new(SaveLocation::File);
    crawler.read_seeds(vec![String::from("https://a.test/")]);
    // The site serves the seed page, which links to a dead page; the dead
    // page is claimed but never completed, and never retried.
    let site_addrs = vec![String::from("https://a.test/")];
    let site_bodies = vec![String::from("<a href=\"/dead\">dead</a>")];
    let stored = crawler.run_crawl(&site_addrs, &site_bodies);
    assert_eq!(stored.len(), 1);
    assert_eq!(crawler.visited_count(), 1);
    assert!(!crawler.is_visited(&String::from("https://a.test/dead")));
}

#[test]
fn sink_target_names_replace_separators() {
    let page = Page {
        url: String::from("https://a.test/some/path"),
        title: String::new(),
        description: String::new(),
        html: String::new(),
    };
    let seed = Page {
        url: String::from("https://a.test/"),
        title: String::new(),
        description: String::new(),
        html: String::new(),
    };
    let (dir, file) = sink_file_name(&page, &seed).unwrap();
    assert_eq!(dir, "a_test");
    assert_eq!(file, "_some_path");
}

#[test]
fn sink_target_is_deterministic() {
    let page = Page {
        url: String::from("https://a.test/p"),
        title: String::from("one"),
        description: String::new(),
        html: String::from("<p>1</p>"),
    };
    let again = Page {
        url: String::from("https://a.test/p"),
        title: String::from("two"),
        description: String::new(),
        html: String::from("<p>2</p>"),
    };
    let seed = Page {
        url: String::from("https://a.test/"),
        title: String::new(),
        description: String::new(),
        html: String::new(),
    };
    let first = sink_file_name(&page, &seed).unwrap();
    let second = sink_file_name(&again, &seed).unwrap();
    assert_eq!(first, second);
}

#[test]
fn sink_target_fails_without_host() {
    let page = Page {
        url: String::from("https://a.test/p"),
        title: String::new(),
        description: String::new(),
        html: String::new(),
    };
    let seed = Page {
        url: String::from("data:,hello"),
        title: String::new(),
        description: String::new(),
        html: String::new(),
    };
    assert!(sink_file_name(&page, &seed).is_err());
}

#[test]
fn pool_terminates_only_when_empty_and_all_idle() {
    let mut pool = WorkerPool::new(3);
    assert!(pool.crawl_done(true));
    assert!(!pool.crawl_done(false));
    pool.set_state(1, WorkerState::Fetching);
    assert!(!pool.crawl_done(true));
    pool.set_state(1, WorkerState::Storing);
    assert!(!pool.crawl_done(true));
    pool.set_state(1, WorkerState::Idle);
    assert!(pool.crawl_done(true));
}
