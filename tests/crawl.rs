use web_audit::crawler::{Crawler, Visit, FAILED_VISIT_CODE};
use web_audit::errors::{FormattingError, WebDriver, WebDriverError};
use web_audit::external::{merge_external_replies, HttpReply};
use web_audit::index::{index_external_urls, UrlIndex};
use web_audit::record::Url;

fn rendered(current: &str, title: &str, hrefs: &[&str]) -> Visit {
    Visit::Rendered {
        current_url: current.to_string(),
        page_domain: Some("lulzbot.com".to_string()),
        title: title.to_string(),
        hrefs: hrefs.iter().map(|h| h.to_string()).collect(),
    }
}

fn crawler() -> Crawler {
    Crawler::new(
        "https://lulzbot.com".to_string(),
        vec!["lulzbot.com".to_string()],
        "Page Not Found".to_string(),
        "lulzbot.com".to_string(),
    )
}

fn internal_record(c: &Crawler, key: &str) -> Url {
    c.internal().get(&key.to_string()).expect("record").clone()
}

#[test]
fn visit_that_stays_is_ok() {
    let mut c = crawler();
    let x = "https://lulzbot.com".to_string();
    c.record_visit(&x, rendered("https://lulzbot.com", "Home", &[]));
    let r = internal_record(&c, "https://lulzbot.com");
    assert_eq!(r.response_code, Some(200));
    assert_eq!(r.redirected_to, None);
}

#[test]
fn visit_that_moves_is_redirect() {
    let mut c = crawler();
    let y = "https://lulzbot.com".to_string();
    c.record_visit(&y, rendered("https://lulzbot.com/home", "Home", &[]));
    let r = internal_record(&c, "https://lulzbot.com");
    assert_eq!(r.response_code, Some(300));
    assert_eq!(r.redirected_to, Some("https://lulzbot.com/home".to_string()));
}

#[test]
fn visit_with_marker_title_is_not_found() {
    let mut c = crawler();
    let w = "https://lulzbot.com".to_string();
    c.record_visit(&w, rendered("https://lulzbot.com", "Oops - Page Not Found", &[]));
    let r = internal_record(&c, "https://lulzbot.com");
    assert_eq!(r.response_code, Some(404));
    assert_eq!(r.redirected_to, None);
}

#[test]
fn failed_visit_is_server_error() {
    let mut c = crawler();
    let v = "https://lulzbot.com".to_string();
    c.record_visit(&v, Visit::Failed);
    let r = internal_record(&c, "https://lulzbot.com");
    assert_eq!(r.response_code, Some(FAILED_VISIT_CODE));
    assert_eq!(FAILED_VISIT_CODE, 500);
    assert_eq!(c.next_pending(), None);
}

#[test]
fn crawl_of_small_site_terminates() {
    // Four internal pages linking to each other and to one external page,
    // one of them a soft not-found page.
    let pages: Vec<(&str, &str, Vec<&str>)> = vec![
        ("https://lulzbot.com", "Home", vec!["/a", "/b#top", "https://makerbot.com/x"]),
        ("https://lulzbot.com/a", "A", vec!["#home", "/b", "c"]),
        ("https://lulzbot.com/b", "B", vec!["/a", "https://lulzbot.com/c"]),
        ("https://lulzbot.com/c", "Page Not Found", vec!["#top"]),
    ];
    let mut c = crawler();
    let mut steps = 0;
    while let Some(u) = c.next_pending() {
        steps += 1;
        assert!(steps <= 10, "crawl does not end");
        let page = pages.iter().find(|p| p.0 == u).expect("known page");
        c.record_visit(&u, rendered(page.0, page.1, &page.2));
    }
    let n = c.internal().len();
    assert_eq!(n, 4);
    assert!(c.visit_count() <= n);
    assert_eq!(c.visit_count(), steps);
    for r in c.internal().records() {
        assert!(r.response_code.is_some(), "{} still pending", r.full_path);
    }
    assert_eq!(internal_record(&c, "https://lulzbot.com/c").response_code, Some(404));
    assert_eq!(c.external().len(), 1);
    assert_eq!(c.external().records()[0].response_code, None);
}

#[test]
fn references_aggregate_across_pages() {
    let mut c = crawler();
    let home = "https://lulzbot.com".to_string();
    c.record_visit(&home, rendered("https://lulzbot.com", "Home", &["/a", "/b", "/b"]));
    let a = "https://lulzbot.com/a".to_string();
    c.record_visit(&a, rendered("https://lulzbot.com/a", "A", &["/b"]));
    let b = internal_record(&c, "https://lulzbot.com/b");
    assert_eq!(b.response_code, None);
    assert_eq!(
        b.site_references,
        vec![
            "https://lulzbot.com".to_string(),
            "https://lulzbot.com".to_string(),
            "https://lulzbot.com/a".to_string()
        ]
    );
}

#[test]
fn page_without_domain_uses_starting_domain() {
    let mut c = crawler();
    let home = "https://lulzbot.com".to_string();
    c.record_visit(
        &home,
        Visit::Rendered {
            current_url: "https://lulzbot.com".to_string(),
            page_domain: None,
            title: "Home".to_string(),
            hrefs: vec!["contact".to_string()],
        },
    );
    assert!(c.internal().get(&"https://lulzbot.com/contact".to_string()).is_some());
}

#[test]
fn empty_allow_list_defaults_to_starting_domain() {
    let mut c = Crawler::new(
        "https://lulzbot.com/shop".to_string(),
        Vec::new(),
        "Page Not Found".to_string(),
        "lulzbot.com".to_string(),
    );
    let home = "https://lulzbot.com/shop".to_string();
    c.record_visit(
        &home,
        rendered(
            "https://lulzbot.com/shop",
            "Shop",
            &["/a", "http://lulzbot.com/b", "https://shop.lulzbot.com/"],
        ),
    );
    assert_eq!(c.internal().len(), 3);
    assert_eq!(c.external().len(), 1);
    let start = internal_record(&c, "https://lulzbot.com/shop");
    assert_eq!(start.site_references, vec!["https://lulzbot.com/shop".to_string()]);
}

#[test]
fn external_batch_keeps_every_entry() {
    let mut index = UrlIndex::new();
    index_external_urls(
        vec![
            "https://a.org/".to_string(),
            "https://b.org/".to_string(),
            "https://c.org/".to_string(),
            "https://a.org/".to_string(),
        ],
        &mut index,
        "https://lulzbot.com".to_string(),
    );
    assert_eq!(index.len(), 3);
    assert_eq!(index.records()[0].site_references.len(), 2);
    let replies = vec![
        Some(HttpReply { status: 200, final_url: "https://a.org/".to_string() }),
        None,
        Some(HttpReply { status: 301, final_url: "https://c.org/new".to_string() }),
    ];
    merge_external_replies(&mut index, replies);
    assert_eq!(index.len(), 3);
    let r = index.records();
    assert_eq!(r[0].response_code, Some(200));
    assert_eq!(r[0].redirected_to, None);
    assert_eq!(r[1].response_code, None);
    assert_eq!(r[1].full_path, "https://b.org/");
    assert_eq!(r[2].response_code, Some(301));
    assert_eq!(r[2].redirected_to, Some("https://c.org/new".to_string()));
}

#[test]
fn reply_outside_redirect_range_keeps_destination_empty() {
    let mut u = Url::new("https://a.org/".to_string(), None, "https://lulzbot.com".to_string());
    u.record_reply(404, "https://a.org/".to_string());
    assert_eq!(u.response_code, Some(404));
    assert_eq!(u.redirected_to, None);
    u.record_reply(399, "https://a.org/x".to_string());
    assert_eq!(u.redirected_to, Some("https://a.org/x".to_string()));
}

#[test]
fn error_and_driver_kinds() {
    assert_eq!(WebDriver::GeckoDriver.program(), "geckodriver");
    let e = WebDriverError::UnableToCloseProgram("Driver wasn't running!".to_string());
    assert_eq!(e, WebDriverError::UnableToCloseProgram("Driver wasn't running!".to_string()));
    assert_ne!(FormattingError::ReadingFileError, FormattingError::WritingToFileError);
}
