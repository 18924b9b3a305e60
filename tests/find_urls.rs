use web_audit::normalize::{filter_domains, format_urls, is_internal};
use web_audit::record::Url;

#[test]
fn url_new_test() {
    let url = Url::new(
        "https://example.com".to_string(),
        None,
        "https://google.com/".to_string(),
    );
    assert_eq!(
        url,
        Url {
            full_path: "https://example.com".to_string(),
            response_code: None,
            site_references: vec!["https://google.com/".to_string()],
            redirected_to: None
        }
    )
}

#[test]
fn format_urls_test() {
    let urls: Vec<String> = vec![
        "#pop-up".to_string(),
        "/about-me".to_string(),
        "/support?search=3d+printers".to_string(),
        " https://lulzbot.com/3d-printers/".to_string(),
    ];

    let domain = "https://lulzbot.com".to_string();

    assert_eq!(
        format_urls(domain, urls),
        vec![
            "https://lulzbot.com".to_string(),
            "https://lulzbot.com/about-me".to_string(),
            "https://lulzbot.com/support?search=3d+printers".to_string(),
            "https://lulzbot.com/3d-printers/".to_string()
        ]
    );
}

#[test]
fn format_urls_test_no_https() {
    let urls: Vec<String> = vec![
        "#pop-up".to_string(),
        "/about-me".to_string(),
        "/support?search=3d+printers".to_string(),
        "https://lulzbot.com/3d-printers/".to_string(),
    ];

    let domain = "lulzbot.com".to_string();

    assert_eq!(
        format_urls(domain, urls),
        vec![
            "https://lulzbot.com".to_string(),
            "https://lulzbot.com/about-me".to_string(),
            "https://lulzbot.com/support?search=3d+printers".to_string(),
            "https://lulzbot.com/3d-printers/".to_string()
        ]
    );
}

#[test]
fn format_urls_test_no_slash() {
    let urls: Vec<String> = vec![
        "#pop-up".to_string(),
        "about-me".to_string(),
        "?search=3d+printers".to_string(),
        "https://learn.lulzbot.com/support/cura".to_string(),
    ];

    let domain = "lulzbot.com/".to_string();

    assert_eq!(
        format_urls(domain, urls),
        vec![
            "https://lulzbot.com".to_string(),
            "https://lulzbot.com/about-me".to_string(),
            "https://lulzbot.com?search=3d+printers".to_string(),
            "https://learn.lulzbot.com/support/cura".to_string(),
        ]
    );
}

#[test]
fn filter_domains_test() {
    let domains = vec![
        "lulzbot.com".to_string(),
        "www.lulzbot.com".to_string(),
        "shop.lulzbot.com".to_string(),
        "learn.lulzbot.com".to_string(),
    ];

    let urls: Vec<String> = vec![
        "https://lulzbot.com/3d-printers/".to_string(),
        "https://makerbot.com/3d-printers/".to_string(),
        "https://shop.lulzbot.com/3d-printers/".to_string(),
        " http://learn.lulzbot.com/learn/".to_string(),
        "/learn/here".to_string(),
    ];

    assert_eq!(
        filter_domains(urls, domains),
        (
            vec![
                "https://lulzbot.com/3d-printers/".to_string(),
                "https://shop.lulzbot.com/3d-printers/".to_string(),
                " http://learn.lulzbot.com/learn/".to_string(),
                "/learn/here".to_string(),
            ],
            vec!["https://makerbot.com/3d-printers/".to_string(),]
        )
    );
}

#[test]
fn filter_domains_test_question_mark() {
    let domains = vec![
        "lulzbot.com".to_string(),
        "www.lulzbot.com".to_string(),
        "shop.lulzbot.com".to_string(),
        "learn.lulzbot.com".to_string(),
    ];

    let urls: Vec<String> = vec![
        "https://lulzbot.com/3d-printers/".to_string(),
        "https://makerbot.com/3d-printers/".to_string(),
        "https://shop.lulzbot.com/3d-printers/".to_string(),
        "http://learn.lulzbot.com/learn/".to_string(),
        "?topic=Problem+Solving".to_string(),
    ];

    assert_eq!(
        filter_domains(urls, domains),
        (
            vec![
                "https://lulzbot.com/3d-printers/".to_string(),
                "https://shop.lulzbot.com/3d-printers/".to_string(),
                "http://learn.lulzbot.com/learn/".to_string(),
                "?topic=Problem+Solving".to_string(),
            ],
            vec!["https://makerbot.com/3d-printers/".to_string(),]
        )
    );
}

#[test]
fn filter_domains_test_limit_domains() {
    let domains = vec![
        "lulzbot.com".to_string(),
        "www.lulzbot.com".to_string(),
        "shop.lulzbot.com".to_string(),
        "learn.lulzbot.com".to_string(),
    ];

    let urls: Vec<String> = vec![
        "https://lulzbot.com/3d-printers/".to_string(),
        "https://makerbot.com/3d-printers/".to_string(),
        "https://shop.lulzbot.com/3d-printers/".to_string(),
        "http://learn.lulzbot.com/learn/".to_string(),
        "http://forum.lulzbot.com/learn/".to_string(),
        "/learn/here".to_string(),
    ];

    assert_eq!(
        filter_domains(urls, domains),
        (
            vec![
                "https://lulzbot.com/3d-printers/".to_string(),
                "https://shop.lulzbot.com/3d-printers/".to_string(),
                "http://learn.lulzbot.com/learn/".to_string(),
                "/learn/here".to_string(),
            ],
            vec![
                "https://makerbot.com/3d-printers/".to_string(),
                "http://forum.lulzbot.com/learn/".to_string(),
            ]
        )
    );
}

#[test]
fn is_internal_test() {
    let domains = vec!["example.com".to_string(), "www.example.com".to_string()];

    assert!(is_internal("https://example.com/abs".to_string(), &domains));
    assert!(is_internal("/abs".to_string(), &domains));
    assert!(is_internal("?abs".to_string(), &domains));
    assert!(is_internal("abs".to_string(), &domains));
}

#[test]
fn url_set_redirection_test() {
    let mut url = Url::new(
        "https://example.com/base".to_string(),
        Some(301),
        "https://example.com".to_string(),
    );
    let destination = String::from("https://example.com/redirected");

    url.set_redirection(destination);

    assert_eq!(
        url,
        Url {
            full_path: String::from("https://example.com/base"),
            response_code: Some(301),
            site_references: vec!["https://example.com".to_string()],
            redirected_to: Some(String::from("https://example.com/redirected"))
        }
    )
}

#[test]
fn url_add_reference_test() {
    let mut url = Url::new(
        "https://example.com/base".to_string(),
        Some(301),
        "https://example.com".to_string(),
    );
    let destination = String::from("https://example.com/redirected");

    url.add_reference(destination.clone());

    assert_eq!(
        url,
        Url {
            full_path: String::from("https://example.com/base"),
            response_code: Some(301),
            site_references: vec!["https://example.com".to_string(), destination.to_string()],
            redirected_to: None
        }
    )
}
