use webcrawler::html_parser::{get_urls, Sink};

#[test]
fn test_get_urls() {
    let target_domain = "example.com";
    let html_content = r#"
        <html>
            <body>
                <a href="https://example.com/page1">Page 1</a>
                <a href="https://example.com/page2">Page 2</a>
                <a href="/page3">Page 3 Relative Path</a>
                <a href=`#page4`>Fragment Identifier</a>
                <a href="https://notexample.com/page5">External</a>
                <a href="http://example.com/page6">Non-HTTPS</a>
            </body>
        </html>
    "#;

    let result = get_urls(target_domain, html_content);

    assert!(result.is_ok());
    let urls = result.unwrap();
    // All https URLs from example.com should be included
    // Relative URL should be included
    assert_eq!(urls.len(), 3);
    assert!(urls.contains(&"https://example.com/page1".to_string()));
    assert!(urls.contains(&"https://example.com/page2".to_string()));
    assert!(urls.contains(&"https://example.com/page3".to_string()));
}

#[test]
fn test_is_same_domain() {
    let sink = Sink::new("example.com");

    // Test URL that matches the domain and is HTTPS
    assert!(sink.is_same_domain("https://example.com/page1"));

    // Test URL that does not match the domain
    assert!(!sink.is_same_domain("https://notexample.com/page1"));

    // Test URL that matches the domain but is not HTTPS
    assert!(!sink.is_same_domain("http://example.com/page1"));

    // Test URL that is malformed
    assert!(!sink.is_same_domain("ht://example.com/page1"));
}

#[test]
fn test_is_media_or_document_url() {
    assert!(Sink::is_media_or_document_url("https://example.com/image.jpg"));
    assert!(Sink::is_media_or_document_url("https://example.com/doc.pdf"));
    // Not a media/document
    assert!(!Sink::is_media_or_document_url("https://example.com/page.html"));
}

#[test]
fn test_extraction_is_deterministic() {
    let target_domain = "example.com";
    let html = "<a href=\"/x\">x</a><a href=\"https://example.com/y\">y</a>";
    let first = get_urls(target_domain, html).unwrap();
    let second = get_urls(target_domain, html).unwrap();
    assert_eq!(first, second);
    assert_eq!(
        first,
        vec![
            "https://example.com/x".to_string(),
            "https://example.com/y".to_string()
        ]
    );
}

#[test]
fn test_extraction_filters() {
    let target_domain = "example.com";
    // Same-domain https link with a harmless path: included.
    let urls = get_urls(target_domain, "<a href=\"https://example.com/ok\">x</a>").unwrap();
    assert_eq!(urls, vec!["https://example.com/ok".to_string()]);

    // External-domain link: excluded.
    let urls = get_urls(target_domain, "<a href=\"https://other.com/ok\">x</a>").unwrap();
    assert!(urls.is_empty());

    // Non-TLS same-domain link: excluded.
    let urls = get_urls(target_domain, "<a href=\"http://example.com/ok\">x</a>").unwrap();
    assert!(urls.is_empty());

    // Root-relative link: resolved against the domain and included.
    let urls = get_urls(target_domain, "<a href=\"/x\">x</a>").unwrap();
    assert_eq!(urls, vec!["https://example.com/x".to_string()]);

    // A .pdf link: excluded even though domain and scheme are right.
    let urls = get_urls(target_domain, "<a href=\"https://example.com/a.pdf\">x</a>").unwrap();
    assert!(urls.is_empty());

    // Extension check is case-insensitive.
    let urls = get_urls(target_domain, "<a href=\"https://example.com/a.PDF\">x</a>").unwrap();
    assert!(urls.is_empty());
}

#[test]
fn test_extraction_tolerates_malformed_markup() {
    let target_domain = "example.com";
    // Truncated tag at the end of input: dropped, no panic.
    let urls = get_urls(target_domain, "<a href=\"https://example.com/kept\">k</a><a href=\"https://example.com/lost").unwrap();
    assert_eq!(urls, vec!["https://example.com/kept".to_string()]);

    // An anchor with no href, single-quoted and unquoted values, stray `<`.
    let html = "<<a href='/sq'>s</a><a>none</a><p href=\"/not-anchor\"></p><a href=/unq>u</a>";
    let urls = get_urls(target_domain, html).unwrap();
    assert_eq!(
        urls,
        vec![
            "https://example.com/sq".to_string(),
            "https://example.com/unq".to_string()
        ]
    );
}

#[test]
fn test_extraction_keeps_duplicates_in_order() {
    let target_domain = "example.com";
    let html = "<a href=\"/a\">1</a><a href=\"/b\">2</a><a href=\"/a\">3</a>";
    let urls = get_urls(target_domain, html).unwrap();
    assert_eq!(
        urls,
        vec![
            "https://example.com/a".to_string(),
            "https://example.com/b".to_string(),
            "https://example.com/a".to_string()
        ]
    );
}
