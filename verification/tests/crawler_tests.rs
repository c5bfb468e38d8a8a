use webcrawler::checker::parse_url;
use webcrawler::crawler::Frontier;
use webcrawler::html_parser::get_urls;

#[test]
fn test_admit_exactly_once() {
    let seed = parse_url("https://example.com/start").unwrap();
    let mut frontier = Frontier::new(seed);

    // The seed is already admitted: a second admission is refused.
    let again = parse_url("https://example.com/start").unwrap();
    assert!(!frontier.try_admit(again));

    // A never-seen URL is admitted exactly once.
    let fresh = parse_url("https://example.com/page1").unwrap();
    assert!(frontier.try_admit(fresh));
    let fresh_again = parse_url("https://example.com/page1").unwrap();
    assert!(!frontier.try_admit(fresh_again));

    assert_eq!(frontier.visited_count(), 2);
    assert_eq!(frontier.pending_count(), 2);
}

#[test]
fn test_take_next_drains_without_refetch() {
    let seed = parse_url("https://example.com/start").unwrap();
    let mut frontier = Frontier::new(seed);
    let p1 = parse_url("https://example.com/p1").unwrap();
    assert!(frontier.try_admit(p1));

    let mut drawn = Vec::new();
    while let Some(u) = frontier.take_next() {
        drawn.push(u.as_str().to_string());
        frontier.admit_links(&Vec::new());
    }
    drawn.sort();
    assert_eq!(
        drawn,
        vec![
            "https://example.com/p1".to_string(),
            "https://example.com/start".to_string()
        ]
    );
    // No URL was drawn twice, and everything admitted was drawn.
    assert_eq!(drawn.len(), frontier.visited_count());
    assert!(frontier.is_quiescent());
}

#[test]
fn test_crawl_loop_visits_each_url_once() {
    // A three-page site, crawled through the frontier exactly as a worker
    // would: every admitted URL is fetched once, and the number of fetches
    // equals the final visited count.
    let pages = [
        (
            "https://example.com/",
            "<a href=\"/a\">a</a><a href=\"/b\">b</a>",
        ),
        ("https://example.com/a", "<a href=\"/b\">b</a><a href=\"/\">home</a>"),
        ("https://example.com/b", "<a href=\"/a\">a</a>"),
    ];
    let seed = parse_url("https://example.com/").unwrap();
    let mut frontier = Frontier::new(seed);
    let mut fetched = Vec::new();
    while let Some(url) = frontier.take_next() {
        let text = url.as_str().to_string();
        assert!(!fetched.contains(&text), "a URL was fetched twice");
        let body = pages
            .iter()
            .find(|(u, _)| *u == text)
            .map(|(_, b)| *b)
            .unwrap_or("");
        fetched.push(text);
        let links = get_urls("example.com", body).unwrap();
        frontier.admit_links(&links);
    }
    assert!(frontier.is_quiescent());
    assert_eq!(fetched.len(), 3);
    assert_eq!(fetched.len(), frontier.visited_count());
}

#[test]
fn test_failed_fetch_contributes_nothing() {
    // A fetch failure hands the frontier an empty link list: the URL stays
    // visited, is never retried, and the rest of the crawl completes.
    let seed = parse_url("https://example.com/").unwrap();
    let mut frontier = Frontier::new(seed);
    let first = frontier.take_next().unwrap();
    assert_eq!(first.as_str(), "https://example.com/");
    // The fetch of the seed succeeds and discovers two pages.
    let links = get_urls(
        "example.com",
        "<a href=\"/broken\">x</a><a href=\"/fine\">y</a>",
    )
    .unwrap();
    frontier.admit_links(&links);

    let mut completed = Vec::new();
    while let Some(url) = frontier.take_next() {
        let text = url.as_str().to_string();
        if text == "https://example.com/broken" {
            // Connection refused: no links from this URL.
            frontier.admit_links(&Vec::new());
        } else {
            frontier.admit_links(&get_urls("example.com", "<a href=\"/broken\">x</a>").unwrap());
        }
        completed.push(text);
    }
    assert!(frontier.is_quiescent());
    assert_eq!(completed.len(), 2);
    assert_eq!(frontier.visited_count(), 3);
    assert_eq!(frontier.pending_count(), 0);
}

#[test]
fn test_malformed_links_are_dropped_at_admission() {
    let seed = parse_url("https://example.com/").unwrap();
    let mut frontier = Frontier::new(seed);
    let _ = frontier.take_next().unwrap();
    let candidates = vec![
        "https://example.com/good".to_string(),
        "not a url".to_string(),
        "http://example.com/wrong-scheme".to_string(),
    ];
    frontier.admit_links(&candidates);
    // Only the well-formed https link entered the frontier.
    assert_eq!(frontier.visited_count(), 2);
    assert_eq!(frontier.pending_count(), 1);
}

#[test]
fn test_in_flight_counts_unfinished_fetches() {
    let seed = parse_url("https://example.com/").unwrap();
    let mut frontier = Frontier::new(seed);
    assert_eq!(frontier.in_flight_count(), 0);
    let _ = frontier.take_next().unwrap();
    // The frontier is empty but a fetch is still in flight: not quiescent.
    assert_eq!(frontier.pending_count(), 0);
    assert_eq!(frontier.in_flight_count(), 1);
    assert!(!frontier.is_quiescent());
    frontier.admit_links(&Vec::new());
    assert_eq!(frontier.in_flight_count(), 0);
    assert!(frontier.is_quiescent());
}
