use webcrawler::checker::{extract_domain_from_args, parse_url, MockArgsProvider};

#[test]
fn test_parse_url_success() {
    let url_str = "https://example.com";
    assert!(parse_url(url_str).is_ok());
}

#[test]
fn test_parse_url_failure() {
    let url_str = "invalid url";
    assert!(parse_url(url_str).is_err());
}

#[test]
fn test_extract_domain_from_correct_args() {
    let mock_args_provider = MockArgsProvider::new(vec![
        "program_name".to_string(),
        "https://example.com".to_string(),
    ]);

    let result = extract_domain_from_args(&mock_args_provider);
    assert_eq!(result.is_err(), false);
}

#[test]
fn test_extract_domain_from_wrong_args() {
    let mock_args_provider = MockArgsProvider::new(vec!["program_name".to_string()]);

    let result = extract_domain_from_args(&mock_args_provider);
    assert_eq!(result.is_err(), true);
    assert_eq!(
        result.err().unwrap(),
        "Please Provide 'One' Web Domain URL in the Terminal."
    );
}

#[test]
fn test_extract_domain_from_wrong_url() {
    let mock_args_provider =
        MockArgsProvider::new(vec!["program_name".to_string(), "//".to_string()]);

    let result = extract_domain_from_args(&mock_args_provider);
    assert_eq!(result.is_err(), true);
    assert_eq!(
        result.err().unwrap(),
        "Invalid URL: The Given Uri is not valid: //"
    );
}

#[test]
fn test_extract_domain_from_wrong_scheme() {
    let mock_args_provider = MockArgsProvider::new(vec![
        "program_name".to_string(),
        "http://www.snapchat.com".to_string(),
    ]);

    let result = extract_domain_from_args(&mock_args_provider);
    assert_eq!(result.is_err(), true);
    assert_eq!(
        result.err().unwrap(),
        "Invalid URL: The Given Uri is not valid: http://www.snapchat.com"
    );
}

#[test]
fn test_extract_domain_yields_host() {
    let mock_args_provider = MockArgsProvider::new(vec![
        "program_name".to_string(),
        "https://example.com/start".to_string(),
    ]);

    let (host, url) = extract_domain_from_args(&mock_args_provider).unwrap();
    assert_eq!(host, "example.com");
    assert_eq!(url.as_str(), "https://example.com/start");
    assert_eq!(url.host_str(), Some("example.com"));
}

#[test]
fn test_parse_url_scheme_check_is_textual() {
    // The validity check asks for `https://` anywhere in the text, so a
    // non-TLS scheme without that substring is rejected ...
    let result = parse_url("ftp://example.com/file");
    assert!(result.is_err());
    assert_eq!(
        result.err().unwrap(),
        "The Given Uri is not valid: ftp://example.com/file"
    );
    // ... while the substring appearing later in the URL satisfies it.
    assert!(parse_url("ftp://example.com/https://").is_ok());
}

#[test]
fn test_parse_url_uri_stage_failure() {
    // The web-URL parse accepts a space in the path (it encodes it), but
    // the URI parse of the raw text refuses it.
    let result = parse_url("https://example.com/a b");
    assert!(result.is_err());
    let msg = result.err().unwrap();
    assert!(msg.starts_with("Failed to parse URL to Uri: https://example.com/a b, "));
}
