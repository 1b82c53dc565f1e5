use rinton::url::Url;

#[test]
fn test_url_parse() {
    let url = Url::parse("https://example.com:8080/path/to/somewhere?query#fragment");
    assert_eq!(url.scheme, "https");
    assert_eq!(url.user_info, None);
    assert_eq!(url.domain, "example.com");
    assert_eq!(url.port, Some(8080));
    assert_eq!(url.path, "/path/to/somewhere");
    assert_eq!(url.query, Some("query".to_string()));
    assert_eq!(url.fragment, Some("fragment".to_string()));

    let url = Url::parse("https://example.com/path/to/somewhere?query#fragment");
    assert_eq!(url.scheme, "https");
    assert_eq!(url.user_info, None);
    assert_eq!(url.domain, "example.com");
    assert_eq!(url.port, None);
    assert_eq!(url.path, "/path/to/somewhere");
    assert_eq!(url.query, Some("query".to_string()));
    assert_eq!(url.fragment, Some("fragment".to_string()));

    let url = Url::parse("https://example.com/path/to/somewhere#fragment");
    assert_eq!(url.scheme, "https");
    assert_eq!(url.user_info, None);
    assert_eq!(url.domain, "example.com");
    assert_eq!(url.port, None);
    assert_eq!(url.path, "/path/to/somewhere");
    assert_eq!(url.query, None);
    assert_eq!(url.fragment, Some("fragment".to_string()));

    let url = Url::parse("https://example.com/path/to/somewhere?foo=bar");
    assert_eq!(url.scheme, "https");
    assert_eq!(url.user_info, None);
    assert_eq!(url.domain, "example.com");
    assert_eq!(url.port, None);
    assert_eq!(url.path, "/path/to/somewhere");
    assert_eq!(url.query, Some("foo=bar".to_string()));
    assert_eq!(url.fragment, None);

    let url = Url::parse("https://example.com/path/to/somewhere");
    assert_eq!(url.scheme, "https");
    assert_eq!(url.user_info, None);
    assert_eq!(url.domain, "example.com");
    assert_eq!(url.port, None);
    assert_eq!(url.path, "/path/to/somewhere");
    assert_eq!(url.query, None);
    assert_eq!(url.fragment, None);

    let url = Url::parse("https://example.com");
    assert_eq!(url.scheme, "https");
    assert_eq!(url.user_info, None);
    assert_eq!(url.domain, "example.com");
    assert_eq!(url.port, None);
    assert_eq!(url.path, "/");
    assert_eq!(url.query, None);
    assert_eq!(url.fragment, None);
}

#[test]
fn test_query_pairs() {
    let url = Url::parse("https://example.com/path/to/somewhere?foo=bar&baz=qux");
    let pairs = url.query_pairs();
    assert_eq!(pairs.len(), 2);
    assert_eq!(pairs.get("foo"), Some(&"bar".to_string()));
    assert_eq!(pairs.get("baz"), Some(&"qux".to_string()));
}
