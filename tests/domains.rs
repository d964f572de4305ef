use story_pipeline::domain::extract_domain;

#[test]
fn strips_www_and_path() {
    assert_eq!(extract_domain("https://www.example.com/a/b"), Some("example.com".to_string()));
}

#[test]
fn keeps_subdomain() {
    assert_eq!(extract_domain("http://sub.example.com"), Some("sub.example.com".to_string()));
}

#[test]
fn no_scheme_separator_gives_no_domain() {
    assert_eq!(extract_domain("example.com/a"), None);
    assert_eq!(extract_domain(""), None);
}

#[test]
fn host_is_lower_cased() {
    assert_eq!(extract_domain("https://WWW.Example.COM/Path"), Some("example.com".to_string()));
}

#[test]
fn every_leading_www_is_stripped() {
    assert_eq!(extract_domain("https://www.www.x.org"), Some("x.org".to_string()));
}

#[test]
fn empty_host_gives_no_domain() {
    assert_eq!(extract_domain("file:///etc/hosts"), None);
    assert_eq!(extract_domain("https://www./x"), None);
}

#[test]
fn query_and_fragment_are_discarded() {
    assert_eq!(extract_domain("https://x.com?q=1"), Some("x.com".to_string()));
    assert_eq!(extract_domain("https://x.com#top"), Some("x.com".to_string()));
}
