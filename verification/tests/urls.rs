use kube_cel::urls::{is_url, parse_url, KubeUrl};

fn url(s: &str) -> KubeUrl {
    parse_url(s).unwrap()
}

#[test]
fn test_is_url() {
    assert!(is_url("https://example.com"));
    assert!(is_url("/absolute/path"));
    assert!(!is_url("not a url"));
}

#[test]
fn test_get_scheme() {
    assert_eq!(url("https://example.com").get_scheme(), "https");
}

#[test]
fn test_get_host() {
    assert_eq!(url("https://example.com:8080/path").get_host(), "example.com:8080");
}

#[test]
fn test_get_hostname() {
    assert_eq!(url("https://example.com:8080/path").get_hostname(), "example.com");
}

#[test]
fn test_get_port() {
    assert_eq!(url("https://example.com:8080").get_port(), "8080");
    assert_eq!(url("https://example.com").get_port(), "");
}

#[test]
fn test_get_escaped_path() {
    assert_eq!(url("https://example.com/my%20path").get_escaped_path(), "/my%20path");
}

#[test]
fn test_url_invalid() {
    assert!(parse_url("not a url").is_err());
}

#[test]
fn test_absolute_path_scheme() {
    assert_eq!(url("/some/path").get_scheme(), "");
}

#[test]
fn test_get_host_no_port() {
    assert_eq!(url("https://example.com/path").get_host(), "example.com");
}

#[test]
fn test_get_port_no_port() {
    assert_eq!(url("https://example.com").get_port(), "");
}

#[test]
fn test_get_query_multi_value() {
    let q = url("https://example.com?a=1&a=2&b=3").get_query();
    let a = q.iter().find(|(k, _)| k == "a").unwrap();
    assert_eq!(a.1, vec!["1".to_string(), "2".to_string()]);
}

#[test]
fn test_get_query_no_query() {
    assert!(url("https://example.com/path").get_query().is_empty());
}

#[test]
fn test_different_schemes() {
    assert_eq!(url("http://example.com").get_scheme(), "http");
    assert_eq!(url("ftp://example.com").get_scheme(), "ftp");
}

// Edge cases of this library.

#[test]
fn ipv6_hostname_loses_brackets() {
    let u = url("http://[::1]:8080/x");
    assert_eq!(u.get_host(), "[::1]:8080");
    assert_eq!(u.get_hostname(), "::1");
}

#[test]
fn query_keys_keep_first_appearance_order() {
    let q = url("https://example.com?b=1&a=2&b=3").get_query();
    let keys: Vec<&str> = q.iter().map(|(k, _)| k.as_str()).collect();
    assert_eq!(keys, vec!["b", "a"]);
    assert_eq!(q[0].1, vec!["1".to_string(), "3".to_string()]);
}

#[test]
fn absolute_path_reads_against_localhost() {
    let u = url("/a/b?x=1");
    assert_eq!(u.get_hostname(), "localhost");
    assert_eq!(u.get_escaped_path(), "/a/b");
    assert!(u.same_as(&url("http://localhost/a/b?x=1")));
}

#[test]
fn invalid_url_message_is_prefixed() {
    assert!(parse_url("not a url").unwrap_err().starts_with("invalid URL: "));
}
