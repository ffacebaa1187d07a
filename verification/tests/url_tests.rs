use antithesis_browser::origin::{is_within_domain, parse_browser_url, UrlParts};
use url::Url;

#[test]
fn test_parse_browser_url_file_name() {
    let url = parse_browser_url("foo.html", "https://example.com").unwrap();
    assert_eq!(url.to_string(), "https://example.com/foo.html");
}

#[test]
fn test_parse_browser_url_absolute_path() {
    let url = parse_browser_url("/foo/bar.html", "https://example.com").unwrap();
    assert_eq!(url.to_string(), "https://example.com/foo/bar.html");
}

#[test]
fn test_parse_browser_url_blank_scheme() {
    let url = parse_browser_url("//other.example.com/foo/bar.html", "https://example.com").unwrap();
    assert_eq!(url.to_string(), "https://other.example.com/foo/bar.html");
}

#[test]
fn test_parse_browser_url_query_and_fragment() {
    let url = parse_browser_url("/foo/bar.html?foo=bar#baz", "https://example.com").unwrap();
    assert_eq!(url.to_string(), "https://example.com/foo/bar.html?foo=bar#baz");
}

#[test]
fn test_parse_browser_url_relative() {
    let url = parse_browser_url("../baz.html", "https://example.com/foo/bar/baz/").unwrap();
    assert_eq!(url.to_string(), "https://example.com/foo/bar/baz.html");
}

#[test]
fn test_parse_browser_url_mailto() {
    let url = parse_browser_url("mailto:me@example.com", "https://example.com").unwrap();
    assert_eq!(url.to_string(), "mailto:me@example.com");
}

#[test]
fn parse_browser_url_rejects_unparsable_context() {
    assert!(parse_browser_url("foo.html", "not an absolute url").is_err());
    assert!(parse_browser_url("http://[broken", "https://example.com").is_err());
}

fn parts_of(u: &Url) -> UrlParts {
    UrlParts {
        host: u.host_str().map(|h| h.to_string()),
        port: u.port(),
    }
}

#[test]
fn within_domain_same_host() {
    let origin = parts_of(&Url::parse("http://localhost:8080").unwrap());
    let same = parts_of(&Url::parse("http://localhost:8080/page").unwrap());
    assert!(is_within_domain(&same, &origin));
}

#[test]
fn within_domain_other_host_or_port() {
    let origin = parts_of(&Url::parse("http://localhost:8080").unwrap());
    let other_host = parts_of(&Url::parse("http://example.com:8080/").unwrap());
    let other_port = parts_of(&Url::parse("http://localhost:9090/").unwrap());
    assert!(!is_within_domain(&other_host, &origin));
    assert!(!is_within_domain(&other_port, &origin));
}

#[test]
fn within_domain_hostless_uri_passes() {
    let origin = parts_of(&Url::parse("http://localhost:8080").unwrap());
    let mailto = parts_of(&Url::parse("mailto:me@example.com").unwrap());
    assert!(is_within_domain(&mailto, &origin));
}
