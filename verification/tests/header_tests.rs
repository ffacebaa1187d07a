use antithesis_browser::headers::{
    build_response_headers, source_id, HeaderEntry, ResourceType, SourceId,
};

fn hdr(name: &str, value: &str) -> HeaderEntry {
    HeaderEntry {
        name: name.to_string(),
        value: value.to_string(),
    }
}

fn sid(n: u32) -> SourceId {
    SourceId::hash(&n.to_string())
}

const STRIPPED: &[&str] = &[
    "etag",
    "content-length",
    "content-encoding",
    "transfer-encoding",
    "digest",
];

#[test]
fn build_headers_strips_stripped_headers() {
    // Every stripped header must be absent from the output.
    let headers = Some(vec![
        hdr("etag", "\"upstream\""),
        hdr("content-length", "1234"),
        hdr("content-encoding", "gzip"),
        hdr("transfer-encoding", "chunked"),
        hdr("digest", "sha-256=abc"),
        hdr("content-type", "text/javascript"),
    ]);
    let result = build_response_headers(&headers, &ResourceType::Script, sid(1));
    let names: Vec<&str> = result.iter().map(|h| h.name.as_str()).collect();
    for stripped in STRIPPED {
        // The synthetic etag is allowed; it is the only etag in the output.
        if *stripped == "etag" {
            continue;
        }
        assert!(
            !names.iter().any(|n| n.eq_ignore_ascii_case(stripped)),
            "header {stripped} should have been stripped"
        );
    }
}

#[test]
fn build_headers_preserves_content_type() {
    // content-type is not stripped and must pass through verbatim;
    // module scripts rely on it.
    let headers = Some(vec![hdr("content-type", "text/javascript; charset=utf-8")]);
    let result = build_response_headers(&headers, &ResourceType::Script, sid(2));
    assert!(
        result
            .iter()
            .any(|h| h.name == "content-type" && h.value == "text/javascript; charset=utf-8"),
        "content-type must be preserved"
    );
}

#[test]
fn build_headers_drops_csp_for_script_resources() {
    let headers = Some(vec![
        hdr("content-security-policy", "script-src 'self'"),
        hdr("content-type", "text/javascript"),
    ]);
    let result = build_response_headers(&headers, &ResourceType::Script, sid(3));
    assert!(
        !result
            .iter()
            .any(|h| h.name.eq_ignore_ascii_case("content-security-policy")),
        "CSP must be dropped for Script resources"
    );
}

#[test]
fn build_headers_sanitizes_csp_for_document_resources() {
    let headers = Some(vec![hdr(
        "content-security-policy",
        "script-src 'sha256-abc' 'self'; img-src 'self'",
    )]);
    let result = build_response_headers(&headers, &ResourceType::Document, sid(4));
    let csp = result
        .iter()
        .find(|h| h.name.eq_ignore_ascii_case("content-security-policy"))
        .expect("sanitized CSP must be present for Document resources");
    assert_eq!(csp.value, "script-src 'self'; img-src 'self'");
}

#[test]
fn build_headers_drops_report_only_csp_for_script_resources() {
    let headers = Some(vec![
        hdr("content-security-policy-report-only", "script-src 'self'"),
        hdr("content-type", "text/javascript"),
    ]);
    let result = build_response_headers(&headers, &ResourceType::Script, sid(5));
    assert!(
        !result
            .iter()
            .any(|h| h.name.eq_ignore_ascii_case("content-security-policy-report-only")),
        "report-only CSP must be dropped for Script resources"
    );
}

#[test]
fn build_headers_sanitizes_report_only_csp_for_document_resources() {
    let headers = Some(vec![hdr(
        "content-security-policy-report-only",
        "script-src 'sha256-abc' 'self'; img-src 'self'",
    )]);
    let result = build_response_headers(&headers, &ResourceType::Document, sid(6));
    let csp = result
        .iter()
        .find(|h| h.name.eq_ignore_ascii_case("content-security-policy-report-only"))
        .expect("sanitized report-only CSP must be present for Document resources");
    assert_eq!(csp.value, "script-src 'self'; img-src 'self'");
}

#[test]
fn build_headers_appends_synthetic_etag() {
    let source = sid(42);
    let result = build_response_headers(&None, &ResourceType::Script, source);
    let etag = result
        .iter()
        .find(|h| h.name == "etag")
        .expect("synthetic etag must always be present");
    assert_eq!(etag.value, format!("{}", source.0));
}

#[test]
fn build_headers_none_headers_yields_only_synthetic_etag() {
    let result = build_response_headers(&None, &ResourceType::Script, sid(7));
    assert_eq!(result.len(), 1);
    assert_eq!(result[0].name, "etag");
}

#[test]
fn build_headers_non_csp_non_stripped_pass_through() {
    let headers = Some(vec![
        hdr("x-custom-header", "keep-me"),
        hdr("cache-control", "no-cache"),
    ]);
    let result = build_response_headers(&headers, &ResourceType::Script, sid(8));
    assert!(result
        .iter()
        .any(|h| h.name == "x-custom-header" && h.value == "keep-me"));
    assert!(result
        .iter()
        .any(|h| h.name == "cache-control" && h.value == "no-cache"));
}

#[test]
fn build_headers_script_exact_output() {
    // A script response keeps content-type verbatim, loses the upstream
    // etag, and gains exactly one synthetic etag carrying the source id.
    let headers = Some(vec![
        hdr("content-type", "text/javascript"),
        hdr("etag", "W/\"abc\""),
    ]);
    let result = build_response_headers(&headers, &ResourceType::Script, SourceId(42));
    assert_eq!(result.len(), 2);
    assert_eq!(result[0].name, "content-type");
    assert_eq!(result[0].value, "text/javascript");
    assert_eq!(result[1].name, "etag");
    assert_eq!(result[1].value, "42");
}

#[test]
fn build_headers_other_resource_keeps_csp() {
    let headers = Some(vec![hdr("content-security-policy", "script-src 'sha256-a'")]);
    let result = build_response_headers(&headers, &ResourceType::Other, sid(9));
    let csp = result
        .iter()
        .find(|h| h.name.eq_ignore_ascii_case("content-security-policy"))
        .expect("CSP must be forwarded unchanged for other resource types");
    assert_eq!(csp.value, "script-src 'sha256-a'");
}

#[test]
fn source_id_prefers_etag() {
    let with_etag = vec![hdr("content-type", "text/html"), hdr("ETag", "\"abc\"")];
    let body = "<html></html>";
    assert_eq!(
        source_id(&with_etag, body).0,
        SourceId::hash("\"abc\"").0,
        "an upstream etag must decide the source id"
    );
    let without = vec![hdr("content-type", "text/html")];
    assert_eq!(source_id(&without, body).0, SourceId::hash(body).0);
}

#[test]
fn source_id_is_deterministic() {
    assert_eq!(SourceId::hash("same input").0, SourceId::hash("same input").0);
    assert_ne!(SourceId::hash("one").0, SourceId::hash("two").0);
}
