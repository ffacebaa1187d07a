use antithesis_browser::csp::sanitize_csp;

#[test]
fn sanitize_csp_removes_sha256() {
    assert_eq!(
        sanitize_csp("script-src 'sha256-abc123=' 'unsafe-inline'"),
        Some("script-src 'unsafe-inline'".to_string())
    );
}

#[test]
fn sanitize_csp_removes_sha384() {
    assert_eq!(
        sanitize_csp("script-src 'sha384-abc123=' 'self'"),
        Some("script-src 'self'".to_string())
    );
}

#[test]
fn sanitize_csp_removes_sha512() {
    assert_eq!(
        sanitize_csp("script-src 'sha512-abc123=' 'self'"),
        Some("script-src 'self'".to_string())
    );
}

#[test]
fn sanitize_csp_removes_nonce() {
    assert_eq!(
        sanitize_csp("script-src 'nonce-xyz123' 'self'"),
        Some("script-src 'self'".to_string())
    );
}

#[test]
fn sanitize_csp_mixed_directives() {
    assert_eq!(
        sanitize_csp("script-src 'sha256-abc' 'self'; img-src 'self'"),
        Some("script-src 'self'; img-src 'self'".to_string())
    );
}

#[test]
fn sanitize_csp_no_script_src() {
    assert_eq!(
        sanitize_csp("img-src 'self'; frame-ancestors 'none'"),
        Some("img-src 'self'; frame-ancestors 'none'".to_string())
    );
}

#[test]
fn sanitize_csp_empty_result() {
    assert_eq!(sanitize_csp("script-src 'sha256-abc'"), None);
}

#[test]
fn sanitize_csp_multiple_hashes_with_safe_value() {
    assert_eq!(
        sanitize_csp("script-src 'sha256-a' 'sha384-b' 'sha512-c' 'nonce-xyz' 'self'"),
        Some("script-src 'self'".to_string())
    );
}

#[test]
fn sanitize_csp_only_hash_directive_removed_others_kept() {
    assert_eq!(
        sanitize_csp("script-src 'sha256-a'; default-src 'self'"),
        Some("default-src 'self'".to_string())
    );
}

#[test]
fn sanitize_csp_script_src_elem() {
    assert_eq!(
        sanitize_csp("script-src-elem 'sha256-abc' 'unsafe-inline'"),
        Some("script-src-elem 'unsafe-inline'".to_string())
    );
}

#[test]
fn sanitize_csp_default_src_hash_stripped_when_no_script_src() {
    // No script-src/script-src-elem present, so default-src hashes must be stripped.
    assert_eq!(
        sanitize_csp("default-src 'sha256-abc' 'self'"),
        Some("default-src 'self'".to_string())
    );
}

#[test]
fn sanitize_csp_default_src_not_touched_when_script_src_present() {
    // An explicit script-src is present, so default-src is left alone.
    assert_eq!(
        sanitize_csp("default-src 'sha256-abc' 'self'; script-src 'unsafe-inline'"),
        Some("default-src 'sha256-abc' 'self'; script-src 'unsafe-inline'".to_string())
    );
}

#[test]
fn sanitize_csp_default_src_only_hashes_omitted_when_no_script_src() {
    // All values are hashes, so the directive is omitted entirely.
    assert_eq!(sanitize_csp("default-src 'sha256-abc'"), None);
}

#[test]
fn sanitize_csp_strict_dynamic_removed_with_nonce() {
    // The nonce is stripped, so 'strict-dynamic' loses its trust anchor and goes too.
    assert_eq!(sanitize_csp("script-src 'nonce-abc' 'strict-dynamic'"), None);
}

#[test]
fn sanitize_csp_strict_dynamic_removed_keeps_other_values() {
    assert_eq!(
        sanitize_csp("script-src 'nonce-abc' 'strict-dynamic' 'self'"),
        Some("script-src 'self'".to_string())
    );
}

#[test]
fn sanitize_csp_strict_dynamic_removed_with_hash() {
    assert_eq!(sanitize_csp("script-src 'sha256-abc' 'strict-dynamic'"), None);
}

#[test]
fn sanitize_csp_strips_report_uri() {
    assert_eq!(
        sanitize_csp("script-src 'sha256-abc' 'self'; report-uri /csp-report"),
        Some("script-src 'self'".to_string())
    );
}

#[test]
fn sanitize_csp_strips_report_to() {
    assert_eq!(
        sanitize_csp("script-src 'self'; report-to csp-group"),
        Some("script-src 'self'".to_string())
    );
}

#[test]
fn sanitize_csp_strips_both_report_directives() {
    assert_eq!(
        sanitize_csp("default-src 'self'; report-uri /r; report-to g"),
        Some("default-src 'self'".to_string())
    );
}

#[test]
fn sanitize_csp_normalises_whitespace() {
    // Clean directives survive with their values, whitespace normalised
    // in processed directives and separators.
    assert_eq!(
        sanitize_csp("script-src   'self'    'unsafe-inline' ;  img-src 'self'"),
        Some("script-src 'self' 'unsafe-inline'; img-src 'self'".to_string())
    );
}

#[test]
fn sanitize_csp_is_stable_on_own_output() {
    // Sanitising a sanitised policy changes nothing further.
    let once = sanitize_csp("script-src 'sha256-abc' 'self'; img-src 'self'; report-uri /r")
        .unwrap();
    let twice = sanitize_csp(&once).unwrap();
    assert_eq!(once, twice);
}

#[test]
fn sanitize_csp_case_insensitive_names() {
    assert_eq!(
        sanitize_csp("SCRIPT-SRC 'SHA256-abc' 'self'; Report-URI /r"),
        Some("SCRIPT-SRC 'self'".to_string())
    );
}
