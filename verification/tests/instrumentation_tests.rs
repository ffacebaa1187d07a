use antithesis_browser::headers::{HeaderEntry, ResourceType};
use antithesis_browser::instrumentation::{
    classify_interception, decode_response_body, is_html_document, BodyError, InterceptDecision,
};
use base64::Engine;

fn hdr(name: &str, value: &str) -> HeaderEntry {
    HeaderEntry {
        name: name.to_string(),
        value: value.to_string(),
    }
}

#[test]
fn decode_plain_body_passes_through() {
    assert_eq!(
        decode_response_body("console.log(1)", false),
        Ok("console.log(1)".to_string())
    );
}

#[test]
fn decode_base64_body() {
    let encoded = base64::prelude::BASE64_STANDARD.encode("var x = 1;");
    assert_eq!(decode_response_body(&encoded, true), Ok("var x = 1;".to_string()));
}

#[test]
fn decode_rejects_invalid_base64() {
    assert_eq!(
        decode_response_body("not valid base64!!!", true),
        Err(BodyError::Base64)
    );
}

#[test]
fn decode_rejects_invalid_utf8() {
    let encoded = base64::prelude::BASE64_STANDARD.encode([0xff, 0xfe, 0x00, 0x80]);
    assert_eq!(decode_response_body(&encoded, true), Err(BodyError::Utf8));
}

#[test]
fn html_detection_prefers_content_type() {
    let html = vec![hdr("Content-Type", "text/html; charset=utf-8")];
    assert!(is_html_document(&html, "<?xml version=\"1.0\"?>"));
    let xml = vec![hdr("content-type", "application/xml")];
    assert!(!is_html_document(&xml, "<!doctype html>"));
}

#[test]
fn html_detection_falls_back_to_body() {
    let none: Vec<HeaderEntry> = vec![];
    assert!(is_html_document(&none, "<!doctype html><html></html>"));
    assert!(!is_html_document(&none, "  <?xml version=\"1.0\"?><feed/>"));
}

#[test]
fn classify_continues_non_200() {
    let hs: Vec<HeaderEntry> = vec![];
    assert_eq!(
        classify_interception(Some(304), &ResourceType::Script, &hs, ""),
        InterceptDecision::ContinueUnchanged
    );
}

#[test]
fn classify_scripts_and_documents() {
    let hs = vec![hdr("content-type", "text/html")];
    assert_eq!(
        classify_interception(Some(200), &ResourceType::Script, &hs, ""),
        InterceptDecision::InstrumentScript
    );
    assert_eq!(
        classify_interception(None, &ResourceType::Document, &hs, ""),
        InterceptDecision::InstrumentHtml
    );
    let xml = vec![hdr("content-type", "application/pdf")];
    assert_eq!(
        classify_interception(Some(200), &ResourceType::Document, &xml, ""),
        InterceptDecision::PassThroughDocument
    );
    assert_eq!(
        classify_interception(Some(200), &ResourceType::Other, &hs, ""),
        InterceptDecision::Unexpected
    );
}
