use antithesis_browser::actions::Timeout;
use antithesis_browser::rng::{random_bytes, RANDOM_BYTES_COUNT_MAX};
use antithesis_browser::state::{
    parse_decimal_u64, split_navigation_history, NavigationEntry, ScreenshotFormat,
};
use antithesis_browser::trace::Violation;

fn entry(id: u32, url: &str) -> NavigationEntry {
    NavigationEntry {
        id,
        title: format!("page {id}"),
        url: url.to_string(),
    }
}

#[test]
fn split_history_filters_about_blank() {
    let entries = vec![
        entry(0, "about:blank"),
        entry(1, "http://localhost/a"),
        entry(2, "http://localhost/b"),
        entry(3, "about:blank"),
        entry(4, "http://localhost/c"),
    ];
    let h = split_navigation_history(&entries, 2);
    assert_eq!(h.current.id, 2);
    let back: Vec<u32> = h.back.iter().map(|e| e.id).collect();
    let forward: Vec<u32> = h.forward.iter().map(|e| e.id).collect();
    assert_eq!(back, vec![1]);
    assert_eq!(forward, vec![4]);
}

#[test]
fn split_history_keeps_current_even_if_blank() {
    let entries = vec![entry(0, "http://localhost/"), entry(1, "about:blank")];
    let h = split_navigation_history(&entries, 1);
    assert_eq!(h.current.url, "about:blank");
    assert_eq!(h.back.len(), 1);
    assert!(h.forward.is_empty());
}

#[test]
fn parse_decimal_values() {
    assert_eq!(parse_decimal_u64("0"), Some(0));
    assert_eq!(parse_decimal_u64("12345"), Some(12345));
    assert_eq!(parse_decimal_u64("007"), Some(7));
    assert_eq!(parse_decimal_u64("18446744073709551615"), Some(u64::MAX));
}

#[test]
fn parse_decimal_rejects_bad_input() {
    assert_eq!(parse_decimal_u64(""), None);
    assert_eq!(parse_decimal_u64("12a"), None);
    assert_eq!(parse_decimal_u64("-1"), None);
    // One past the largest 64-bit value.
    assert_eq!(parse_decimal_u64("18446744073709551616"), None);
}

#[test]
fn screenshot_extensions() {
    assert_eq!(ScreenshotFormat::Webp.extension(), "webp");
    assert_eq!(ScreenshotFormat::Png.extension(), "png");
    assert_eq!(ScreenshotFormat::Jpeg.extension(), "jpeg");
}

#[test]
fn timeout_conversions() {
    assert_eq!(Timeout::from_millis(1500).millis(), 1500);
    assert_eq!(Timeout::from_secs(2).millis(), 2000);
    assert_eq!(Timeout::from_secs(2).to_duration(), std::time::Duration::from_secs(2));
    // Seconds saturate instead of overflowing.
    assert_eq!(Timeout::from_secs(u64::MAX).millis(), u64::MAX);
}

#[test]
fn random_bytes_respects_the_cap() {
    let buf = random_bytes(16).unwrap();
    assert_eq!(buf.len(), 16);
    assert_eq!(random_bytes(RANDOM_BYTES_COUNT_MAX).unwrap().len(), RANDOM_BYTES_COUNT_MAX);
    assert!(random_bytes(RANDOM_BYTES_COUNT_MAX + 1).is_none());
}

#[test]
fn violation_messages() {
    let v = Violation::Invariant("count <= 5".to_string());
    assert_eq!(v.message(), "invariant: count <= 5");
    let u = Violation::Unknown("boom".to_string());
    assert_eq!(u.message(), "boom");
}
