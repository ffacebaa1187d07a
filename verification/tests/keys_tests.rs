use antithesis_browser::keys::{key_info, supported_key_codes};

#[test]
fn backspace_has_no_text() {
    let info = key_info(8).unwrap();
    assert_eq!(info.code, "Backspace");
    assert_eq!(info.key, "Backspace");
    assert_eq!(info.text, "");
}

#[test]
fn tab_has_no_text() {
    let info = key_info(9).unwrap();
    assert_eq!(info.code, "Tab");
    assert_eq!(info.key, "Tab");
    assert_eq!(info.text, "");
}

#[test]
fn enter_has_text() {
    let info = key_info(13).unwrap();
    assert_eq!(info.code, "Enter");
    assert_eq!(info.key, "Enter");
    assert_eq!(info.text, "\r");
}

#[test]
fn escape_has_no_text() {
    let info = key_info(27).unwrap();
    assert_eq!(info.code, "Escape");
    assert_eq!(info.key, "Escape");
    assert_eq!(info.text, "");
}

#[test]
fn arrow_keys_have_no_text() {
    for (code, name) in [
        (37, "ArrowLeft"),
        (38, "ArrowUp"),
        (39, "ArrowRight"),
        (40, "ArrowDown"),
    ] {
        let info = key_info(code).unwrap();
        assert_eq!(info.code, name);
        assert_eq!(info.key, name);
        assert_eq!(info.text, "");
    }
}

#[test]
fn unknown_codes_return_none() {
    assert!(key_info(0).is_none());
    assert!(key_info(255).is_none());
}

#[test]
fn all_supported_codes_have_key_info() {
    for code in supported_key_codes() {
        assert!(
            key_info(code).is_some(),
            "key_info({code}) returned None but {code} is a supported key code"
        );
    }
}

#[test]
fn supported_key_codes_are_the_eight() {
    assert_eq!(supported_key_codes(), vec![8, 9, 13, 27, 37, 38, 39, 40]);
}
