use spruce_grove::studio_auth::{
    has_pin, iterations_for, parse_u32, record_tag, set_pin, tag_matches, to_hex, use_keychain,
    verify_pin, OwnerBlob, OwnerGuard, ITERATIONS,
};

/// PBKDF2 stays cheap in tests; production uses `ITERATIONS`.
const TEST_ITERS: u32 = 1000;

#[test]
fn pin_round_trip_and_rejection() {
    let mut stored: Option<OwnerBlob> = None;
    assert!(!has_pin(&stored));
    stored = Some(set_pin(&stored, "246810", TEST_ITERS).ok().expect("set"));
    assert!(has_pin(&stored));
    assert!(verify_pin(&stored, "246810"));
    assert!(!verify_pin(&stored, "246811"));
    assert!(!verify_pin(&stored, ""));
    // a second set is refused (no silent re-key)
    assert!(set_pin(&stored, "999999", TEST_ITERS).is_err());
}

#[test]
fn short_pin_is_refused() {
    let stored: Option<OwnerBlob> = None;
    assert!(set_pin(&stored, "12", TEST_ITERS).is_err());
    // whitespace does not count toward the length
    assert!(set_pin(&stored, "  12  ", TEST_ITERS).is_err());
    assert!(!has_pin(&stored));
}

#[test]
fn verify_without_pin_is_false_not_a_panic() {
    assert!(!verify_pin(&None, "anything"));
}

#[test]
fn tag_detects_a_changed_body() {
    let stored = Some(set_pin(&None, "246810", TEST_ITERS).ok().expect("set"));
    let body = r#"{"id":"rec-1","summary":"committed"}"#;
    let tag = record_tag(&stored, body).ok().expect("tag");
    assert_eq!(tag.len(), 64);
    assert!(tag_matches(&stored, body, &tag));
    // one character different -> no longer vouched for
    let changed = r#"{"id":"rec-1","summary":"EDITED"}"#;
    assert!(!tag_matches(&stored, changed, &tag));
}

#[test]
fn no_key_means_no_vouch() {
    // no PIN set -> can't tag, and cannot vouch for anything
    assert!(record_tag(&None, "x").is_err());
    assert!(!tag_matches(&None, "x", "deadbeef"));
    assert!(OwnerGuard::load(&None).is_none());
}

#[test]
fn guard_tags_match_known_hmac() {
    // the RFC 4231 example with key "Jefe" and data "what do ya want for nothing?"
    let guard = OwnerGuard { key: b"Jefe".to_vec() };
    assert_eq!(
        guard.tag("what do ya want for nothing?"),
        "5bdcc146bf60754e6a042426089575c75a003f089d2739839dec58b964ec3843"
    );
    assert!(guard.matches("what do ya want for nothing?", "5bdcc146bf60754e6a042426089575c75a003f089d2739839dec58b964ec3843"));
    assert!(!guard.matches("what do ya want for nothing?", "00"));
    assert_eq!(to_hex(&[0x00, 0xab, 0x10]), "00ab10");
}

#[test]
fn backend_and_iterations() {
    assert!(use_keychain(None, None));
    assert!(!use_keychain(Some("/tmp/auth"), None));
    assert!(!use_keychain(None, Some("/tmp/rec")));
    assert_eq!(iterations_for(true, Some("1000")), ITERATIONS);
    assert_eq!(iterations_for(false, Some("1000")), 1000);
    assert_eq!(parse_u32("4294967295"), Some(4294967295));
    assert_eq!(parse_u32("4294967296"), None);
    assert_eq!(parse_u32("12a"), None);
}
