use spruce_grove::crypto::{b64_decode, b64_encode, ct_eq_bytes, derive_key, hmac_tag, random_bytes};

fn hex(b: &[u8]) -> String {
    b.iter().map(|x| format!("{x:02x}")).collect()
}

#[test]
fn pbkdf2_matches_the_published_vector() {
    // PBKDF2-HMAC-SHA256("password", "salt", 1 round), 32 bytes
    assert_eq!(
        hex(&derive_key(b"password", b"salt", 1)),
        "120fb6cffcf8b32c43e7225256c4f837a86548c92ccc35480805987cb70be17b"
    );
}

#[test]
fn hmac_matches_the_published_vector() {
    assert_eq!(
        hex(&hmac_tag(b"Jefe", b"what do ya want for nothing?")),
        "5bdcc146bf60754e6a042426089575c75a003f089d2739839dec58b964ec3843"
    );
}

#[test]
fn base64_round_trips() {
    assert_eq!(b64_encode(b"hi"), "aGk=");
    assert_eq!(b64_decode("aGk="), Some(b"hi".to_vec()));
    assert_eq!(b64_decode("not base64!"), None);
    assert!(ct_eq_bytes(b"abc", b"abc"));
    assert!(!ct_eq_bytes(b"abc", b"abd"));
    assert!(!ct_eq_bytes(b"abc", b"ab"));
    assert_eq!(random_bytes(16).map(|v| v.len()), Ok(16));
}
