//! Studio lock authority — the owner PIN and the record's tamper tag.
//!
//! Two secrets make one owner blob: a PIN verifier (PBKDF2-HMAC-SHA256 of the PIN
//! over a random salt, so no plaintext PIN is stored) and a random HMAC key that
//! tags a locked record so a hand-edit is tamper-evident. Where the blob is kept
//! (Keychain or a 0600 file) is the caller's part: every function here takes the
//! blob as loaded (`None` when there is none or it does not parse) and returns
//! what to store.
use vstd::prelude::*;
use crate::crypto::{
    b64_decode, b64_encode, base64_decode, base64_encode, ct_eq_bytes, derive_key, hmac_sha256,
    hmac_tag, pbkdf2_sha256, random_bytes,
};
use crate::text::{digit_char, is_blank, is_blank_str, push_char, trim, trim_spec};

verus! {

broadcast use vstd::string::group_string_axioms;

/// The blob format version.
pub const BLOB_VERSION: u32 = 1;

/// PBKDF2 iterations. A PIN is short and low-entropy, so the cost is the point.
pub const ITERATIONS: u32 = 600_000;

pub const SALT_LEN: usize = 16;

pub const KEY_LEN: usize = 32;

/// The stored owner secret. Never contains the PIN, only its verifier.
pub struct OwnerBlob {
    pub version: u32,
    pub iterations: u32,
    /// Base64 of the salt.
    pub salt: String,
    /// Base64 of PBKDF2-HMAC-SHA256(pin, salt, iterations).
    pub pin_hash: String,
    /// Base64 of the random key for locking HMACs.
    pub hmac_key: String,
}

/// Why an owner-lock operation was refused.
pub enum AuthError {
    PinTooShort,
    PinAlreadySet,
    /// The system had no entropy to give (the crate's message).
    NoEntropy(String),
    /// A salt that was just encoded did not decode.
    SaltUnreadable,
    NoOwnerPin,
}

impl AuthError {
    pub fn message(&self) -> (r: String)
        ensures
            match self {
                AuthError::PinTooShort => r@ == "PIN must be at least 4 characters"@,
                AuthError::PinAlreadySet => r@ == "an owner PIN is already set"@,
                AuthError::NoEntropy(m) => r@ == "no entropy: "@ + m@,
                AuthError::SaltUnreadable => r@ == "salt did not decode"@,
                AuthError::NoOwnerPin => r@ == "no owner PIN set — cannot tag the record"@,
            },
    {
        let mut out = String::new();
        match self {
            AuthError::PinTooShort => crate::text::push_str(
                &mut out,
                "PIN must be at least 4 characters",
            ),
            AuthError::PinAlreadySet => crate::text::push_str(&mut out, "an owner PIN is already set"),
            AuthError::NoEntropy(m) => {
                crate::text::push_str(&mut out, "no entropy: ");
                crate::text::push_str(&mut out, m.as_str());
            },
            AuthError::SaltUnreadable => crate::text::push_str(&mut out, "salt did not decode"),
            AuthError::NoOwnerPin => crate::text::push_str(
                &mut out,
                "no owner PIN set — cannot tag the record",
            ),
        }
        out
    }
}

/// The UTF-8 bytes of a text.
pub open spec fn utf8(s: Seq<char>) -> Seq<u8> {
    vstd::utf8::encode_utf8(s)
}

/// Is an owner PIN set?
pub fn has_pin(stored: &Option<OwnerBlob>) -> (r: bool)
    ensures
        r == stored.is_some(),
{
    stored.is_some()
}

/// A PIN is long enough when its trimmed text is at least 4 bytes.
pub open spec fn pin_long_enough(pin: Seq<char>) -> bool {
    utf8(trim_spec(pin)).len() >= 4
}

/// The blob for `pin` over the given salt and key bytes.
pub open spec fn blob_matches(
    b: OwnerBlob,
    pin: Seq<char>,
    iterations: u32,
    salt: Seq<u8>,
    key: Seq<u8>,
) -> bool {
    &&& b.version == BLOB_VERSION
    &&& b.iterations == iterations
    &&& b.salt@ == base64_encode(salt)
    &&& b.pin_hash@ == base64_encode(pbkdf2_sha256(utf8(pin), salt, iterations))
    &&& b.hmac_key@ == base64_encode(key)
    &&& base64_decode(b.salt@) == Some(salt)
    &&& base64_decode(b.pin_hash@) == Some(pbkdf2_sha256(utf8(pin), salt, iterations))
    &&& base64_decode(b.hmac_key@) == Some(key)
}

/// Builds the owner blob for `pin` from the random salt and key.
pub fn build_blob(pin: &str, iterations: u32, salt: &[u8], key: &[u8]) -> (r: Result<
    OwnerBlob,
    AuthError,
>)
    ensures
        r matches Ok(b) && blob_matches(b, pin@, iterations, salt@, key@),
{
    let salt_text = b64_encode(salt);
    let salt_bytes = match b64_decode(salt_text.as_str()) {
        Some(v) => v,
        None => {
            return Err(AuthError::SaltUnreadable);
        },
    };
    let hash = derive_key(pin.as_bytes(), salt_bytes.as_slice(), iterations);
    Ok(
        OwnerBlob {
            version: BLOB_VERSION,
            iterations: iterations,
            salt: salt_text,
            pin_hash: b64_encode(hash.as_slice()),
            hmac_key: b64_encode(key),
        },
    )
}

/// Set the owner PIN: refused when the PIN is too short or one is already set.
/// Returns the blob the caller stores. Re-keying is a separate, deliberate act.
pub fn set_pin(stored: &Option<OwnerBlob>, pin: &str, iterations: u32) -> (r: Result<
    OwnerBlob,
    AuthError,
>)
    ensures
        !pin_long_enough(pin@) ==> r matches Err(AuthError::PinTooShort),
        pin_long_enough(pin@) && stored.is_some() ==> r matches Err(AuthError::PinAlreadySet),
        pin_long_enough(pin@) && stored.is_none() ==> (r matches Ok(b) && exists|
            salt: Seq<u8>,
            key: Seq<u8>,
        |
            salt.len() == SALT_LEN && key.len() == KEY_LEN && #[trigger] blob_matches(
                b,
                pin@,
                iterations,
                salt,
                key,
            )) || r matches Err(AuthError::NoEntropy(_)),
{
    let t = trim(pin);
    if t.as_str().as_bytes().len() < 4 {
        return Err(AuthError::PinTooShort);
    }
    if has_pin(stored) {
        return Err(AuthError::PinAlreadySet);
    }
    let salt = match random_bytes(SALT_LEN) {
        Ok(v) => v,
        Err(m) => {
            return Err(AuthError::NoEntropy(m));
        },
    };
    let key = match random_bytes(KEY_LEN) {
        Ok(v) => v,
        Err(m) => {
            return Err(AuthError::NoEntropy(m));
        },
    };
    build_blob(pin, iterations, salt.as_slice(), key.as_slice())
}

/// Does `pin` match the stored verifier? False when no PIN is set, or a field of the
/// blob does not decode.
pub open spec fn verify_spec(stored: Option<OwnerBlob>, pin: Seq<char>) -> bool {
    match stored {
        None => false,
        Some(b) => match (base64_decode(b.salt@), base64_decode(b.pin_hash@)) {
            (Some(salt), Some(expected)) => pbkdf2_sha256(utf8(pin), salt, b.iterations)
                == expected,
            _ => false,
        },
    }
}

/// Constant-time PIN check. False when no PIN is set (nothing to match).
pub fn verify_pin(stored: &Option<OwnerBlob>, pin: &str) -> (r: bool)
    ensures
        r == verify_spec(*stored, pin@),
{
    let blob = match stored {
        Some(b) => b,
        None => {
            return false;
        },
    };
    let salt = match b64_decode(blob.salt.as_str()) {
        Some(v) => v,
        None => {
            return false;
        },
    };
    let expected = match b64_decode(blob.pin_hash.as_str()) {
        Some(v) => v,
        None => {
            return false;
        },
    };
    let got = derive_key(pin.as_bytes(), salt.as_slice(), blob.iterations);
    ct_eq_bytes(got.as_slice(), expected.as_slice())
}

/// Two lowercase hex digits per byte (`{:02x}`).
pub open spec fn hex_bytes(b: Seq<u8>) -> Seq<char>
    decreases b.len(),
{
    if b.len() == 0 {
        Seq::empty()
    } else {
        hex_bytes(b.drop_last()) + seq![
            digit_char((b.last() / 16) as nat),
            digit_char((b.last() % 16) as nat),
        ]
    }
}

pub proof fn lemma_hex_bytes_len(b: Seq<u8>)
    ensures
        hex_bytes(b).len() == 2 * b.len(),
    decreases b.len(),
{
    if b.len() > 0 {
        lemma_hex_bytes_len(b.drop_last());
    }
}

/// Lowercase hex of `b`.
pub fn to_hex(b: &[u8]) -> (r: String)
    ensures
        r@ == hex_bytes(b@),
{
    let mut out = String::new();
    let mut i: usize = 0;
    while i < b.len()
        invariant
            i <= b@.len(),
            out@ == hex_bytes(b@.take(i as int)),
        decreases b.len() - i,
    {
        let x = b[i];
        push_char(&mut out, crate::text::hex_digit((x / 16) as u64));
        push_char(&mut out, crate::text::hex_digit((x % 16) as u64));
        assert(b@.take(i + 1).drop_last() =~= b@.take(i as int));
        i += 1;
        assert(out@ =~= hex_bytes(b@.take(i as int)));
    }
    assert(b@.take(b@.len() as int) =~= b@);
    out
}

/// The tag of a body under `key`: hex HMAC-SHA256 of its UTF-8 bytes.
pub open spec fn tag_spec(key: Seq<u8>, body: Seq<char>) -> Seq<char> {
    hex_bytes(hmac_sha256(key, utf8(body)))
}

/// A resolved owner key, so a whole library can be restamped with one read of the
/// store instead of one per record.
pub struct OwnerGuard {
    pub key: Vec<u8>,
}

impl OwnerGuard {
    /// The key the stored blob holds, when it decodes.
    pub open spec fn key_of(stored: Option<OwnerBlob>) -> Option<Seq<u8>> {
        match stored {
            Some(b) => base64_decode(b.hmac_key@),
            None => None,
        }
    }

    /// Load the HMAC key. `None` when no PIN is set (no key to vouch with).
    pub fn load(stored: &Option<OwnerBlob>) -> (r: Option<OwnerGuard>)
        ensures
            match Self::key_of(*stored) {
                Some(k) => r matches Some(g) && g.key@ == k,
                None => r is None,
            },
    {
        match stored {
            Some(b) => match b64_decode(b.hmac_key.as_str()) {
                Some(key) => Some(OwnerGuard { key }),
                None => None,
            },
            None => None,
        }
    }

    /// HMAC-SHA256 of `body`, hex.
    pub fn tag(&self, body: &str) -> (r: String)
        ensures
            r@ == tag_spec(self.key@, body@),
            r@.len() == 64,
    {
        let mac = hmac_tag(self.key.as_slice(), body.as_bytes());
        proof {
            lemma_hex_bytes_len(mac@);
        }
        to_hex(mac.as_slice())
    }

    /// Constant-time compare of a stored tag against a fresh one.
    pub fn matches(&self, body: &str, tag: &str) -> (r: bool)
        ensures
            r == (tag_spec(self.key@, body@) == tag@),
    {
        let fresh = self.tag(body);
        let r = ct_eq_bytes(fresh.as_str().as_bytes(), tag.as_bytes());
        proof {
            vstd::utf8::encode_utf8_decode_utf8(fresh@);
            vstd::utf8::encode_utf8_decode_utf8(tag@);
        }
        r
    }
}

/// What `record_tag` gives: the tag under the stored key, if there is one.
pub open spec fn record_tag_spec(stored: Option<OwnerBlob>, body: Seq<char>) -> Option<Seq<char>> {
    match OwnerGuard::key_of(stored) {
        Some(k) => Some(tag_spec(k, body)),
        None => None,
    }
}

/// What `tag_matches` answers.
pub open spec fn tag_matches_spec(stored: Option<OwnerBlob>, body: Seq<char>, tag: Seq<char>) -> bool {
    match OwnerGuard::key_of(stored) {
        Some(k) => tag_spec(k, body) == tag,
        None => false,
    }
}

/// Tag a locked record's canonical body. Returns hex HMAC-SHA256.
pub fn record_tag(stored: &Option<OwnerBlob>, body: &str) -> (r: Result<String, AuthError>)
    ensures
        match record_tag_spec(*stored, body@) {
            Some(t) => r matches Ok(tt) && tt@ == t && t.len() == 64,
            None => r matches Err(AuthError::NoOwnerPin),
        },
{
    match OwnerGuard::load(stored) {
        Some(g) => Ok(g.tag(body)),
        None => Err(AuthError::NoOwnerPin),
    }
}

/// Does the tag still match? `false` = the body changed under a locked record, or
/// there is no key to vouch with.
pub fn tag_matches(stored: &Option<OwnerBlob>, body: &str, tag: &str) -> (r: bool)
    ensures
        r == tag_matches_spec(*stored, body@, tag@),
{
    match OwnerGuard::load(stored) {
        Some(g) => g.matches(body, tag),
        None => false,
    }
}


/// Rust's `u32::from_str`: an optional `+`, then one or more ASCII digits, the value
/// fitting in 32 bits.
pub open spec fn parse_u32_spec(s: Seq<char>) -> Option<u32> {
    let d = if s.len() > 0 && s[0] == '+' {
        s.drop_first()
    } else {
        s
    };
    if d.len() > 0 && all_digits(d) && digits_value(d) <= u32::MAX {
        Some(digits_value(d) as u32)
    } else {
        None
    }
}

pub open spec fn all_digits(d: Seq<char>) -> bool {
    forall|i: int| 0 <= i < d.len() ==> '0' <= #[trigger] d[i] && d[i] <= '9'
}

/// The number the decimal digits `d` write.
pub open spec fn digits_value(d: Seq<char>) -> nat
    decreases d.len(),
{
    if d.len() == 0 {
        0
    } else {
        digits_value(d.drop_last()) * 10 + ((d.last() as u32) - ('0' as u32)) as nat
    }
}

proof fn lemma_digits_value_grows(d: Seq<char>, i: int)
    requires
        0 <= i <= d.len(),
        all_digits(d),
    ensures
        digits_value(d.take(i)) <= digits_value(d),
    decreases d.len() - i,
{
    if i < d.len() {
        lemma_digits_value_grows(d, i + 1);
        assert(d.take(i + 1).drop_last() =~= d.take(i));
    } else {
        assert(d.take(i) =~= d);
    }
}

/// `s.parse::<u32>()`, as an option.
pub fn parse_u32(s: &str) -> (r: Option<u32>)
    ensures
        r == parse_u32_spec(s@),
{
    let v = crate::text::chars_of(s);
    let start: usize = if v.len() > 0 && v[0] == '+' {
        1
    } else {
        0
    };
    let ghost d = if s@.len() > 0 && s@[0] == '+' {
        s@.drop_first()
    } else {
        s@
    };
    assert(d =~= v@.skip(start as int));
    if start == v.len() {
        return None;
    }
    let mut acc: u64 = 0;
    let mut i = start;
    while i < v.len()
        invariant
            start <= i <= v@.len(),
            d == v@.skip(start as int),
            d == (if s@.len() > 0 && s@[0] == '+' {
                s@.drop_first()
            } else {
                s@
            }),
            d.len() > 0,
            acc <= u32::MAX,
            all_digits(d.take(i - start)),
            acc == digits_value(d.take(i - start)),
        decreases v.len() - i,
    {
        let c = v[i];
        if !('0' <= c && c <= '9') {
            assert(d[i - start] == c);
            assert(!all_digits(d)) by {
                assert(!('0' <= d[i - start] && d[i - start] <= '9'));
            }
            return None;
        }
        let digit = (c as u32 - '0' as u32) as u64;
        assert(d.take(i - start + 1).drop_last() =~= d.take(i - start));
        assert(d.take(i - start + 1).last() == c);
        acc = acc * 10 + digit;
        i += 1;
        assert(acc == digits_value(d.take(i - start)));
        assert(all_digits(d.take(i - start))) by {
            assert forall|j: int| 0 <= j < i - start implies '0' <= #[trigger] d.take(
                i - start,
            )[j] && d.take(i - start)[j] <= '9' by {
                if j < i - start - 1 {
                    assert(d.take(i - start)[j] == d.take(i - start - 1)[j]);
                }
            }
        }
        if acc > 0xffff_ffff {
            proof {
                if all_digits(d) {
                    lemma_digits_value_grows(d, i - start);
                }
            }
            return None;
        }
    }
    assert(d.take(i - start) =~= d);
    Some(acc as u32)
}

/// PBKDF2 iterations to use: the Keychain backend is fixed at `ITERATIONS`; the file
/// backend may lower it through `GROVE_PBKDF2_ITERS` (trimmed, a `u32` of at least
/// 1000), so tests and scripted libraries stay fast.
pub open spec fn iterations_spec(use_keychain: bool, env_value: Option<Seq<char>>) -> u32 {
    if use_keychain {
        ITERATIONS
    } else {
        match env_value {
            Some(v) => match parse_u32_spec(trim_spec(v)) {
                Some(n) => if n >= 1000 {
                    n
                } else {
                    ITERATIONS
                },
                None => ITERATIONS,
            },
            None => ITERATIONS,
        }
    }
}

pub fn iterations_for(use_keychain: bool, env_value: Option<&str>) -> (r: u32)
    ensures
        r == iterations_spec(use_keychain, crate::recordings::opt_view(env_value)),
{
    if use_keychain {
        return ITERATIONS;
    }
    match env_value {
        Some(v) => {
            let t = trim(v);
            match parse_u32(t.as_str()) {
                Some(n) => if n >= 1000 {
                    n
                } else {
                    ITERATIONS
                },
                None => ITERATIONS,
            }
        },
        None => ITERATIONS,
    }
}

/// Is this environment value set to something non-blank?
pub open spec fn env_set(v: Option<Seq<char>>) -> bool {
    match v {
        Some(s) => !is_blank(s),
        None => false,
    }
}

/// The Keychain is used unless `GROVE_AUTH_DIR` or `GROVE_RECORDINGS_DIR` is set
/// (non-blank): a scripted or test library never touches the login keychain.
pub fn use_keychain(auth_dir: Option<&str>, recordings_dir: Option<&str>) -> (r: bool)
    ensures
        r == (!env_set(crate::recordings::opt_view(auth_dir)) && !env_set(
            crate::recordings::opt_view(recordings_dir),
        )),
{
    let auth = match auth_dir {
        Some(v) => !is_blank_str(v),
        None => false,
    };
    let rec = match recordings_dir {
        Some(v) => !is_blank_str(v),
        None => false,
    };
    !auth && !rec
}

/// Directory of the file backend's `owner.json`: `GROVE_AUTH_DIR`, else
/// `GROVE_RECORDINGS_DIR`, else `None` (the temp dir's own file).
pub fn file_backend_dir(auth_dir: Option<&str>, recordings_dir: Option<&str>) -> (r: Option<
    String,
>)
    ensures
        env_set(crate::recordings::opt_view(auth_dir)) ==> (r matches Some(d) && d@
            == auth_dir->0@),
        !env_set(crate::recordings::opt_view(auth_dir)) && env_set(
            crate::recordings::opt_view(recordings_dir),
        ) ==> (r matches Some(d) && d@ == recordings_dir->0@),
        !env_set(crate::recordings::opt_view(auth_dir)) && !env_set(
            crate::recordings::opt_view(recordings_dir),
        ) ==> r is None,
{
    match auth_dir {
        Some(v) => {
            if !is_blank_str(v) {
                return Some(v.to_owned());
            }
        },
        None => {},
    }
    match recordings_dir {
        Some(v) => {
            if !is_blank_str(v) {
                return Some(v.to_owned());
            }
        },
        None => {},
    }
    None
}

// ------------------------------------------------------------------ laws

/// A PIN that was just set verifies against the blob it produced.
pub proof fn law_set_pin_then_verify(
    b: OwnerBlob,
    pin: Seq<char>,
    iterations: u32,
    salt: Seq<u8>,
    key: Seq<u8>,
)
    requires
        blob_matches(b, pin, iterations, salt, key),
    ensures
        verify_spec(Some(b), pin),
{
}

/// With no PIN set, no PIN verifies.
pub proof fn law_no_pin_verifies_nothing(pin: Seq<char>)
    ensures
        !verify_spec(None, pin),
{
}

/// A freshly set PIN brings a key to tag records with: the one the blob was built from.
pub proof fn law_set_pin_gives_key(
    b: OwnerBlob,
    pin: Seq<char>,
    iterations: u32,
    salt: Seq<u8>,
    key: Seq<u8>,
)
    requires
        blob_matches(b, pin, iterations, salt, key),
    ensures
        OwnerGuard::key_of(Some(b)) == Some(key),
{
}

/// A tag the store hands out for a body is vouched for by the same store, for that body.
pub proof fn law_tag_vouches_for_its_body(stored: Option<OwnerBlob>, body: Seq<char>)
    ensures
        record_tag_spec(stored, body) matches Some(t) ==> tag_matches_spec(stored, body, t),
{
}

/// Without a key, nothing is tagged and nothing is vouched for.
pub proof fn law_no_key_no_vouch(stored: Option<OwnerBlob>, body: Seq<char>, tag: Seq<char>)
    requires
        OwnerGuard::key_of(stored) is None,
    ensures
        record_tag_spec(stored, body) is None,
        !tag_matches_spec(stored, body, tag),
{
}

} // verus!
