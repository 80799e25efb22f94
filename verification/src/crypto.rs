//! The outside primitives the owner lock rests on: PBKDF2 and HMAC over SHA-256,
//! a constant-time compare, base64, and the system's entropy.
use vstd::prelude::*;

verus! {

/// PBKDF2-HMAC-SHA256 of `password` over `salt` with `rounds` iterations, 32 bytes.
pub uninterp spec fn pbkdf2_sha256(password: Seq<u8>, salt: Seq<u8>, rounds: u32) -> Seq<u8>;

/// HMAC-SHA256 of `message` under `key`.
pub uninterp spec fn hmac_sha256(key: Seq<u8>, message: Seq<u8>) -> Seq<u8>;

/// Standard base64 (with padding) of `bytes`.
pub uninterp spec fn base64_encode(bytes: Seq<u8>) -> Seq<char>;

/// Standard base64 decoding of `text` (padding required), `None` when it is not one.
pub uninterp spec fn base64_decode(text: Seq<char>) -> Option<Seq<u8>>;

/// `pbkdf2::pbkdf2_hmac::<Sha256>` into a 32-byte buffer. The crate's source never
/// fails for HMAC (any key length is accepted) and runs for any round count; the
/// contract claims only that the result is the function of the three inputs and
/// is 32 bytes long.
#[verifier::external_body]
pub fn derive_key(password: &[u8], salt: &[u8], rounds: u32) -> (r: Vec<u8>)
    ensures
        r@ == pbkdf2_sha256(password@, salt@, rounds),
        r@.len() == 32,
{
    let mut out = [0u8; 32];
    pbkdf2::pbkdf2_hmac::<sha2::Sha256>(password, salt, rounds, &mut out);
    out.to_vec()
}

/// `Hmac::<Sha256>::new_from_slice(key)`, `update(message)`, `finalize()`: HMAC
/// accepts a key of any length, so the crate never refuses one. The contract
/// claims the 32-byte tag is the function of key and message.
#[verifier::external_body]
pub fn hmac_tag(key: &[u8], message: &[u8]) -> (r: Vec<u8>)
    ensures
        r@ == hmac_sha256(key@, message@),
        r@.len() == 32,
{
    let mut mac = <hmac::Hmac<sha2::Sha256> as hmac::Mac>::new_from_slice(key).unwrap();
    hmac::Mac::update(&mut mac, message);
    hmac::Mac::finalize(mac).into_bytes().to_vec()
}

/// `<[u8] as subtle::ConstantTimeEq>::ct_eq`, read as a `bool`: true exactly when
/// the slices have the same length and the same bytes (the crate short-circuits
/// on a length difference only).
#[verifier::external_body]
pub fn ct_eq_bytes(a: &[u8], b: &[u8]) -> (r: bool)
    ensures
        r == (a@ == b@),
{
    subtle::ConstantTimeEq::ct_eq(a, b).into()
}

/// `base64::engine::general_purpose::STANDARD.encode`. The contract names the result
/// and states what the crate documents of the engine: its decoder gives the bytes back.
#[verifier::external_body]
pub fn b64_encode(bytes: &[u8]) -> (r: String)
    ensures
        r@ == base64_encode(bytes@),
        base64_decode(r@) == Some(bytes@),
{
    base64::Engine::encode(&base64::engine::general_purpose::STANDARD, bytes)
}

/// `base64::engine::general_purpose::STANDARD.decode`, with its error read as `None`.
#[verifier::external_body]
pub fn b64_decode(text: &str) -> (r: Option<Vec<u8>>)
    ensures
        match r {
            Some(v) => base64_decode(text@) == Some(v@),
            None => base64_decode(text@) is None,
        },
{
    base64::Engine::decode(&base64::engine::general_purpose::STANDARD, text).ok()
}

/// `getrandom::getrandom` into a buffer of `len` bytes. The bytes depend on chance,
/// so only their count is promised; the error is the crate's, rendered as text.
#[verifier::external_body]
pub fn random_bytes(len: usize) -> (r: Result<Vec<u8>, String>)
    ensures
        r matches Ok(v) ==> v@.len() == len,
{
    let mut buf = vec![0u8; len];
    match getrandom::getrandom(&mut buf) {
        Ok(()) => Ok(buf),
        Err(e) => Err(format!("{e}")),
    }
}

} // verus!
