//! Digests, encodings and randomness of the outside crates.

use vstd::prelude::*;

verus! {

/// The longest input that is handed to an encoder or a digest.
pub const MAX_INPUT_BYTES: usize = 0x1000_0000;

/// The SHA-256 digest of the bytes.
pub uninterp spec fn sha256_of(bytes: Seq<u8>) -> Seq<u8>;

/// The SHA-1 digest of the bytes.
pub uninterp spec fn sha1_of(bytes: Seq<u8>) -> Seq<u8>;

/// The padded base64 text of the bytes in the standard alphabet.
pub uninterp spec fn base64_text(bytes: Seq<u8>) -> Seq<char>;

/// The unpadded base64 text of the bytes in the URL-safe alphabet.
pub uninterp spec fn base64_url_text(bytes: Seq<u8>) -> Seq<char>;

/// Whether a text is the unpadded URL-safe base64 of so many bytes.
pub open spec fn is_url_token(s: Seq<char>, count: nat) -> bool {
    exists|b: Seq<u8>| b.len() == count && s == #[trigger] base64_url_text(b)
}

/// The bytes that a padded base64 text in the standard alphabet denotes.
pub uninterp spec fn base64_bytes(encoded: Seq<char>) -> Option<Seq<u8>>;

pub open spec fn is_base64_char(c: char) -> bool {
    crate::text::is_alphanumeric(c) || c == '+' || c == '/' || c == '='
}

pub open spec fn is_base64_url_char(c: char) -> bool {
    crate::text::is_alphanumeric(c) || c == '-' || c == '_'
}

/// Calls `ring::digest::digest` with `SHA256`. The digest is a function of the
/// bytes, 32 bytes long; nothing else is claimed of it.
#[verifier::external_body]
pub(crate) fn sha256(bytes: &[u8]) -> (r: Vec<u8>)
    requires
        bytes@.len() <= MAX_INPUT_BYTES,
    ensures
        r@ == sha256_of(bytes@),
        r@.len() == 32,
{
    ring::digest::digest(&ring::digest::SHA256, bytes).as_ref().to_vec()
}

/// Calls `ring::digest::digest` with `SHA1_FOR_LEGACY_USE_ONLY`. The digest is
/// a function of the bytes, 20 bytes long; nothing else is claimed of it.
#[verifier::external_body]
pub(crate) fn sha1(bytes: &[u8]) -> (r: Vec<u8>)
    requires
        bytes@.len() <= MAX_INPUT_BYTES,
    ensures
        r@ == sha1_of(bytes@),
        r@.len() == 20,
{
    ring::digest::digest(&ring::digest::SHA1_FOR_LEGACY_USE_ONLY, bytes).as_ref().to_vec()
}

/// Calls `subtle::ConstantTimeEq::ct_eq` on the slices: whether they are equal.
#[verifier::external_body]
pub(crate) fn constant_time_eq(a: &[u8], b: &[u8]) -> (r: bool)
    ensures
        r == (a@ == b@),
{
    bool::from(subtle::ConstantTimeEq::ct_eq(a, b))
}

/// Calls `base64`'s `Engine::encode` with the `STANDARD` engine: four
/// characters of the alphabet, padding included, for every three bytes begun,
/// and text that the same engine decodes to the bytes.
#[verifier::external_body]
pub(crate) fn base64_encode(bytes: &[u8]) -> (r: String)
    requires
        bytes@.len() <= MAX_INPUT_BYTES,
    ensures
        r@ == base64_text(bytes@),
        r@.len() == (bytes@.len() + 2) / 3 * 4,
        forall|i: int| 0 <= i < r@.len() ==> is_base64_char(#[trigger] r@[i]),
        base64_bytes(r@) == Some(bytes@),
{
    base64::Engine::encode(&base64::engine::general_purpose::STANDARD, bytes)
}

/// Calls `base64`'s `Engine::encode` with the `URL_SAFE_NO_PAD` engine: four
/// characters of the alphabet for every three bytes, and as few as hold the
/// rest.
#[verifier::external_body]
pub(crate) fn base64_url_encode(bytes: &[u8]) -> (r: String)
    requires
        bytes@.len() <= MAX_INPUT_BYTES,
    ensures
        r@ == base64_url_text(bytes@),
        r@.len() == (bytes@.len() * 4 + 2) / 3,
        forall|i: int| 0 <= i < r@.len() ==> is_base64_url_char(#[trigger] r@[i]),
{
    base64::Engine::encode(&base64::engine::general_purpose::URL_SAFE_NO_PAD, bytes)
}

/// Calls `base64`'s `Engine::decode` with the `STANDARD` engine: the bytes that
/// the text denotes, no more of them than the text has bytes, or `None` where it
/// reports an error.
#[verifier::external_body]
pub(crate) fn base64_decode(encoded: &str) -> (r: Option<Vec<u8>>)
    ensures
        match r {
            Some(b) => base64_bytes(encoded@) == Some(b@) && b@.len()
                <= vstd::utf8::encode_utf8(encoded@).len(),
            None => base64_bytes(encoded@) is None,
        },
{
    base64::Engine::decode(&base64::engine::general_purpose::STANDARD, encoded).ok()
}

/// Calls `ring::rand::SecureRandom::fill` of `SystemRandom` on so many bytes;
/// `None` where it fails. Nothing is claimed of the bytes.
#[verifier::external_body]
pub(crate) fn random_bytes(count: usize) -> (r: Option<Vec<u8>>)
    requires
        count <= 4096,
    ensures
        r matches Some(b) ==> b@.len() == count,
{
    let mut bytes = vec![0u8; count];
    match ring::rand::SecureRandom::fill(&ring::rand::SystemRandom::new(), &mut bytes) {
        Ok(()) => Some(bytes),
        Err(_) => None,
    }
}

} // verus!
