//! Byte codecs, digests and randomness provided by outside crates.

use base64::Engine as _;
use sha2::Digest as _;
use vstd::prelude::*;

verus! {

/// The two Base64 profiles used by the version-one contracts.
#[derive(Clone, Copy, Debug, PartialEq, Eq, Structural)]
pub enum Base64Profile {
    /// RFC 4648 standard alphabet with canonical `=` padding.
    Standard,
    /// RFC 4648 URL-safe alphabet without padding.
    UrlSafeNoPad,
}

/// What the `base64` crate's engine for `profile` produces when encoding `bytes`.
pub uninterp spec fn base64_encoding(profile: Base64Profile, bytes: Seq<u8>) -> Seq<char>;

/// What the `base64` crate's engine for `profile` produces when decoding `text`:
/// `None` when the engine rejects the text.
pub uninterp spec fn base64_decoding(profile: Base64Profile, text: Seq<char>) -> Option<Seq<u8>>;

/// A character of the URL-safe Base64 alphabet (`A`-`Z`, `a`-`z`, `0`-`9`, `-`, `_`).
pub open spec fn is_url_safe_base64_char(c: char) -> bool {
    ||| 'A' <= c <= 'Z'
    ||| 'a' <= c <= 'z'
    ||| '0' <= c <= '9'
    ||| c == '-'
    ||| c == '_'
}

/// Encodes `bytes` with `base64::engine::general_purpose::STANDARD` or `URL_SAFE_NO_PAD`
/// (`Engine::encode`).
///
/// Trusted: the result is the engine's encoding, which its own decoder maps back to the input;
/// the URL-safe unpadded engine emits only URL-safe alphabet characters, and at least one of
/// them for non-empty input.
#[verifier::external_body]
pub(crate) fn base64_encode(profile: Base64Profile, bytes: &[u8]) -> (text: String)
    ensures
        text@ == base64_encoding(profile, bytes@),
        base64_decoding(profile, text@) == Some(bytes@),
        profile == Base64Profile::UrlSafeNoPad ==> forall|i: int|
            0 <= i < text@.len() ==> is_url_safe_base64_char(#[trigger] text@[i]),
        profile == Base64Profile::UrlSafeNoPad ==> (text@.len() == 0 <==> bytes@.len() == 0),
{
    match profile {
        Base64Profile::Standard => base64::engine::general_purpose::STANDARD.encode(bytes),
        Base64Profile::UrlSafeNoPad => base64::engine::general_purpose::URL_SAFE_NO_PAD.encode(bytes),
    }
}

/// Decodes `text` with `base64::engine::general_purpose::STANDARD` or `URL_SAFE_NO_PAD`
/// (`Engine::decode`); `None` stands for the engine's `DecodeError`.
///
/// Trusted: the result is the engine's decoding of exactly `text`.
#[verifier::external_body]
pub(crate) fn base64_decode(profile: Base64Profile, text: &str) -> (bytes: Option<Vec<u8>>)
    ensures
        match bytes {
            Some(b) => base64_decoding(profile, text@) == Some(b@),
            None => base64_decoding(profile, text@) is None,
        },
{
    match profile {
        Base64Profile::Standard => base64::engine::general_purpose::STANDARD.decode(text).ok(),
        Base64Profile::UrlSafeNoPad => base64::engine::general_purpose::URL_SAFE_NO_PAD.decode(text).ok(),
    }
}

/// What std's `String::from_utf8_lossy` produces for `bytes`.
pub uninterp spec fn utf8_lossy(bytes: Seq<u8>) -> Seq<char>;

/// ASCII bytes as characters.
pub open spec fn ascii_chars(bytes: Seq<u8>) -> Seq<char> {
    bytes.map_values(|b: u8| b as char)
}

pub open spec fn is_ascii_bytes(bytes: Seq<u8>) -> bool {
    forall|i: int| 0 <= i < bytes.len() ==> #[trigger] bytes[i] < 128
}

/// Decodes `bytes` as UTF-8, replacing invalid sequences with U+FFFD
/// (std `String::from_utf8_lossy`, then `into_owned`).
///
/// Trusted: the result is std's lossy decoding; valid UTF-8, and so ASCII, is returned unchanged.
#[verifier::external_body]
pub(crate) fn utf8_lossy_string(bytes: &[u8]) -> (s: String)
    ensures
        s@ == utf8_lossy(bytes@),
        is_ascii_bytes(bytes@) ==> s@ == ascii_chars(bytes@),
{
    String::from_utf8_lossy(bytes).into_owned()
}

/// The SHA-256 digest that the `sha2` crate computes for `bytes`.
pub uninterp spec fn sha256_digest(bytes: Seq<u8>) -> Seq<u8>;

/// Hashes `bytes` with `sha2::Sha256` (`Digest::digest`).
///
/// Trusted: the result is the crate's 32-byte SHA-256 digest of exactly `bytes`.
#[verifier::external_body]
pub(crate) fn sha256(bytes: &[u8]) -> (digest: Vec<u8>)
    ensures
        digest@ == sha256_digest(bytes@),
        digest@.len() == 32,
{
    sha2::Sha256::digest(bytes).to_vec()
}

/// Fills `buffer` from the operating system's secure random source (`getrandom::fill`);
/// an error is reported by its message.
///
/// Trusted: the buffer keeps its length. Nothing is stated of the bytes, which come from chance.
#[verifier::external_body]
pub(crate) fn fill_random(buffer: &mut Vec<u8>) -> (r: Result<(), String>)
    ensures
        final(buffer)@.len() == old(buffer)@.len(),
{
    getrandom::fill(buffer.as_mut_slice()).map_err(|error| error.to_string())
}

/// Whether `bytes` are well-formed UTF-8 (std `str::from_utf8` succeeds).
///
/// Trusted: std accepts exactly the well-formed UTF-8 sequences, which `vstd::utf8::valid_utf8`
/// describes.
#[verifier::external_body]
pub(crate) fn is_utf8(bytes: &[u8]) -> (r: bool)
    ensures
        r == vstd::utf8::valid_utf8(bytes@),
{
    std::str::from_utf8(bytes).is_ok()
}

/// What std's `Debug` formatting of a string slice produces: the text quoted, with escapes.
pub uninterp spec fn debug_text(text: Seq<char>) -> Seq<char>;

/// Formats `text` with std's `Debug` for `str` (`format!("{text:?}")`).
///
/// Trusted: the result is std's rendering of exactly `text`.
#[verifier::external_body]
pub(crate) fn debug_quoted(text: &str) -> (r: String)
    ensures
        r@ == debug_text(text@),
{
    format!("{text:?}")
}

} // verus!
