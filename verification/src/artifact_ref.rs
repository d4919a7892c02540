//! Short, non-path artifact references with identity-preserving local resolution. Paths are
//! Unix path bytes; the registry's file work is done by its caller, step by step.

use crate::codec::{
    base64_decode, base64_decoding, base64_encode, base64_encoding, debug_quoted, debug_text,
    fill_random, is_utf8, sha256, sha256_digest, utf8_lossy, utf8_lossy_string, Base64Profile,
};
use crate::evidence::MAX_ARTIFACT_INPUT_BYTES_V1;
use crate::paths::{extend_bytes, is_absolute_path, join_path, path_join};
use crate::text::{
    ascii_bytes, chars_of, contains_char, copy_chars, decimal_chars, decimal_string, has_prefix,
    push_ascii, push_char, starts_with_chars, string_from_chars, text_eq,
};
use vstd::prelude::*;

verus! {

/// Stable schema identity for local artifact references.
pub const ARTIFACT_REF_SCHEMA_V1: &'static str = "urn:terminal-interop:artifact-ref:v1";

/// URI prefix suitable for hyperlinks and desktop dispatch adapters.
pub const ARTIFACT_REF_URI_PREFIX: &'static str = "terminal-interop://artifact/";

const TOKEN_BYTES: usize = 8;

const TOKEN_LENGTH: usize = 13;

const TOKEN_ALPHABET: &'static str = "0123456789ABCDEFGHJKMNPQRSTVWXYZ";

const MAX_ENTRY_BYTES: u64 = 64 * 1024;

/// File identity captured when an agent offers an artifact.
#[derive(Clone, Debug, PartialEq, Eq)]
pub struct FileIdentity {
    /// Encoded file length.
    pub size: u64,
    /// Last modification time in nanoseconds since the Unix epoch, when available.
    pub modified_unix_nanos: Option<u128>,
    /// Platform device identity, when available.
    pub device: Option<u64>,
    /// Platform inode identity, when available.
    pub inode: Option<u64>,
    /// SHA-256 of exact file contents encoded with standard Base64.
    pub content_sha256_base64: String,
}

/// Portable local registry entry. Paths are data, never shell source.
#[derive(Clone, Debug, PartialEq, Eq)]
pub struct ArtifactRefV1 {
    /// Stable schema identifier.
    pub schema: String,
    /// Short opaque reference token.
    pub token: String,
    /// Encoding profile for `path_base64`.
    pub path_encoding: String,
    /// Exact platform path bytes encoded with standard Base64.
    pub path_base64: String,
    /// File identity observed at registration.
    pub identity: FileIdentity,
    /// Registration time in milliseconds since the Unix epoch.
    pub registered_at_unix_ms: u64,
}

/// Portable structural failure in an artifact reference record.
#[derive(Clone, Debug, PartialEq, Eq)]
pub enum ArtifactRefValidationError {
    /// The record does not use the v1 schema identity.
    UnsupportedSchema(String),
    /// The token is not the canonical ambiguity-reduced Base32 representation.
    InvalidToken,
    /// The path encoding profile is not defined by v1.
    UnsupportedPathEncoding(String),
    /// The encoded path is malformed, empty, relative where detectable, or contains NUL.
    InvalidPath,
    /// The content digest is not one standard-Base64 SHA-256 value.
    InvalidDigest,
    /// The declared source size exceeds the shared v1 preview profile.
    ArtifactLimit {
        /// Declared source size.
        actual: u64,
        /// Shared v1 input limit.
        limit: usize,
    },
}

/// A validation failure with its texts as character sequences.
pub enum RefIssue {
    UnsupportedSchema(Seq<char>),
    InvalidToken,
    UnsupportedPathEncoding(Seq<char>),
    InvalidPath,
    InvalidDigest,
    ArtifactLimit { actual: u64, limit: usize },
}

impl View for ArtifactRefValidationError {
    type V = RefIssue;

    open spec fn view(&self) -> RefIssue {
        match self {
            ArtifactRefValidationError::UnsupportedSchema(s) => RefIssue::UnsupportedSchema(s@),
            ArtifactRefValidationError::InvalidToken => RefIssue::InvalidToken,
            ArtifactRefValidationError::UnsupportedPathEncoding(s) => RefIssue::UnsupportedPathEncoding(s@),
            ArtifactRefValidationError::InvalidPath => RefIssue::InvalidPath,
            ArtifactRefValidationError::InvalidDigest => RefIssue::InvalidDigest,
            ArtifactRefValidationError::ArtifactLimit { actual, limit } => RefIssue::ArtifactLimit {
                actual: *actual,
                limit: *limit,
            },
        }
    }
}

/// The message of each validation failure; texts are shown as std's `Debug` renders them.
pub open spec fn validation_message(issue: RefIssue) -> Seq<char> {
    match issue {
        RefIssue::UnsupportedSchema(s) => "unsupported artifact reference schema: "@ + debug_text(s),
        RefIssue::InvalidToken => "artifact reference token is not canonical"@,
        RefIssue::UnsupportedPathEncoding(s) => "unsupported artifact path encoding: "@ + debug_text(s),
        RefIssue::InvalidPath => "artifact reference path is invalid"@,
        RefIssue::InvalidDigest => "artifact reference digest is not a SHA-256 value in standard Base64"@,
        RefIssue::ArtifactLimit { actual, limit } => "artifact reference size "@ + decimal_chars(
            actual as nat,
        ) + " exceeds the "@ + decimal_chars(limit as nat) + "-byte v1 limit"@,
    }
}

fn prefixed(prefix: &str, rest: &str) -> (s: String)
    ensures
        s@ == prefix@ + rest@,
{
    let mut s = String::from_str(prefix);
    s.append(rest);
    s
}

impl ArtifactRefValidationError {
    /// Human-readable description.
    pub fn message(&self) -> (s: String)
        ensures
            s@ == validation_message(self@),
    {
        match self {
            ArtifactRefValidationError::UnsupportedSchema(schema) => {
                let shown = debug_quoted(schema.as_str());
                prefixed("unsupported artifact reference schema: ", shown.as_str())
            },
            ArtifactRefValidationError::InvalidToken => String::from_str(
                "artifact reference token is not canonical",
            ),
            ArtifactRefValidationError::UnsupportedPathEncoding(encoding) => {
                let shown = debug_quoted(encoding.as_str());
                prefixed("unsupported artifact path encoding: ", shown.as_str())
            },
            ArtifactRefValidationError::InvalidPath => String::from_str(
                "artifact reference path is invalid",
            ),
            ArtifactRefValidationError::InvalidDigest => String::from_str(
                "artifact reference digest is not a SHA-256 value in standard Base64",
            ),
            ArtifactRefValidationError::ArtifactLimit { actual, limit } => {
                let mut s = String::from_str("artifact reference size ");
                s.append(decimal_string(*actual).as_str());
                s.append(" exceeds the ");
                s.append(decimal_string(*limit as u64).as_str());
                s.append("-byte v1 limit");
                s
            },
        }
    }
}

/// Artifact reference or registry failure.
#[derive(Clone, Debug)]
pub enum RegistryError {
    /// No safe state root could be discovered.
    StateDirectoryUnavailable,
    /// Cryptographic operating-system randomness was unavailable.
    Random,
    /// Reference syntax was invalid.
    InvalidReference,
    /// Reference was syntactically valid but absent.
    NotFound(String),
    /// The referenced path is not a regular file.
    NotRegularFile(Vec<u8>),
    /// The file changed identity after it was offered.
    IdentityChanged(String),
    /// Stored path encoding is unsupported on this platform.
    UnsupportedPathEncoding(String),
    /// The system clock cannot produce a portable timestamp.
    ClockBeforeEpoch,
    /// Repeated random token collisions prevented registration.
    TokenExhausted,
    /// A registry entry exceeded its structural resource bound.
    EntryLimit,
    /// The offered artifact exceeded the shared preview resource profile.
    ArtifactLimit { actual: u64, limit: usize },
}

/// A registry failure with its texts and paths as sequences.
pub enum RegistryIssue {
    StateDirectoryUnavailable,
    Random,
    InvalidReference,
    NotFound(Seq<char>),
    NotRegularFile(Seq<u8>),
    IdentityChanged(Seq<char>),
    UnsupportedPathEncoding(Seq<char>),
    ClockBeforeEpoch,
    TokenExhausted,
    EntryLimit,
    ArtifactLimit { actual: u64, limit: usize },
}

impl View for RegistryError {
    type V = RegistryIssue;

    open spec fn view(&self) -> RegistryIssue {
        match self {
            RegistryError::StateDirectoryUnavailable => RegistryIssue::StateDirectoryUnavailable,
            RegistryError::Random => RegistryIssue::Random,
            RegistryError::InvalidReference => RegistryIssue::InvalidReference,
            RegistryError::NotFound(t) => RegistryIssue::NotFound(t@),
            RegistryError::NotRegularFile(p) => RegistryIssue::NotRegularFile(p@),
            RegistryError::IdentityChanged(t) => RegistryIssue::IdentityChanged(t@),
            RegistryError::UnsupportedPathEncoding(e) => RegistryIssue::UnsupportedPathEncoding(e@),
            RegistryError::ClockBeforeEpoch => RegistryIssue::ClockBeforeEpoch,
            RegistryError::TokenExhausted => RegistryIssue::TokenExhausted,
            RegistryError::EntryLimit => RegistryIssue::EntryLimit,
            RegistryError::ArtifactLimit { actual, limit } => RegistryIssue::ArtifactLimit {
                actual: *actual,
                limit: *limit,
            },
        }
    }
}

/// The message of each registry failure; paths are shown with invalid UTF-8 replaced.
pub open spec fn registry_message(issue: RegistryIssue) -> Seq<char> {
    match issue {
        RegistryIssue::StateDirectoryUnavailable => "cannot discover state directory; set TERM_INTEROP_STATE_DIR or HOME"@,
        RegistryIssue::Random => "cannot generate artifact reference token"@,
        RegistryIssue::InvalidReference => "invalid artifact reference"@,
        RegistryIssue::NotFound(t) => "artifact reference does not exist: @"@ + t,
        RegistryIssue::NotRegularFile(p) => "artifact is not a regular file: "@ + utf8_lossy(p),
        RegistryIssue::IdentityChanged(t) => "artifact changed after registration: @"@ + t,
        RegistryIssue::UnsupportedPathEncoding(e) => "unsupported path encoding: "@ + e,
        RegistryIssue::ClockBeforeEpoch => "system clock is before the Unix epoch"@,
        RegistryIssue::TokenExhausted => "cannot allocate a unique artifact reference token"@,
        RegistryIssue::EntryLimit => "artifact reference entry exceeds the 65536-byte limit"@,
        RegistryIssue::ArtifactLimit { actual, limit } => "artifact has "@ + decimal_chars(
            actual as nat,
        ) + " bytes; reference profile limit is "@ + decimal_chars(limit as nat),
    }
}

impl RegistryError {
    /// Human-readable description.
    pub fn message(&self) -> (s: String)
        ensures
            s@ == registry_message(self@),
    {
        match self {
            RegistryError::StateDirectoryUnavailable => String::from_str(
                "cannot discover state directory; set TERM_INTEROP_STATE_DIR or HOME",
            ),
            RegistryError::Random => String::from_str("cannot generate artifact reference token"),
            RegistryError::InvalidReference => String::from_str("invalid artifact reference"),
            RegistryError::NotFound(t) => prefixed(
                "artifact reference does not exist: @",
                t.as_str(),
            ),
            RegistryError::NotRegularFile(p) => {
                let shown = utf8_lossy_string(p.as_slice());
                prefixed("artifact is not a regular file: ", shown.as_str())
            },
            RegistryError::IdentityChanged(t) => prefixed(
                "artifact changed after registration: @",
                t.as_str(),
            ),
            RegistryError::UnsupportedPathEncoding(e) => prefixed(
                "unsupported path encoding: ",
                e.as_str(),
            ),
            RegistryError::ClockBeforeEpoch => String::from_str(
                "system clock is before the Unix epoch",
            ),
            RegistryError::TokenExhausted => String::from_str(
                "cannot allocate a unique artifact reference token",
            ),
            RegistryError::EntryLimit => String::from_str(
                "artifact reference entry exceeds the 65536-byte limit",
            ),
            RegistryError::ArtifactLimit { actual, limit } => {
                let mut s = String::from_str("artifact has ");
                s.append(decimal_string(*actual).as_str());
                s.append(" bytes; reference profile limit is ");
                s.append(decimal_string(*limit as u64).as_str());
                s
            },
        }
    }
}

// ---------------------------------------------------------------------------------------------
// Tokens
// ---------------------------------------------------------------------------------------------

/// The ambiguity-reduced Base32 alphabet: `0-9 A-Z` without `I L O U`.
pub open spec fn token_alphabet() -> Seq<char> {
    "0123456789ABCDEFGHJKMNPQRSTVWXYZ"@
}

/// A character of the token alphabet.
pub open spec fn is_token_char(c: char) -> bool {
    token_alphabet().contains(c)
}

/// A canonical token: thirteen alphabet characters.
pub open spec fn is_token(s: Seq<char>) -> bool {
    &&& s.len() == 13
    &&& forall|i: int| 0 <= i < s.len() ==> is_token_char(#[trigger] s[i])
}

/// The token part of a reference: after the URI prefix, else after one `@`, else all of it.
pub open spec fn reference_token(reference: Seq<char>) -> Seq<char> {
    if has_prefix(reference, ARTIFACT_REF_URI_PREFIX@) {
        reference.skip(ARTIFACT_REF_URI_PREFIX@.len() as int)
    } else if has_prefix(reference, seq!['@']) {
        reference.skip(1)
    } else {
        reference
    }
}

/// An ASCII lowercase letter as its uppercase form; any other character unchanged.
pub open spec fn ascii_upper(c: char) -> char {
    if 'a' <= c && c <= 'z' {
        ((c as int) - 32) as char
    } else {
        c
    }
}

/// The text with ASCII lowercase letters in uppercase.
pub open spec fn ascii_uppercase(text: Seq<char>) -> Seq<char> {
    text.map_values(|c: char| ascii_upper(c))
}

/// The canonical token a reference names, if it names one: the token alphabet is
/// case-insensitive, so lowercase letters stand for their uppercase forms.
pub open spec fn parse_token_outcome(reference: Seq<char>) -> Option<Seq<char>> {
    if is_token(ascii_uppercase(reference_token(reference))) {
        Some(ascii_uppercase(reference_token(reference)))
    } else {
        None
    }
}

/// Token characters are digits or uppercase letters, which uppercasing keeps.
proof fn lemma_token_char_uppercase(c: char)
    requires
        is_token_char(c),
    ensures
        ascii_upper(c) == c,
{
    reveal_strlit("0123456789ABCDEFGHJKMNPQRSTVWXYZ");
    let k = choose|k: int| 0 <= k < token_alphabet().len() && token_alphabet()[k] == c;
    assert(token_alphabet()[k] < 'a');
}

/// A canonical token is its own uppercase form.
proof fn lemma_token_uppercase(token: Seq<char>)
    requires
        is_token(token),
    ensures
        ascii_uppercase(token) == token,
{
    assert forall|i: int| 0 <= i < token.len() implies ascii_uppercase(token)[i] == token[i] by {
        lemma_token_char_uppercase(token[i]);
    }
    assert(ascii_uppercase(token) =~= token);
}

fn upper_char(c: char) -> (u: char)
    ensures
        u == ascii_upper(c),
{
    if c >= 'a' && c <= 'z' {
        ((c as u8) - 32u8) as char
    } else {
        c
    }
}

/// The big-endian value of a byte sequence.
pub open spec fn big_endian_value(bytes: Seq<u8>) -> nat
    decreases bytes.len(),
{
    if bytes.len() == 0 {
        0
    } else {
        big_endian_value(bytes.drop_last()) * 256 + bytes.last() as nat
    }
}

/// The last `n` base-32 digits of `v`, most significant first, in the token alphabet.
pub open spec fn token_digits(v: nat, n: nat) -> Seq<char>
    decreases n,
{
    if n == 0 {
        Seq::empty()
    } else {
        token_digits(v / 32, (n - 1) as nat).push(token_alphabet()[(v % 32) as int])
    }
}

/// The token written for eight random bytes: their big-endian value in thirteen base-32 digits.
pub open spec fn token_of_random(bytes: Seq<u8>) -> Seq<char> {
    token_digits(big_endian_value(bytes), 13)
}

/// Extract and validate a token from `@TOKEN`, a bare token, or the typed URI; letters of
/// either case are accepted, and the canonical uppercase token is returned.
///
/// Refused with [`RegistryError::InvalidReference`] when the reference names no token.
pub fn parse_token(reference: &str) -> (r: Result<String, RegistryError>)
    ensures
        match parse_token_outcome(reference@) {
            Some(token) => r matches Ok(t) && t@ == token,
            None => r matches Err(e) && e@ == RegistryIssue::InvalidReference,
        },
{
    let chars = chars_of(reference);
    let prefix = chars_of(ARTIFACT_REF_URI_PREFIX);
    let start: usize = if starts_with_chars(chars.as_slice(), prefix.as_slice()) {
        prefix.len()
    } else if chars.len() > 0 && chars[0] == '@' {
        assert(has_prefix(chars@, seq!['@'])) by {
            assert(chars@.take(1) =~= seq!['@']);
        }
        1
    } else {
        assert(!has_prefix(chars@, seq!['@'])) by {
            if chars@.len() > 0 {
                assert(chars@.take(1)[0] == chars@[0]);
            }
        }
        0
    };
    let given = copy_chars(chars.as_slice(), start, chars.len());
    assert(given@ =~= reference_token(reference@));
    let mut token: Vec<char> = Vec::new();
    let mut k: usize = 0;
    while k < given.len()
        invariant
            k <= given@.len(),
            given@ == reference_token(reference@),
            token@ == ascii_uppercase(given@).take(k as int),
        decreases given@.len() - k,
    {
        token.push(upper_char(given[k]));
        k = k + 1;
        assert(token@ =~= ascii_uppercase(given@).take(k as int));
    }
    assert(token@ =~= ascii_uppercase(reference_token(reference@)));
    if token.len() != TOKEN_LENGTH {
        return Err(RegistryError::InvalidReference);
    }
    let alphabet = chars_of(TOKEN_ALPHABET);
    let mut i: usize = 0;
    while i < token.len()
        invariant
            i <= token@.len(),
            token@ == ascii_uppercase(reference_token(reference@)),
            alphabet@ == token_alphabet(),
            forall|j: int| 0 <= j < i ==> is_token_char(#[trigger] token@[j]),
        decreases token@.len() - i,
    {
        if !contains_char(alphabet.as_slice(), token[i]) {
            assert(!is_token_char(token@[i as int]));
            assert(!is_token(ascii_uppercase(reference_token(reference@))));
            return Err(RegistryError::InvalidReference);
        }
        i = i + 1;
    }
    Ok(string_from_chars(token.as_slice()))
}

proof fn lemma_big_endian_bound(bytes: Seq<u8>)
    requires
        bytes.len() <= 8,
    ensures
        big_endian_value(bytes) < pow256(bytes.len()),
    decreases bytes.len(),
{
    if bytes.len() > 0 {
        let rest = bytes.drop_last();
        lemma_big_endian_bound(rest);
        let v = big_endian_value(rest);
        let p = pow256(rest.len());
        assert(v * 256 + bytes.last() < p * 256) by (nonlinear_arith)
            requires
                v < p,
                bytes.last() < 256,
        ;
    }
}

/// `256` to the power `n`.
pub open spec fn pow256(n: nat) -> nat
    decreases n,
{
    if n == 0 {
        1
    } else {
        pow256((n - 1) as nat) * 256
    }
}

/// The token for eight random bytes, as [`token_of_random`] states.
pub fn token_from_random(random: [u8; 8]) -> (token: String)
    ensures
        token@ == token_of_random(random@),
{
    let mut value: u64 = 0;
    let mut i: usize = 0;
    while i < TOKEN_BYTES
        invariant
            i <= 8,
            random@.len() == 8,
            value == big_endian_value(random@.take(i as int)),
        decreases 8 - i,
    {
        proof {
            lemma_big_endian_bound(random@.take(i as int));
            reveal_with_fuel(pow256, 9);
            assert(pow256(i as nat) <= pow256(7)) by {
                assert(pow256(0) <= pow256(7));
                assert(pow256(1) <= pow256(7));
                assert(pow256(2) <= pow256(7));
                assert(pow256(3) <= pow256(7));
                assert(pow256(4) <= pow256(7));
                assert(pow256(5) <= pow256(7));
                assert(pow256(6) <= pow256(7));
            }
            assert(random@.take(i + 1).drop_last() =~= random@.take(i as int));
        }
        value = value * 256 + random[i] as u64;
        i = i + 1;
    }
    assert(random@.take(8) =~= random@);
    let alphabet = chars_of(TOKEN_ALPHABET);
    proof {
        reveal_strlit("0123456789ABCDEFGHJKMNPQRSTVWXYZ");
    }
    let mut digits: Vec<char> = Vec::new();
    let mut rest: u64 = value;
    let mut k: usize = 0;
    while k < TOKEN_LENGTH
        invariant
            k <= 13,
            alphabet@ == token_alphabet(),
            alphabet@.len() == 32,
            token_of_random(random@) == token_digits(rest as nat, (13 - k) as nat) + digits@,
        decreases 13 - k,
    {
        let c = alphabet[(rest % 32) as usize];
        assert(token_digits(rest as nat, (13 - k) as nat) == token_digits(
            (rest / 32) as nat,
            (13 - k - 1) as nat,
        ).push(c));
        assert(token_digits((rest / 32) as nat, (13 - k - 1) as nat).push(c) + digits@
            =~= token_digits((rest / 32) as nat, (13 - k - 1) as nat) + (seq![c] + digits@));
        digits.insert(0, c);
        rest = rest / 32;
        k = k + 1;
    }
    assert(token_digits(rest as nat, 0) =~= Seq::<char>::empty());
    assert(digits@ =~= token_of_random(random@));
    string_from_chars(digits.as_slice())
}

proof fn lemma_token_digits(v: nat, n: nat)
    ensures
        token_digits(v, n).len() == n,
        forall|i: int| 0 <= i < n ==> is_token_char(#[trigger] token_digits(v, n)[i]),
    decreases n,
{
    reveal_strlit("0123456789ABCDEFGHJKMNPQRSTVWXYZ");
    if n > 0 {
        lemma_token_digits(v / 32, (n - 1) as nat);
        let prev = token_digits(v / 32, (n - 1) as nat);
        assert forall|i: int| 0 <= i < n implies is_token_char(#[trigger] token_digits(v, n)[i]) by {
            if i < n - 1 {
                assert(token_digits(v, n)[i] == prev[i]);
            } else {
                assert(token_alphabet().contains(token_alphabet()[(v % 32) as int]));
            }
        }
    }
}

/// Every token written for random bytes is canonical, and each of its reference forms (bare,
/// `@TOKEN`, and the typed URI) names it: generated tokens always resolve by reference.
pub proof fn lemma_random_token_references(bytes: Seq<u8>)
    ensures
        is_token(token_of_random(bytes)),
        parse_token_outcome(token_of_random(bytes)) == Some(token_of_random(bytes)),
        parse_token_outcome(seq!['@'] + token_of_random(bytes)) == Some(token_of_random(bytes)),
        parse_token_outcome(ARTIFACT_REF_URI_PREFIX@ + token_of_random(bytes)) == Some(
            token_of_random(bytes),
        ),
{
    lemma_token_digits(big_endian_value(bytes), 13);
    lemma_token_references(token_of_random(bytes));
}

/// A canonical token is named by each of its reference forms.
pub proof fn lemma_token_references(token: Seq<char>)
    requires
        is_token(token),
    ensures
        parse_token_outcome(token) == Some(token),
        parse_token_outcome(seq!['@'] + token) == Some(token),
        parse_token_outcome(ARTIFACT_REF_URI_PREFIX@ + token) == Some(token),
{
    reveal_strlit("terminal-interop://artifact/");
    reveal_strlit("0123456789ABCDEFGHJKMNPQRSTVWXYZ");
    lemma_token_uppercase(token);
    let prefix = ARTIFACT_REF_URI_PREFIX@;
    assert(is_token_char(token[0]));
    assert(token[0] != 't');
    assert(token[0] != '@');
    assert(!has_prefix(token, prefix)) by {
        if has_prefix(token, prefix) {
            assert(token.take(prefix.len() as int)[0] == token[0]);
        }
    }
    assert(!has_prefix(token, seq!['@'])) by {
        if has_prefix(token, seq!['@']) {
            assert(token.take(1)[0] == token[0]);
        }
    }
    let at = seq!['@'] + token;
    assert(!has_prefix(at, prefix)) by {
        if has_prefix(at, prefix) {
            assert(at.take(prefix.len() as int)[0] == at[0]);
        }
    }
    assert(at.take(1) =~= seq!['@']);
    assert(at.skip(1) =~= token);
    let uri = prefix + token;
    assert(uri.take(prefix.len() as int) =~= prefix);
    assert(uri.skip(prefix.len() as int) =~= token);
}

/// A fresh reference token from the operating system's random source.
///
/// Refused with [`RegistryError::Random`] when the random source is unavailable.
pub fn random_token() -> (r: Result<String, RegistryError>)
    ensures
        r matches Ok(t) ==> is_token(t@) && exists|b: Seq<u8>| b.len() == 8 && t@ == token_of_random(b),
        r matches Err(e) ==> e@ == RegistryIssue::Random,
{
    let mut buffer: Vec<u8> = Vec::new();
    let mut i: usize = 0;
    while i < TOKEN_BYTES
        invariant
            i <= 8,
            buffer@.len() == i,
        decreases 8 - i,
    {
        buffer.push(0u8);
        i = i + 1;
    }
    match fill_random(&mut buffer) {
        Err(_) => Err(RegistryError::Random),
        Ok(()) => {
            let random: [u8; 8] = [
                buffer[0],
                buffer[1],
                buffer[2],
                buffer[3],
                buffer[4],
                buffer[5],
                buffer[6],
                buffer[7],
            ];
            assert(random@ =~= buffer@);
            let token = token_from_random(random);
            proof {
                lemma_random_token_references(random@);
            }
            Ok(token)
        },
    }
}

// ---------------------------------------------------------------------------------------------
// Records
// ---------------------------------------------------------------------------------------------

/// An ASCII letter.
pub open spec fn is_ascii_alpha(b: u8) -> bool {
    (65 <= b <= 90) || (97 <= b <= 122)
}

/// `/` or `\`.
pub open spec fn is_path_separator(b: u8) -> bool {
    b == 47 || b == 92
}

/// A Windows absolute path: a drive letter, `:` and a separator, or two leading separators.
pub open spec fn is_windows_absolute(bytes: Seq<u8>) -> bool {
    ||| (bytes.len() >= 3 && is_ascii_alpha(bytes[0]) && bytes[1] == 58 && is_path_separator(bytes[2]))
    ||| (bytes.len() >= 2 && is_path_separator(bytes[0]) && is_path_separator(bytes[1]))
}

/// Why decoded path bytes do not fit their encoding profile, if they do not.
pub open spec fn path_issue(encoding: Seq<char>, path: Seq<u8>) -> Option<RefIssue> {
    if path.len() == 0 || path.contains(0u8) {
        Some(RefIssue::InvalidPath)
    } else if encoding == "unix-bytes-v1"@ {
        if path[0] != 47 {
            Some(RefIssue::InvalidPath)
        } else {
            None
        }
    } else if encoding == "utf8-v1"@ {
        if !vstd::utf8::valid_utf8(path) || !is_windows_absolute(path) {
            Some(RefIssue::InvalidPath)
        } else {
            None
        }
    } else {
        Some(RefIssue::UnsupportedPathEncoding(encoding))
    }
}

/// Standard Base64 text of exactly 32 bytes.
pub open spec fn digest_valid(text: Seq<char>) -> bool {
    match base64_decoding(Base64Profile::Standard, text) {
        Some(digest) => digest.len() == 32,
        None => false,
    }
}

/// The first portable invariant a record breaks, in the order they are checked: schema,
/// token, path, digest, size.
pub open spec fn ref_issue(entry: ArtifactRefV1) -> Option<RefIssue> {
    if entry.schema@ != ARTIFACT_REF_SCHEMA_V1@ {
        Some(RefIssue::UnsupportedSchema(entry.schema@))
    } else if parse_token_outcome(entry.token@) is None {
        Some(RefIssue::InvalidToken)
    } else {
        match base64_decoding(Base64Profile::Standard, entry.path_base64@) {
            None => Some(RefIssue::InvalidPath),
            Some(path) => match path_issue(entry.path_encoding@, path) {
                Some(issue) => Some(issue),
                None => if !digest_valid(entry.identity.content_sha256_base64@) {
                    Some(RefIssue::InvalidDigest)
                } else if entry.identity.size > MAX_ARTIFACT_INPUT_BYTES_V1 {
                    Some(
                        RefIssue::ArtifactLimit {
                            actual: entry.identity.size,
                            limit: MAX_ARTIFACT_INPUT_BYTES_V1,
                        },
                    )
                } else {
                    None
                },
            },
        }
    }
}

fn windows_absolute(bytes: &[u8]) -> (r: bool)
    ensures
        r == is_windows_absolute(bytes@),
{
    let n = bytes.len();
    if n >= 3 && ((bytes[0] >= 65u8 && bytes[0] <= 90u8) || (bytes[0] >= 97u8 && bytes[0] <= 122u8))
        && bytes[1] == 58u8 && (bytes[2] == 47u8 || bytes[2] == 92u8) {
        return true;
    }
    n >= 2 && (bytes[0] == 47u8 || bytes[0] == 92u8) && (bytes[1] == 47u8 || bytes[1] == 92u8)
}

fn contains_nul(bytes: &[u8]) -> (r: bool)
    ensures
        r == bytes@.contains(0u8),
{
    let mut i: usize = 0;
    while i < bytes.len()
        invariant
            i <= bytes@.len(),
            forall|j: int| 0 <= j < i ==> bytes@[j] != 0u8,
        decreases bytes@.len() - i,
    {
        if bytes[i] == 0u8 {
            assert(bytes@.contains(0u8));
            return true;
        }
        i = i + 1;
    }
    false
}

/// `entry` is the registry entry written for `token`, `path`, `identity` and `time`: version-one
/// schema, the Unix path profile, and the path bytes in standard Base64, which decode back to
/// them.
pub open spec fn registered_entry(
    entry: ArtifactRefV1,
    token: Seq<char>,
    path: Seq<u8>,
    identity: FileIdentity,
    time: u64,
) -> bool {
    &&& entry.schema@ == ARTIFACT_REF_SCHEMA_V1@
    &&& entry.token@ == token
    &&& entry.path_encoding@ == "unix-bytes-v1"@
    &&& entry.path_base64@ == base64_encoding(Base64Profile::Standard, path)
    &&& base64_decoding(Base64Profile::Standard, entry.path_base64@) == Some(path)
    &&& entry.identity == identity
    &&& entry.registered_at_unix_ms == time
}

impl ArtifactRefV1 {
    /// Shell-friendly short reference: `@` and the token.
    pub fn short_ref(&self) -> (s: String)
        ensures
            s@ == seq!['@'] + self.token@,
    {
        let mut s = String::new();
        push_char(&mut s, '@');
        s.append(self.token.as_str());
        s
    }

    /// URI that does not expose or duplicate the registered path.
    pub fn uri(&self) -> (s: String)
        ensures
            s@ == ARTIFACT_REF_URI_PREFIX@ + self.token@,
    {
        prefixed(ARTIFACT_REF_URI_PREFIX, self.token.as_str())
    }

    /// Validate the portable record without resolving or opening its local file: schema
    /// identity, canonical token syntax, path encoding structure, digest shape, and the shared
    /// resource bound, exactly as [`ref_issue`] states.
    pub fn validate(&self) -> (r: Result<(), ArtifactRefValidationError>)
        ensures
            match ref_issue(*self) {
                None => r is Ok,
                Some(issue) => r matches Err(e) && e@ == issue,
            },
    {
        if !text_eq(self.schema.as_str(), ARTIFACT_REF_SCHEMA_V1) {
            return Err(ArtifactRefValidationError::UnsupportedSchema(self.schema.clone()));
        }
        match parse_token(self.token.as_str()) {
            Err(_) => {
                return Err(ArtifactRefValidationError::InvalidToken);
            },
            Ok(_) => {},
        }
        let path = match base64_decode(Base64Profile::Standard, self.path_base64.as_str()) {
            None => {
                return Err(ArtifactRefValidationError::InvalidPath);
            },
            Some(path) => path,
        };
        if path.len() == 0 || contains_nul(path.as_slice()) {
            return Err(ArtifactRefValidationError::InvalidPath);
        }
        if text_eq(self.path_encoding.as_str(), "unix-bytes-v1") {
            if path[0] != 47u8 {
                return Err(ArtifactRefValidationError::InvalidPath);
            }
        } else if text_eq(self.path_encoding.as_str(), "utf8-v1") {
            if !is_utf8(path.as_slice()) || !windows_absolute(path.as_slice()) {
                return Err(ArtifactRefValidationError::InvalidPath);
            }
        } else {
            return Err(ArtifactRefValidationError::UnsupportedPathEncoding(self.path_encoding.clone()));
        }
        match base64_decode(Base64Profile::Standard, self.identity.content_sha256_base64.as_str()) {
            None => {
                return Err(ArtifactRefValidationError::InvalidDigest);
            },
            Some(digest) => {
                if digest.len() != 32 {
                    return Err(ArtifactRefValidationError::InvalidDigest);
                }
            },
        }
        if self.identity.size > MAX_ARTIFACT_INPUT_BYTES_V1 as u64 {
            return Err(
                ArtifactRefValidationError::ArtifactLimit {
                    actual: self.identity.size,
                    limit: MAX_ARTIFACT_INPUT_BYTES_V1,
                },
            );
        }
        Ok(())
    }

    /// The registry entry for an artifact offered under `token`: version-one schema, the
    /// Unix path profile, and the path bytes in standard Base64.
    ///
    /// An entry written for a canonical token, an absolute NUL-free path, a SHA-256 digest and a
    /// size within the profile validates, and resolving it under its token yields the path.
    pub fn new(token: String, path: &[u8], identity: FileIdentity, registered_at_unix_ms: u64) -> (entry:
        ArtifactRefV1)
        ensures
            registered_entry(entry, token@, path@, identity, registered_at_unix_ms),
            is_token(token@) && is_absolute_path(path@) && !path@.contains(0u8) && digest_valid(
                identity.content_sha256_base64@,
            ) && identity.size <= MAX_ARTIFACT_INPUT_BYTES_V1 ==> {
                &&& ref_issue(entry) is None
                &&& entry_resolution(token@, entry) == Ok::<Seq<u8>, RegistryIssue>(path@)
            },
    {
        let entry = ArtifactRefV1 {
            schema: String::from_str(ARTIFACT_REF_SCHEMA_V1),
            token,
            path_encoding: String::from_str("unix-bytes-v1"),
            path_base64: base64_encode(Base64Profile::Standard, path),
            identity,
            registered_at_unix_ms,
        };
        proof {
            if is_token(entry.token@) {
                lemma_token_references(entry.token@);
            }
        }
        entry
    }
}

// ---------------------------------------------------------------------------------------------
// Registry
// ---------------------------------------------------------------------------------------------

/// Local artifact registry rooted in an explicit state directory.
#[derive(Clone, Debug, PartialEq, Eq)]
pub struct Registry {
    root: Vec<u8>,
}

impl View for Registry {
    type V = Seq<u8>;

    closed spec fn view(&self) -> Seq<u8> {
        self.root@
    }
}

/// The directory holding one entry per token.
pub open spec fn refs_dir_of(root: Seq<u8>) -> Seq<u8> {
    path_join(root, ascii_bytes("refs"@))
}

/// The entry file of `token`: `<token>.json` in the references directory.
pub open spec fn entry_path_of(root: Seq<u8>, token: Seq<char>) -> Seq<u8> {
    path_join(refs_dir_of(root), vstd::utf8::encode_utf8(token) + ascii_bytes(".json"@))
}

/// The file naming the most recently registered reference.
pub open spec fn latest_path_of(root: Seq<u8>) -> Seq<u8> {
    path_join(root, ascii_bytes("latest"@))
}

fn ascii_vec(text: &str) -> (v: Vec<u8>)
    ensures
        v@ == ascii_bytes(text@),
{
    let mut v: Vec<u8> = Vec::new();
    push_ascii(&mut v, text);
    v
}

fn copy_bytes(bytes: &[u8]) -> (v: Vec<u8>)
    ensures
        v@ == bytes@,
{
    let mut v: Vec<u8> = Vec::new();
    extend_bytes(&mut v, bytes);
    v
}

impl Registry {
    /// Construct a registry at an explicit root.
    pub fn new(root: Vec<u8>) -> (r: Registry)
        ensures
            r@ == root@,
    {
        Registry { root }
    }

    /// The state root named by the environment: `TERM_INTEROP_STATE_DIR` itself, else
    /// `terminal-interop` under `XDG_STATE_HOME`, else `.local/state/terminal-interop` under
    /// `HOME`.
    ///
    /// Refused with [`RegistryError::StateDirectoryUnavailable`] when none is set.
    pub fn discover(state_dir: Option<&[u8]>, xdg_state_home: Option<&[u8]>, home: Option<&[u8]>) -> (r:
        Result<Registry, RegistryError>)
        ensures
            match (state_dir, xdg_state_home, home) {
                (Some(dir), _, _) => r matches Ok(registry) && registry@ == dir@,
                (None, Some(dir), _) => r matches Ok(registry) && registry@ == path_join(
                    dir@,
                    ascii_bytes("terminal-interop"@),
                ),
                (None, None, Some(dir)) => r matches Ok(registry) && registry@ == path_join(
                    dir@,
                    ascii_bytes(".local/state/terminal-interop"@),
                ),
                (None, None, None) => r matches Err(e) && e@
                    == RegistryIssue::StateDirectoryUnavailable,
            },
    {
        if let Some(dir) = state_dir {
            return Ok(Registry::new(copy_bytes(dir)));
        }
        if let Some(dir) = xdg_state_home {
            let component = ascii_vec("terminal-interop");
            return Ok(Registry::new(join_path(dir, component.as_slice())));
        }
        match home {
            Some(dir) => {
                let component = ascii_vec(".local/state/terminal-interop");
                Ok(Registry::new(join_path(dir, component.as_slice())))
            },
            None => Err(RegistryError::StateDirectoryUnavailable),
        }
    }

    /// Registry root used by this instance.
    pub fn root(&self) -> (r: &[u8])
        ensures
            r@ == self@,
    {
        self.root.as_slice()
    }

    /// Directory holding the entries.
    pub fn refs_dir(&self) -> (r: Vec<u8>)
        ensures
            r@ == refs_dir_of(self@),
    {
        let component = ascii_vec("refs");
        join_path(self.root.as_slice(), component.as_slice())
    }

    /// Entry file of one token.
    pub fn entry_path(&self, token: &str) -> (r: Vec<u8>)
        ensures
            r@ == entry_path_of(self@, token@),
    {
        let mut name: Vec<u8> = Vec::new();
        extend_bytes(&mut name, token.as_bytes());
        push_ascii(&mut name, ".json");
        let refs = self.refs_dir();
        join_path(refs.as_slice(), name.as_slice())
    }

    /// File naming the most recently registered reference.
    pub fn latest_path(&self) -> (r: Vec<u8>)
        ensures
            r@ == latest_path_of(self@),
    {
        let component = ascii_vec("latest");
        join_path(self.root.as_slice(), component.as_slice())
    }
}

/// Refuse an artifact above the shared version-one input limit.
pub fn enforce_artifact_limit(actual: u64) -> (r: Result<(), RegistryError>)
    ensures
        actual <= MAX_ARTIFACT_INPUT_BYTES_V1 ==> r is Ok,
        actual > MAX_ARTIFACT_INPUT_BYTES_V1 ==> (r matches Err(e) && e@
            == RegistryIssue::ArtifactLimit { actual, limit: MAX_ARTIFACT_INPUT_BYTES_V1 }),
{
    if actual > MAX_ARTIFACT_INPUT_BYTES_V1 as u64 {
        return Err(RegistryError::ArtifactLimit { actual, limit: MAX_ARTIFACT_INPUT_BYTES_V1 });
    }
    Ok(())
}

/// Admit a file offered for registration: it must be a regular file
/// ([`RegistryError::NotRegularFile`], carrying its path) within the input limit.
pub fn admit_artifact(path: &[u8], is_file: bool, size: u64) -> (r: Result<(), RegistryError>)
    ensures
        !is_file ==> (r matches Err(e) && e@ == RegistryIssue::NotRegularFile(path@)),
        is_file && size <= MAX_ARTIFACT_INPUT_BYTES_V1 ==> r is Ok,
        is_file && size > MAX_ARTIFACT_INPUT_BYTES_V1 ==> (r matches Err(e) && e@
            == RegistryIssue::ArtifactLimit { actual: size, limit: MAX_ARTIFACT_INPUT_BYTES_V1 }),
{
    if !is_file {
        return Err(RegistryError::NotRegularFile(copy_bytes(path)));
    }
    enforce_artifact_limit(size)
}

/// The content digest recorded for a file: SHA-256 of its exact contents in standard Base64.
pub fn content_digest(contents: &[u8]) -> (r: String)
    ensures
        r@ == base64_encoding(Base64Profile::Standard, sha256_digest(contents@)),
        digest_valid(r@),
{
    let digest = sha256(contents);
    base64_encode(Base64Profile::Standard, digest.as_slice())
}

/// After `attempts` registrations lost to existing tokens: try another token below sixteen
/// attempts, else give up with [`RegistryError::TokenExhausted`].
pub fn after_token_collision(attempts: usize) -> (r: Result<(), RegistryError>)
    ensures
        attempts < 16 ==> r is Ok,
        attempts >= 16 ==> (r matches Err(e) && e@ == RegistryIssue::TokenExhausted),
{
    if attempts < 16 {
        Ok(())
    } else {
        Err(RegistryError::TokenExhausted)
    }
}

/// Refuse a stored entry above 65536 bytes.
pub fn check_entry_size(length: u64) -> (r: Result<(), RegistryError>)
    ensures
        length <= 65536 ==> r is Ok,
        length > 65536 ==> (r matches Err(e) && e@ == RegistryIssue::EntryLimit),
{
    if length > MAX_ENTRY_BYTES {
        return Err(RegistryError::EntryLimit);
    }
    Ok(())
}

/// What resolving a stored entry under `token` yields before its file is opened: its path
/// bytes, or why not. A record that fails validation is an invalid reference, except for an
/// unsupported path encoding, which is reported as such; the record must name `token`.
pub open spec fn entry_resolution(token: Seq<char>, entry: ArtifactRefV1) -> Result<Seq<u8>, RegistryIssue> {
    match ref_issue(entry) {
        Some(RefIssue::UnsupportedPathEncoding(encoding)) => Err(
            RegistryIssue::UnsupportedPathEncoding(encoding),
        ),
        Some(_) => Err(RegistryIssue::InvalidReference),
        None => if entry.token@ != token {
            Err(RegistryIssue::InvalidReference)
        } else {
            match base64_decoding(Base64Profile::Standard, entry.path_base64@) {
                None => Err(RegistryIssue::InvalidReference),
                Some(path) => if entry.path_encoding@ != "unix-bytes-v1"@ {
                    Err(RegistryIssue::UnsupportedPathEncoding(entry.path_encoding@))
                } else {
                    Ok(path)
                },
            }
        },
    }
}

/// Check a stored entry read for `token` and decode its path; exactly [`entry_resolution`].
pub fn check_entry(token: &str, entry: &ArtifactRefV1) -> (r: Result<Vec<u8>, RegistryError>)
    ensures
        match entry_resolution(token@, *entry) {
            Ok(path) => r matches Ok(p) && p@ == path,
            Err(issue) => r matches Err(e) && e@ == issue,
        },
{
    match entry.validate() {
        Err(ArtifactRefValidationError::UnsupportedPathEncoding(encoding)) => {
            return Err(RegistryError::UnsupportedPathEncoding(encoding));
        },
        Err(_) => {
            return Err(RegistryError::InvalidReference);
        },
        Ok(()) => {},
    }
    if !text_eq(entry.token.as_str(), token) {
        return Err(RegistryError::InvalidReference);
    }
    let path = match base64_decode(Base64Profile::Standard, entry.path_base64.as_str()) {
        None => {
            return Err(RegistryError::InvalidReference);
        },
        Some(path) => path,
    };
    if !text_eq(entry.path_encoding.as_str(), "unix-bytes-v1") {
        return Err(RegistryError::UnsupportedPathEncoding(entry.path_encoding.clone()));
    }
    Ok(path)
}

/// Two file identities agree in every field.
pub open spec fn same_identity_spec(a: FileIdentity, b: FileIdentity) -> bool {
    &&& a.size == b.size
    &&& a.modified_unix_nanos == b.modified_unix_nanos
    &&& a.device == b.device
    &&& a.inode == b.inode
    &&& a.content_sha256_base64@ == b.content_sha256_base64@
}

fn same_option_u64(a: Option<u64>, b: Option<u64>) -> (r: bool)
    ensures
        r == (a == b),
{
    match (a, b) {
        (Some(x), Some(y)) => x == y,
        (None, None) => true,
        _ => false,
    }
}

/// Whether two file identities agree in every field.
pub fn same_identity(a: &FileIdentity, b: &FileIdentity) -> (r: bool)
    ensures
        r == same_identity_spec(*a, *b),
{
    let modified = match (a.modified_unix_nanos, b.modified_unix_nanos) {
        (Some(x), Some(y)) => x == y,
        (None, None) => true,
        _ => false,
    };
    a.size == b.size && modified && same_option_u64(a.device, b.device) && same_option_u64(
        a.inode,
        b.inode,
    ) && text_eq(a.content_sha256_base64.as_str(), b.content_sha256_base64.as_str())
}

/// Accept the file found at a resolved path only when it is a regular file with the recorded
/// identity; otherwise [`RegistryError::IdentityChanged`] names the token.
pub fn confirm_identity(token: &str, recorded: &FileIdentity, observed: &FileIdentity, is_file: bool) -> (r:
    Result<(), RegistryError>)
    ensures
        is_file && same_identity_spec(*recorded, *observed) ==> r is Ok,
        !(is_file && same_identity_spec(*recorded, *observed)) ==> (r matches Err(e) && e@
            == RegistryIssue::IdentityChanged(token@)),
{
    if !is_file || !same_identity(observed, recorded) {
        return Err(RegistryError::IdentityChanged(String::from_str(token)));
    }
    Ok(())
}

// ---------------------------------------------------------------------------------------------
// Latest pointer
// ---------------------------------------------------------------------------------------------

/// Unicode `White_Space`, the characters `str::trim` removes.
pub open spec fn is_white_space(c: char) -> bool {
    ||| ('\t' <= c && c <= '\r')
    ||| c == ' '
    ||| c == '\u{85}'
    ||| c == '\u{a0}'
    ||| c == '\u{1680}'
    ||| ('\u{2000}' <= c && c <= '\u{200a}')
    ||| c == '\u{2028}'
    ||| c == '\u{2029}'
    ||| c == '\u{202f}'
    ||| c == '\u{205f}'
    ||| c == '\u{3000}'
}

/// `text` without leading white space.
pub open spec fn trim_start(text: Seq<char>) -> Seq<char>
    decreases text.len(),
{
    if text.len() > 0 && is_white_space(text[0]) {
        trim_start(text.skip(1))
    } else {
        text
    }
}

/// `text` without trailing white space.
pub open spec fn trim_end(text: Seq<char>) -> Seq<char>
    decreases text.len(),
{
    if text.len() > 0 && is_white_space(text.last()) {
        trim_end(text.drop_last())
    } else {
        text
    }
}

/// The text of the latest pointer file for `token`: `@`, the token, and a newline.
pub open spec fn latest_pointer_text(token: Seq<char>) -> Seq<char> {
    seq!['@'] + token + seq!['\n']
}

/// Contents of the latest pointer file for `token`.
pub fn latest_pointer(token: &str) -> (s: String)
    ensures
        s@ == latest_pointer_text(token@),
{
    let mut s = String::new();
    push_char(&mut s, '@');
    s.append(token);
    push_char(&mut s, '\n');
    s
}

fn white_space(c: char) -> (r: bool)
    ensures
        r == is_white_space(c),
{
    ('\t' <= c && c <= '\r') || c == ' ' || c == '\u{85}' || c == '\u{a0}' || c == '\u{1680}' || (
    '\u{2000}' <= c && c <= '\u{200a}') || c == '\u{2028}' || c == '\u{2029}' || c == '\u{202f}' || c
        == '\u{205f}' || c == '\u{3000}'
}

/// The reference a latest pointer file holds: its text without surrounding white space.
pub fn latest_reference(text: &str) -> (r: String)
    ensures
        r@ == trim_end(trim_start(text@)),
{
    let chars = chars_of(text);
    let mut start: usize = 0;
    assert(chars@.skip(0) =~= chars@);
    while start < chars.len() && white_space(chars[start])
        invariant
            start <= chars@.len(),
            chars@ == text@,
            trim_start(text@) == trim_start(chars@.skip(start as int)),
        decreases chars@.len() - start,
    {
        assert(chars@.skip(start as int).skip(1) =~= chars@.skip(start + 1));
        start = start + 1;
    }
    let mut end: usize = chars.len();
    assert(trim_start(text@) =~= chars@.subrange(start as int, end as int));
    while end > start && white_space(chars[end - 1])
        invariant
            start <= end <= chars@.len(),
            trim_end(trim_start(text@)) == trim_end(chars@.subrange(start as int, end as int)),
        decreases end,
    {
        assert(chars@.subrange(start as int, end as int).drop_last() =~= chars@.subrange(
            start as int,
            end - 1,
        ));
        end = end - 1;
    }
    let kept = copy_chars(chars.as_slice(), start, end);
    string_from_chars(kept.as_slice())
}

/// The latest pointer written for a token names that token again once read back: the pointer
/// file always leads to the most recent registration.
pub proof fn lemma_latest_pointer_names_token(token: Seq<char>)
    requires
        is_token(token),
    ensures
        trim_end(trim_start(latest_pointer_text(token))) == seq!['@'] + token,
        parse_token_outcome(trim_end(trim_start(latest_pointer_text(token)))) == Some(token),
{
    reveal_strlit("0123456789ABCDEFGHJKMNPQRSTVWXYZ");
    let text = latest_pointer_text(token);
    let body = seq!['@'] + token;
    assert(text =~= body.push('\n'));
    assert(!is_white_space('@'));
    assert(trim_start(text) == text);
    assert(text.drop_last() =~= body);
    assert(is_token_char(token[12]));
    assert(!is_white_space(body.last()));
    assert(trim_end(body) == body);
    assert(trim_end(text) == trim_end(body));
    lemma_token_references(token);
}

// ---------------------------------------------------------------------------------------------
// Resolution
// ---------------------------------------------------------------------------------------------

/// What resolving `reference` yields once the entry stored under its token has been read and
/// the file the entry names has been observed: the reference must name a token, the entry must
/// resolve under it ([`entry_resolution`]), the file must be within the input bound, and it must
/// be a regular file with the recorded identity, checked in that order.
pub open spec fn resolution_outcome(
    reference: Seq<char>,
    entry: ArtifactRefV1,
    observed: FileIdentity,
    is_file: bool,
) -> Result<Seq<u8>, RegistryIssue> {
    match parse_token_outcome(reference) {
        None => Err(RegistryIssue::InvalidReference),
        Some(token) => match entry_resolution(token, entry) {
            Err(issue) => Err(issue),
            Ok(path) => if observed.size > MAX_ARTIFACT_INPUT_BYTES_V1 {
                Err(
                    RegistryIssue::ArtifactLimit {
                        actual: observed.size,
                        limit: MAX_ARTIFACT_INPUT_BYTES_V1,
                    },
                )
            } else if !(is_file && same_identity_spec(entry.identity, observed)) {
                Err(RegistryIssue::IdentityChanged(token))
            } else {
                Ok(path)
            },
        },
    }
}

/// Register then resolve: the entry registered for a canonical token and an absolute, NUL-free
/// path of a file within the input bound validates, and resolving it by its short reference,
/// its URI, its bare token, or the reference the latest pointer holds, while the file keeps its
/// recorded identity, yields exactly that path.
pub proof fn lemma_register_then_resolve(
    entry: ArtifactRefV1,
    token: Seq<char>,
    path: Seq<u8>,
    identity: FileIdentity,
    time: u64,
)
    requires
        registered_entry(entry, token, path, identity, time),
        is_token(token),
        is_absolute_path(path),
        !path.contains(0u8),
        digest_valid(identity.content_sha256_base64@),
        identity.size <= MAX_ARTIFACT_INPUT_BYTES_V1,
    ensures
        ref_issue(entry) is None,
        resolution_outcome(seq!['@'] + token, entry, identity, true) == Ok::<Seq<u8>, RegistryIssue>(
            path,
        ),
        resolution_outcome(ARTIFACT_REF_URI_PREFIX@ + token, entry, identity, true) == Ok::<
            Seq<u8>,
            RegistryIssue,
        >(path),
        resolution_outcome(token, entry, identity, true) == Ok::<Seq<u8>, RegistryIssue>(path),
        resolution_outcome(trim_end(trim_start(latest_pointer_text(token))), entry, identity, true)
            == Ok::<Seq<u8>, RegistryIssue>(path),
{
    lemma_token_references(token);
    lemma_latest_pointer_names_token(token);
}

/// A changed artifact is never silently bound again: once the file registered for an entry is
/// gone, is no longer a regular file, or differs from the recorded identity in size,
/// modification time, device, inode or digest, resolving the entry by its short reference, its
/// URI or its bare token is refused, with `IdentityChanged` naming the token, or with
/// `ArtifactLimit` when the changed file has grown past the input bound.
pub proof fn lemma_changed_artifact_not_rebound(
    entry: ArtifactRefV1,
    token: Seq<char>,
    path: Seq<u8>,
    identity: FileIdentity,
    time: u64,
    observed: FileIdentity,
    is_file: bool,
)
    requires
        registered_entry(entry, token, path, identity, time),
        is_token(token),
        is_absolute_path(path),
        !path.contains(0u8),
        digest_valid(identity.content_sha256_base64@),
        identity.size <= MAX_ARTIFACT_INPUT_BYTES_V1,
        !(is_file && same_identity_spec(identity, observed)),
    ensures
        ({
            let refused = if observed.size > MAX_ARTIFACT_INPUT_BYTES_V1 {
                Err::<Seq<u8>, RegistryIssue>(
                    RegistryIssue::ArtifactLimit {
                        actual: observed.size,
                        limit: MAX_ARTIFACT_INPUT_BYTES_V1,
                    },
                )
            } else {
                Err::<Seq<u8>, RegistryIssue>(RegistryIssue::IdentityChanged(token))
            };
            &&& resolution_outcome(seq!['@'] + token, entry, observed, is_file) == refused
            &&& resolution_outcome(ARTIFACT_REF_URI_PREFIX@ + token, entry, observed, is_file)
                == refused
            &&& resolution_outcome(token, entry, observed, is_file) == refused
        }),
{
    lemma_register_then_resolve(entry, token, path, identity, time);
}

/// A file keeps its identity only when nothing recorded of it changed: two identities are the
/// same exactly when size, modification time, device, inode and content digest are all equal,
/// so a file edited in place to the same size (new digest or new modification time) is a
/// changed file, and confirming a registered token against it is refused with
/// `IdentityChanged`; an identity is always the same as itself.
pub proof fn lemma_identity_compares_every_field(recorded: FileIdentity, observed: FileIdentity)
    ensures
        recorded.size != observed.size ==> !same_identity_spec(recorded, observed),
        recorded.modified_unix_nanos != observed.modified_unix_nanos ==> !same_identity_spec(
            recorded,
            observed,
        ),
        recorded.device != observed.device ==> !same_identity_spec(recorded, observed),
        recorded.inode != observed.inode ==> !same_identity_spec(recorded, observed),
        recorded.content_sha256_base64@ != observed.content_sha256_base64@ ==> !same_identity_spec(
            recorded,
            observed,
        ),
        (recorded.size == observed.size && recorded.modified_unix_nanos
            == observed.modified_unix_nanos && recorded.device == observed.device && recorded.inode
            == observed.inode && recorded.content_sha256_base64@
            == observed.content_sha256_base64@) ==> same_identity_spec(recorded, observed),
        same_identity_spec(recorded, recorded),
{
}

} // verus!
