//! Versioned local callback intents for returning an external terminal hyperlink to its exact
//! TUI. Paths are Unix path bytes.

use crate::codec::{
    base64_decode, base64_decoding, base64_encode, base64_encoding, fill_random,
    is_url_safe_base64_char, utf8_lossy, utf8_lossy_string, Base64Profile,
};
use crate::paths::{extend_bytes, is_absolute_path, join_path, path_join};
use crate::text::{
    ascii_bytes, chars_of, contains_char, copy_chars, find_char, first_position, has_prefix,
    lemma_first_position, push_ascii, push_char, starts_with_chars, string_from_chars, text_eq,
};
use vstd::prelude::*;

verus! {

/// Schema identity of an open intent.
pub const OPEN_INTENT_SCHEMA_V1: &'static str = "urn:terminal-interop:open-intent:v1";

/// Schema identity of an intent delivery receipt.
pub const INTENT_RECEIPT_SCHEMA_V1: &'static str = "urn:terminal-interop:intent-receipt:v1";

/// Schema identity of a listener readiness announcement.
pub const INTENT_READY_SCHEMA_V1: &'static str = "urn:terminal-interop:intent-ready:v1";

/// Prefix of every version-one callback URI.
pub const INTENT_URI_PREFIX_V1: &'static str = "terminal-interop-intent://v1/open/";

const ENDPOINT_HEX_BYTES: usize = 16;

const ENDPOINT_HEX_LEN: usize = 32;

const MAX_TARGET_BYTES: usize = 16 * 1024;

const MAX_FRAME_BYTES: usize = 64 * 1024;

const SOCKET_PATH_SOFT_LIMIT: usize = 100;

// ---------------------------------------------------------------------------------------------
// Endpoints
// ---------------------------------------------------------------------------------------------

/// A local endpoint identity; canonical endpoints are 32 lowercase hexadecimal characters.
#[derive(Debug, PartialEq, Eq)]
pub struct EndpointId {
    value: String,
}

impl View for EndpointId {
    type V = Seq<char>;

    closed spec fn view(&self) -> Seq<char> {
        self.value@
    }
}

impl Clone for EndpointId {
    fn clone(&self) -> (r: Self)
        ensures
            r@ == self@,
    {
        EndpointId { value: self.value.clone() }
    }
}

/// A lowercase hexadecimal digit.
pub open spec fn is_lower_hex(c: char) -> bool {
    ('0' <= c && c <= '9') || ('a' <= c && c <= 'f')
}

/// The canonical endpoint form: exactly 32 lowercase hexadecimal digits.
pub open spec fn is_canonical_endpoint(s: Seq<char>) -> bool {
    &&& s.len() == 32
    &&& forall|i: int| 0 <= i < s.len() ==> is_lower_hex(#[trigger] s[i])
}

/// The lowercase hexadecimal digit for a value below 16.
pub open spec fn hex_digit(v: nat) -> char {
    if v < 10 {
        (48 + v) as char
    } else {
        (87 + v) as char
    }
}

/// Each byte as two lowercase hexadecimal digits, high nibble first.
pub open spec fn lower_hex(bytes: Seq<u8>) -> Seq<char>
    decreases bytes.len(),
{
    if bytes.len() == 0 {
        Seq::empty()
    } else {
        lower_hex(bytes.drop_last()) + seq![
            hex_digit((bytes.last() / 16) as nat),
            hex_digit((bytes.last() % 16) as nat),
        ]
    }
}

proof fn lemma_lower_hex(bytes: Seq<u8>)
    ensures
        lower_hex(bytes).len() == 2 * bytes.len(),
        forall|i: int| 0 <= i < lower_hex(bytes).len() ==> is_lower_hex(#[trigger] lower_hex(bytes)[i]),
    decreases bytes.len(),
{
    if bytes.len() > 0 {
        lemma_lower_hex(bytes.drop_last());
        let prev = lower_hex(bytes.drop_last());
        let hi = (bytes.last() / 16) as nat;
        let lo = (bytes.last() % 16) as nat;
        assert(is_lower_hex(hex_digit(hi)));
        assert(is_lower_hex(hex_digit(lo)));
        assert forall|i: int| 0 <= i < lower_hex(bytes).len() implies is_lower_hex(
            #[trigger] lower_hex(bytes)[i],
        ) by {
            if i < prev.len() {
                assert(lower_hex(bytes)[i] == prev[i]);
            }
        }
    }
}

/// The hexadecimal form of any sixteen bytes is a canonical endpoint, which
/// [`EndpointId::parse`] accepts: every generated endpoint parses.
pub proof fn lemma_generated_endpoint_is_canonical(bytes: Seq<u8>)
    requires
        bytes.len() == 16,
    ensures
        is_canonical_endpoint(lower_hex(bytes)),
{
    lemma_lower_hex(bytes);
}

fn hex_char(v: u8) -> (c: char)
    requires
        v < 16,
    ensures
        c == hex_digit(v as nat),
{
    if v < 10 {
        (48u8 + v) as char
    } else {
        (87u8 + v) as char
    }
}

impl EndpointId {
    /// The endpoint written as the lowercase hexadecimal digits of `bytes`.
    pub fn from_bytes(bytes: &[u8]) -> (e: EndpointId)
        ensures
            e@ == lower_hex(bytes@),
    {
        let mut value = String::new();
        let mut i: usize = 0;
        while i < bytes.len()
            invariant
                i <= bytes@.len(),
                value@ == lower_hex(bytes@.take(i as int)),
            decreases bytes@.len() - i,
        {
            let b = bytes[i];
            push_char(&mut value, hex_char(b / 16));
            push_char(&mut value, hex_char(b % 16));
            assert(bytes@.take(i + 1).drop_last() =~= bytes@.take(i as int));
            i = i + 1;
        }
        assert(bytes@.take(bytes@.len() as int) =~= bytes@);
        EndpointId { value }
    }

    /// Generate an unguessable 128-bit local endpoint identity from the operating system's
    /// random source.
    ///
    /// Refused with [`IntentError::Random`] when the random source is unavailable.
    pub fn generate() -> (r: Result<EndpointId, IntentError>)
        ensures
            r matches Ok(e) ==> is_canonical_endpoint(e@) && exists|b: Seq<u8>|
                b.len() == 16 && e@ == lower_hex(b),
            r matches Err(error) ==> error is Random,
    {
        let mut bytes: Vec<u8> = Vec::new();
        let mut i: usize = 0;
        while i < ENDPOINT_HEX_BYTES
            invariant
                i <= ENDPOINT_HEX_BYTES,
                bytes@.len() == i,
            decreases ENDPOINT_HEX_BYTES - i,
        {
            bytes.push(0u8);
            i = i + 1;
        }
        match fill_random(&mut bytes) {
            Err(message) => Err(IntentError::Random(message)),
            Ok(()) => {
                let e = EndpointId::from_bytes(bytes.as_slice());
                proof {
                    lemma_generated_endpoint_is_canonical(bytes@);
                }
                Ok(e)
            },
        }
    }

    /// Validate one canonical lowercase endpoint representation.
    ///
    /// Refused with [`IntentError::InvalidEndpoint`] for any non-canonical representation.
    pub fn parse(value: &str) -> (r: Result<EndpointId, IntentError>)
        ensures
            r is Ok <==> is_canonical_endpoint(value@),
            r matches Ok(e) ==> e@ == value@,
            r matches Err(error) ==> error@ == IntentIssue::InvalidEndpoint,
    {
        let chars = chars_of(value);
        if chars.len() != ENDPOINT_HEX_LEN {
            return Err(IntentError::InvalidEndpoint);
        }
        let mut i: usize = 0;
        while i < chars.len()
            invariant
                i <= chars@.len(),
                chars@ == value@,
                forall|j: int| 0 <= j < i ==> is_lower_hex(#[trigger] chars@[j]),
            decreases chars@.len() - i,
        {
            let c = chars[i];
            if !(('0' <= c && c <= '9') || ('a' <= c && c <= 'f')) {
                return Err(IntentError::InvalidEndpoint);
            }
            i = i + 1;
        }
        Ok(EndpointId { value: String::from_str(value) })
    }

    /// The endpoint as received from a serialized record, kept as written.
    pub fn from_serialized(value: String) -> (e: EndpointId)
        ensures
            e@ == value@,
    {
        EndpointId { value }
    }

    /// The endpoint text.
    pub fn as_str(&self) -> (r: &str)
        ensures
            r@ == self@,
    {
        self.value.as_str()
    }
}

// ---------------------------------------------------------------------------------------------
// Records
// ---------------------------------------------------------------------------------------------

/// What an intent asks its consumer to do.
#[derive(Clone, Copy, Debug, PartialEq, Eq, Structural)]
pub enum IntentAction {
    /// Open the artifact at the target path.
    OpenArtifact,
}

/// How the target path bytes are carried.
#[derive(Clone, Copy, Debug, PartialEq, Eq, Structural)]
pub enum PathEncoding {
    /// Exact Unix path bytes in unpadded URL-safe Base64.
    UnixBytesBase64urlV1,
    /// UTF-8 path text in unpadded URL-safe Base64.
    Utf8Base64urlV1,
}

/// An encoded target path.
#[derive(Clone, Debug, PartialEq, Eq)]
pub struct EncodedPathV1 {
    /// Encoding profile of `value`.
    pub encoding: PathEncoding,
    /// Encoded path bytes.
    pub value: String,
}

/// Request to open one exact artifact in the TUI bound to `endpoint`.
#[derive(Clone, Debug, PartialEq, Eq)]
pub struct OpenIntentV1 {
    /// Stable schema identifier.
    pub schema: String,
    /// Endpoint of the consumer.
    pub endpoint: EndpointId,
    /// Requested action.
    pub action: IntentAction,
    /// Target path.
    pub target: EncodedPathV1,
}

/// Outcome of one delivery.
#[derive(Clone, Copy, Debug, PartialEq, Eq, Structural)]
pub enum IntentDeliveryState {
    /// The consumer accepted the intent.
    Forwarded,
    /// The consumer refused the intent.
    Rejected,
}

/// Typed answer of a consumer to one intent.
#[derive(Clone, Debug, PartialEq, Eq)]
pub struct IntentReceiptV1 {
    /// Stable schema identifier.
    pub schema: String,
    /// Endpoint of the answering consumer.
    pub endpoint: EndpointId,
    /// Delivery outcome.
    pub state: IntentDeliveryState,
    /// Human-readable explanation.
    pub detail: String,
}

/// Announcement that a consumer is listening.
#[derive(Clone, Debug, PartialEq, Eq)]
pub struct IntentReadyV1 {
    /// Stable schema identifier.
    pub schema: String,
    /// Endpoint of the listening consumer.
    pub endpoint: EndpointId,
    /// Prefix of the URIs the consumer accepts.
    pub uri_prefix: String,
}

impl IntentReceiptV1 {
    /// Receipt for an intent handed to the bound consumer.
    pub fn forwarded(endpoint: EndpointId) -> (r: IntentReceiptV1)
        ensures
            r.schema@ == INTENT_RECEIPT_SCHEMA_V1@,
            r.endpoint@ == endpoint@,
            r.state == IntentDeliveryState::Forwarded,
            r.detail@ == "intent was forwarded to the bound local consumer"@,
    {
        IntentReceiptV1 {
            schema: String::from_str(INTENT_RECEIPT_SCHEMA_V1),
            endpoint,
            state: IntentDeliveryState::Forwarded,
            detail: String::from_str("intent was forwarded to the bound local consumer"),
        }
    }

    /// Receipt for a refused intent, with its explanation.
    pub fn rejected(endpoint: EndpointId, detail: &str) -> (r: IntentReceiptV1)
        ensures
            r.schema@ == INTENT_RECEIPT_SCHEMA_V1@,
            r.endpoint@ == endpoint@,
            r.state == IntentDeliveryState::Rejected,
            r.detail@ == detail@,
    {
        IntentReceiptV1 {
            schema: String::from_str(INTENT_RECEIPT_SCHEMA_V1),
            endpoint,
            state: IntentDeliveryState::Rejected,
            detail: String::from_str(detail),
        }
    }
}

impl IntentReadyV1 {
    /// Readiness announcement of the consumer bound to `endpoint`.
    pub fn new(endpoint: EndpointId) -> (r: IntentReadyV1)
        ensures
            r.schema@ == INTENT_READY_SCHEMA_V1@,
            r.endpoint@ == endpoint@,
            r.uri_prefix@ == INTENT_URI_PREFIX_V1@ + endpoint@ + seq!['/'],
    {
        let mut uri_prefix = String::from_str(INTENT_URI_PREFIX_V1);
        uri_prefix.append(endpoint.as_str());
        push_char(&mut uri_prefix, '/');
        IntentReadyV1 { schema: String::from_str(INTENT_READY_SCHEMA_V1), uri_prefix, endpoint }
    }
}

// ---------------------------------------------------------------------------------------------
// Errors
// ---------------------------------------------------------------------------------------------

/// Intent construction, validation or transport failure.
#[derive(Clone, Debug)]
pub enum IntentError {
    /// Secure random bytes were unavailable.
    Random(String),
    /// The endpoint is not 32 lowercase hexadecimal characters.
    InvalidEndpoint,
    /// The URI is not a version-one callback URI.
    InvalidUri,
    /// The URI carries a query or fragment.
    UnsupportedUriComponent,
    /// The target is not valid unpadded URL-safe Base64.
    InvalidTargetEncoding,
    /// The target is empty, contains NUL, or exceeds the 16384-byte bound.
    InvalidTargetBytes,
    /// The target is not an absolute path.
    TargetNotAbsolute,
    /// The path encoding is not the one of this platform.
    UnsupportedPathEncoding,
    /// The record does not carry the version-one schema.
    UnsupportedSchema(String),
    /// `XDG_RUNTIME_DIR` is missing or relative.
    RuntimeDirectoryUnavailable,
    /// The runtime directory is not private.
    RuntimeDirectoryNotPrivate(Vec<u8>),
    /// The socket path exceeds the portable bound.
    SocketPathTooLong(Vec<u8>),
    /// Another consumer holds the endpoint.
    EndpointInUse(Vec<u8>),
    /// A frame exceeds the 65536-byte bound.
    FrameTooLarge,
    /// The peer closed before a complete frame arrived.
    TruncatedFrame,
    /// The answering endpoint is not the requested one.
    EndpointMismatch,
}

/// An intent error with its texts and paths as sequences.
pub enum IntentIssue {
    Random(Seq<char>),
    InvalidEndpoint,
    InvalidUri,
    UnsupportedUriComponent,
    InvalidTargetEncoding,
    InvalidTargetBytes,
    TargetNotAbsolute,
    UnsupportedPathEncoding,
    UnsupportedSchema(Seq<char>),
    RuntimeDirectoryUnavailable,
    RuntimeDirectoryNotPrivate(Seq<u8>),
    SocketPathTooLong(Seq<u8>),
    EndpointInUse(Seq<u8>),
    FrameTooLarge,
    TruncatedFrame,
    EndpointMismatch,
}

impl View for IntentError {
    type V = IntentIssue;

    open spec fn view(&self) -> IntentIssue {
        match self {
            IntentError::Random(m) => IntentIssue::Random(m@),
            IntentError::InvalidEndpoint => IntentIssue::InvalidEndpoint,
            IntentError::InvalidUri => IntentIssue::InvalidUri,
            IntentError::UnsupportedUriComponent => IntentIssue::UnsupportedUriComponent,
            IntentError::InvalidTargetEncoding => IntentIssue::InvalidTargetEncoding,
            IntentError::InvalidTargetBytes => IntentIssue::InvalidTargetBytes,
            IntentError::TargetNotAbsolute => IntentIssue::TargetNotAbsolute,
            IntentError::UnsupportedPathEncoding => IntentIssue::UnsupportedPathEncoding,
            IntentError::UnsupportedSchema(s) => IntentIssue::UnsupportedSchema(s@),
            IntentError::RuntimeDirectoryUnavailable => IntentIssue::RuntimeDirectoryUnavailable,
            IntentError::RuntimeDirectoryNotPrivate(p) => IntentIssue::RuntimeDirectoryNotPrivate(p@),
            IntentError::SocketPathTooLong(p) => IntentIssue::SocketPathTooLong(p@),
            IntentError::EndpointInUse(p) => IntentIssue::EndpointInUse(p@),
            IntentError::FrameTooLarge => IntentIssue::FrameTooLarge,
            IntentError::TruncatedFrame => IntentIssue::TruncatedFrame,
            IntentError::EndpointMismatch => IntentIssue::EndpointMismatch,
        }
    }
}

/// The message of each intent error; paths are shown with invalid UTF-8 replaced.
pub open spec fn intent_error_message(issue: IntentIssue) -> Seq<char> {
    match issue {
        IntentIssue::Random(m) => "cannot obtain secure random bytes: "@ + m,
        IntentIssue::InvalidEndpoint => "intent endpoint must be 32 lowercase hexadecimal characters"@,
        IntentIssue::InvalidUri => "intent URI is invalid"@,
        IntentIssue::UnsupportedUriComponent => "intent URI query and fragment components are not supported"@,
        IntentIssue::InvalidTargetEncoding => "intent target encoding is invalid"@,
        IntentIssue::InvalidTargetBytes => "intent target is empty, contains NUL, or exceeds the 16384-byte bound"@,
        IntentIssue::TargetNotAbsolute => "intent target must be an absolute path"@,
        IntentIssue::UnsupportedPathEncoding => "path encoding is unsupported on this platform"@,
        IntentIssue::UnsupportedSchema(s) => "unsupported intent schema: "@ + s,
        IntentIssue::RuntimeDirectoryUnavailable => "XDG_RUNTIME_DIR is missing or is not absolute"@,
        IntentIssue::RuntimeDirectoryNotPrivate(p) => "intent runtime directory is not private: "@ + utf8_lossy(p),
        IntentIssue::SocketPathTooLong(p) => "intent socket path is too long: "@ + utf8_lossy(p),
        IntentIssue::EndpointInUse(p) => "intent endpoint is already bound: "@ + utf8_lossy(p),
        IntentIssue::FrameTooLarge => "intent frame exceeds the 65536-byte bound"@,
        IntentIssue::TruncatedFrame => "intent peer closed before a complete frame was received"@,
        IntentIssue::EndpointMismatch => "intent response endpoint does not match the request"@,
    }
}

fn prefixed(prefix: &str, rest: &str) -> (s: String)
    ensures
        s@ == prefix@ + rest@,
{
    let mut s = String::from_str(prefix);
    s.append(rest);
    s
}

impl IntentError {
    /// Human-readable description.
    pub fn message(&self) -> (s: String)
        ensures
            s@ == intent_error_message(self@),
    {
        match self {
            IntentError::Random(m) => prefixed("cannot obtain secure random bytes: ", m.as_str()),
            IntentError::InvalidEndpoint => String::from_str(
                "intent endpoint must be 32 lowercase hexadecimal characters",
            ),
            IntentError::InvalidUri => String::from_str("intent URI is invalid"),
            IntentError::UnsupportedUriComponent => String::from_str(
                "intent URI query and fragment components are not supported",
            ),
            IntentError::InvalidTargetEncoding => String::from_str(
                "intent target encoding is invalid",
            ),
            IntentError::InvalidTargetBytes => String::from_str(
                "intent target is empty, contains NUL, or exceeds the 16384-byte bound",
            ),
            IntentError::TargetNotAbsolute => String::from_str(
                "intent target must be an absolute path",
            ),
            IntentError::UnsupportedPathEncoding => String::from_str(
                "path encoding is unsupported on this platform",
            ),
            IntentError::UnsupportedSchema(s) => prefixed("unsupported intent schema: ", s.as_str()),
            IntentError::RuntimeDirectoryUnavailable => String::from_str(
                "XDG_RUNTIME_DIR is missing or is not absolute",
            ),
            IntentError::RuntimeDirectoryNotPrivate(p) => {
                let shown = utf8_lossy_string(p.as_slice());
                prefixed("intent runtime directory is not private: ", shown.as_str())
            },
            IntentError::SocketPathTooLong(p) => {
                let shown = utf8_lossy_string(p.as_slice());
                prefixed("intent socket path is too long: ", shown.as_str())
            },
            IntentError::EndpointInUse(p) => {
                let shown = utf8_lossy_string(p.as_slice());
                prefixed("intent endpoint is already bound: ", shown.as_str())
            },
            IntentError::FrameTooLarge => String::from_str(
                "intent frame exceeds the 65536-byte bound",
            ),
            IntentError::TruncatedFrame => String::from_str(
                "intent peer closed before a complete frame was received",
            ),
            IntentError::EndpointMismatch => String::from_str(
                "intent response endpoint does not match the request",
            ),
        }
    }
}

// ---------------------------------------------------------------------------------------------
// Targets and URIs
// ---------------------------------------------------------------------------------------------

/// Target bytes accepted by version one: non-empty, at most 16384 bytes, without NUL.
pub open spec fn target_bytes_valid(bytes: Seq<u8>) -> bool {
    &&& 0 < bytes.len() <= 16384
    &&& !bytes.contains(0u8)
}

/// The path an intent with these fields carries, or why it carries none: the schema must be
/// version one, the value must decode, the bytes must be valid, the encoding must be the Unix
/// one, and the path must be absolute, checked in that order.
pub open spec fn target_outcome(schema: Seq<char>, encoding: PathEncoding, value: Seq<char>) -> Result<
    Seq<u8>,
    IntentIssue,
> {
    if schema != OPEN_INTENT_SCHEMA_V1@ {
        Err(IntentIssue::UnsupportedSchema(schema))
    } else {
        match base64_decoding(Base64Profile::UrlSafeNoPad, value) {
            None => Err(IntentIssue::InvalidTargetEncoding),
            Some(bytes) => if !target_bytes_valid(bytes) {
                Err(IntentIssue::InvalidTargetBytes)
            } else if encoding != PathEncoding::UnixBytesBase64urlV1 {
                Err(IntentIssue::UnsupportedPathEncoding)
            } else if !is_absolute_path(bytes) {
                Err(IntentIssue::TargetNotAbsolute)
            } else {
                Ok(bytes)
            },
        }
    }
}

/// The path `intent` carries, or why it carries none.
pub open spec fn intent_target_outcome(intent: OpenIntentV1) -> Result<Seq<u8>, IntentIssue> {
    target_outcome(intent.schema@, intent.target.encoding, intent.target.value@)
}

/// `r` is the executable form of the outcome `o`.
pub open spec fn bytes_result_is(r: Result<Vec<u8>, IntentError>, o: Result<Seq<u8>, IntentIssue>) -> bool {
    match o {
        Ok(bytes) => r matches Ok(v) && v@ == bytes,
        Err(issue) => r matches Err(e) && e@ == issue,
    }
}

/// The encoding the unpadded URL-safe engine gives `bytes` decodes back to them, is not empty,
/// and uses only URL-safe characters.
pub open spec fn url_safe_round_trip(bytes: Seq<u8>, text: Seq<char>) -> bool {
    &&& base64_decoding(Base64Profile::UrlSafeNoPad, text) == Some(bytes)
    &&& text.len() > 0
    &&& forall|i: int| 0 <= i < text.len() ==> is_url_safe_base64_char(#[trigger] text[i])
}

/// The callback URI text for an endpoint and an encoded target.
pub open spec fn intent_uri_text(endpoint: Seq<char>, encoded: Seq<char>) -> Seq<char> {
    INTENT_URI_PREFIX_V1@ + endpoint + seq!['/'] + encoded
}

/// The endpoint and encoded target of a callback URI, or why it has none: no `?` or `#`, the
/// version-one prefix, a canonical endpoint up to the next `/`, then one non-empty segment.
pub open spec fn uri_segments(uri: Seq<char>) -> Result<(Seq<char>, Seq<char>), IntentIssue> {
    let prefix = INTENT_URI_PREFIX_V1@;
    if uri.contains('?') || uri.contains('#') {
        Err(IntentIssue::UnsupportedUriComponent)
    } else if !has_prefix(uri, prefix) {
        Err(IntentIssue::InvalidUri)
    } else {
        let suffix = uri.skip(prefix.len() as int);
        let slash = first_position(suffix, '/', 0);
        let endpoint = match slash {
            Some(j) => suffix.take(j),
            None => suffix,
        };
        if !is_canonical_endpoint(endpoint) {
            Err(IntentIssue::InvalidEndpoint)
        } else {
            match slash {
                None => Err(IntentIssue::InvalidUri),
                Some(j) => {
                    let encoded = suffix.skip(j + 1);
                    if encoded.len() == 0 || encoded.contains('/') {
                        Err(IntentIssue::InvalidUri)
                    } else {
                        Ok((endpoint, encoded))
                    }
                },
            }
        }
    }
}

/// The endpoint and encoded target of a callback URI whose target is a valid path, or why not.
pub open spec fn parse_uri_outcome(uri: Seq<char>) -> Result<(Seq<char>, Seq<char>), IntentIssue> {
    match uri_segments(uri) {
        Err(issue) => Err(issue),
        Ok((endpoint, encoded)) => match target_outcome(
            OPEN_INTENT_SCHEMA_V1@,
            PathEncoding::UnixBytesBase64urlV1,
            encoded,
        ) {
            Err(issue) => Err(issue),
            Ok(_) => Ok((endpoint, encoded)),
        },
    }
}

fn validate_target_bytes(bytes: &[u8]) -> (r: Result<(), IntentError>)
    ensures
        r is Ok <==> target_bytes_valid(bytes@),
        r matches Err(e) ==> e@ == IntentIssue::InvalidTargetBytes,
{
    if bytes.len() == 0 || bytes.len() > MAX_TARGET_BYTES {
        return Err(IntentError::InvalidTargetBytes);
    }
    let mut i: usize = 0;
    while i < bytes.len()
        invariant
            i <= bytes@.len(),
            forall|j: int| 0 <= j < i ==> bytes@[j] != 0u8,
        decreases bytes@.len() - i,
    {
        if bytes[i] == 0u8 {
            assert(bytes@.contains(0u8));
            return Err(IntentError::InvalidTargetBytes);
        }
        i = i + 1;
    }
    Ok(())
}

impl OpenIntentV1 {
    /// Construct an open intent for an exact absolute path.
    ///
    /// Refused when the path is relative or empty ([`IntentError::TargetNotAbsolute`]), or
    /// contains NUL or is over the version-one bound ([`IntentError::InvalidTargetBytes`]).
    /// The intent carries the path: its [`OpenIntentV1::path`] gives it back.
    pub fn from_path(endpoint: EndpointId, path: &[u8]) -> (r: Result<OpenIntentV1, IntentError>)
        ensures
            !is_absolute_path(path@) ==> (r matches Err(e) && e@ == IntentIssue::TargetNotAbsolute),
            is_absolute_path(path@) && !target_bytes_valid(path@) ==> (r matches Err(e) && e@
                == IntentIssue::InvalidTargetBytes),
            is_absolute_path(path@) && target_bytes_valid(path@) ==> (r matches Ok(i) && {
                &&& i.schema@ == OPEN_INTENT_SCHEMA_V1@
                &&& i.endpoint@ == endpoint@
                &&& i.action == IntentAction::OpenArtifact
                &&& i.target.encoding == PathEncoding::UnixBytesBase64urlV1
                &&& i.target.value@ == base64_encoding(Base64Profile::UrlSafeNoPad, path@)
                &&& url_safe_round_trip(path@, i.target.value@)
                &&& intent_target_outcome(i) == Ok::<Seq<u8>, IntentIssue>(path@)
            }),
    {
        if path.len() == 0 || path[0] != 47u8 {
            return Err(IntentError::TargetNotAbsolute);
        }
        match validate_target_bytes(path) {
            Err(e) => {
                return Err(e);
            },
            Ok(()) => {},
        }
        let value = base64_encode(Base64Profile::UrlSafeNoPad, path);
        let intent = OpenIntentV1 {
            schema: String::from_str(OPEN_INTENT_SCHEMA_V1),
            endpoint,
            action: IntentAction::OpenArtifact,
            target: EncodedPathV1 { encoding: PathEncoding::UnixBytesBase64urlV1, value },
        };
        Ok(intent)
    }

    /// Decode and validate the exact path carried by this intent; exactly
    /// [`intent_target_outcome`].
    pub fn path(&self) -> (r: Result<Vec<u8>, IntentError>)
        ensures
            bytes_result_is(r, intent_target_outcome(*self)),
    {
        if !text_eq(self.schema.as_str(), OPEN_INTENT_SCHEMA_V1) {
            return Err(IntentError::UnsupportedSchema(self.schema.clone()));
        }
        let bytes = match base64_decode(Base64Profile::UrlSafeNoPad, self.target.value.as_str()) {
            None => {
                return Err(IntentError::InvalidTargetEncoding);
            },
            Some(bytes) => bytes,
        };
        match validate_target_bytes(bytes.as_slice()) {
            Err(e) => {
                return Err(e);
            },
            Ok(()) => {},
        }
        match self.target.encoding {
            PathEncoding::UnixBytesBase64urlV1 => {},
            PathEncoding::Utf8Base64urlV1 => {
                return Err(IntentError::UnsupportedPathEncoding);
            },
        }
        if bytes[0] != 47u8 {
            return Err(IntentError::TargetNotAbsolute);
        }
        Ok(bytes)
    }

    /// Encode this intent as its canonical callback URI: the prefix, the endpoint, `/`, and the
    /// canonical encoding of the decoded path.
    ///
    /// Refused, with the error of [`OpenIntentV1::path`], when the carried path is invalid.
    pub fn uri(&self) -> (r: Result<String, IntentError>)
        ensures
            match intent_target_outcome(*self) {
                Ok(bytes) => r matches Ok(s) && s@ == intent_uri_text(
                    self.endpoint@,
                    base64_encoding(Base64Profile::UrlSafeNoPad, bytes),
                ) && url_safe_round_trip(
                    bytes,
                    base64_encoding(Base64Profile::UrlSafeNoPad, bytes),
                ),
                Err(issue) => r matches Err(e) && e@ == issue,
            },
    {
        let bytes = match self.path() {
            Err(e) => {
                return Err(e);
            },
            Ok(bytes) => bytes,
        };
        let encoded = base64_encode(Base64Profile::UrlSafeNoPad, bytes.as_slice());
        let mut s = String::from_str(INTENT_URI_PREFIX_V1);
        s.append(self.endpoint.as_str());
        push_char(&mut s, '/');
        s.append(encoded.as_str());
        Ok(s)
    }

    /// Parse and validate one canonical callback URI; exactly [`parse_uri_outcome`].
    pub fn parse_uri(uri: &str) -> (r: Result<OpenIntentV1, IntentError>)
        ensures
            match parse_uri_outcome(uri@) {
                Ok((endpoint, encoded)) => r matches Ok(i) && {
                    &&& i.schema@ == OPEN_INTENT_SCHEMA_V1@
                    &&& i.endpoint@ == endpoint
                    &&& i.action == IntentAction::OpenArtifact
                    &&& i.target.encoding == PathEncoding::UnixBytesBase64urlV1
                    &&& i.target.value@ == encoded
                },
                Err(issue) => r matches Err(e) && e@ == issue,
            },
    {
        let chars = chars_of(uri);
        if contains_char(chars.as_slice(), '?') || contains_char(chars.as_slice(), '#') {
            return Err(IntentError::UnsupportedUriComponent);
        }
        let prefix = chars_of(INTENT_URI_PREFIX_V1);
        if !starts_with_chars(chars.as_slice(), prefix.as_slice()) {
            return Err(IntentError::InvalidUri);
        }
        let suffix = copy_chars(chars.as_slice(), prefix.len(), chars.len());
        assert(suffix@ =~= uri@.skip(INTENT_URI_PREFIX_V1@.len() as int));
        let slash = find_char(suffix.as_slice(), 0, '/');
        let endpoint_chars = copy_chars(suffix.as_slice(), 0, slash);
        assert(endpoint_chars@ =~= match first_position(suffix@, '/', 0) {
            Some(j) => suffix@.take(j),
            None => suffix@,
        });
        let endpoint_text = string_from_chars(endpoint_chars.as_slice());
        let endpoint = match EndpointId::parse(endpoint_text.as_str()) {
            Err(e) => {
                return Err(e);
            },
            Ok(endpoint) => endpoint,
        };
        if slash == suffix.len() {
            return Err(IntentError::InvalidUri);
        }
        let encoded = copy_chars(suffix.as_slice(), slash + 1, suffix.len());
        assert(encoded@ =~= suffix@.skip(slash + 1));
        if encoded.len() == 0 || contains_char(encoded.as_slice(), '/') {
            return Err(IntentError::InvalidUri);
        }
        let intent = OpenIntentV1 {
            schema: String::from_str(OPEN_INTENT_SCHEMA_V1),
            endpoint,
            action: IntentAction::OpenArtifact,
            target: EncodedPathV1 {
                encoding: PathEncoding::UnixBytesBase64urlV1,
                value: string_from_chars(encoded.as_slice()),
            },
        };
        match intent.path() {
            Err(e) => Err(e),
            Ok(_) => Ok(intent),
        }
    }
}

/// A callback URI built from a canonical endpoint and the URL-safe encoding of a valid absolute
/// path parses back to that endpoint and encoding, and the encoding back to the path: what
/// [`OpenIntentV1::uri`] produces, [`OpenIntentV1::parse_uri`] accepts unchanged.
pub proof fn lemma_uri_round_trip(endpoint: Seq<char>, path: Seq<u8>, encoded: Seq<char>)
    requires
        is_canonical_endpoint(endpoint),
        is_absolute_path(path),
        target_bytes_valid(path),
        url_safe_round_trip(path, encoded),
    ensures
        parse_uri_outcome(intent_uri_text(endpoint, encoded)) == Ok::<
            (Seq<char>, Seq<char>),
            IntentIssue,
        >((endpoint, encoded)),
        target_outcome(OPEN_INTENT_SCHEMA_V1@, PathEncoding::UnixBytesBase64urlV1, encoded)
            == Ok::<Seq<u8>, IntentIssue>(path),
{
    reveal_strlit("terminal-interop-intent://v1/open/");
    let prefix = INTENT_URI_PREFIX_V1@;
    let uri = intent_uri_text(endpoint, encoded);
    let suffix = endpoint + seq!['/'] + encoded;
    assert(uri =~= prefix + suffix);
    assert forall|i: int| 0 <= i < uri.len() implies uri[i] != '?' && uri[i] != '#' by {
        if i < prefix.len() {
            assert(uri[i] == prefix[i]);
        } else if i < prefix.len() + 32 {
            assert(uri[i] == endpoint[i - prefix.len()]);
            assert(is_lower_hex(endpoint[i - prefix.len()]));
        } else if i == prefix.len() + 32 {
            assert(uri[i] == '/');
        } else {
            assert(uri[i] == encoded[i - prefix.len() - 33]);
            assert(is_url_safe_base64_char(encoded[i - prefix.len() - 33]));
        }
    }
    assert(!uri.contains('?'));
    assert(!uri.contains('#'));
    assert(uri.take(prefix.len() as int) =~= prefix);
    assert(uri.skip(prefix.len() as int) =~= suffix);
    lemma_first_position(suffix, '/', 0);
    assert(suffix[32] == '/');
    assert forall|i: int| 0 <= i < 32 implies suffix[i] != '/' by {
        assert(suffix[i] == endpoint[i]);
        assert(is_lower_hex(endpoint[i]));
    }
    assert(first_position(suffix, '/', 0) == Some(32int));
    assert(suffix.take(32) =~= endpoint);
    assert(suffix.skip(33) =~= encoded);
    assert forall|i: int| 0 <= i < encoded.len() implies encoded[i] != '/' by {
        assert(is_url_safe_base64_char(encoded[i]));
    }
    assert(!encoded.contains('/'));
}

// ---------------------------------------------------------------------------------------------
// Frames
// ---------------------------------------------------------------------------------------------

/// The four big-endian length bytes that precede a frame payload of `n` bytes.
pub open spec fn frame_header(n: nat) -> Seq<u8> {
    seq![
        (n / 16777216 % 256) as u8,
        (n / 65536 % 256) as u8,
        (n / 256 % 256) as u8,
        (n % 256) as u8,
    ]
}

/// The length a big-endian frame header announces.
pub open spec fn header_length(header: Seq<u8>) -> nat {
    (header[0] * 16777216 + header[1] * 65536 + header[2] * 256 + header[3]) as nat
}

/// A frame header decodes to the length it was written for, for every length a frame may have.
pub proof fn lemma_frame_header_round_trip(n: nat)
    requires
        n <= 65536,
    ensures
        header_length(frame_header(n)) == n,
{
    let h = frame_header(n);
    assert(h[0] == 0);
    assert(h[1] == n / 65536);
    assert(h[2] == n / 256 % 256);
    assert(h[3] == n % 256);
    assert(n == (n / 65536) * 65536 + (n / 256 % 256) * 256 + n % 256) by (nonlinear_arith)
        requires
            n <= 65536,
    ;
}

/// Frame one serialized payload: its length in four big-endian bytes, then the payload.
///
/// Refused with [`IntentError::FrameTooLarge`] above 65536 bytes.
pub fn encode_frame(payload: &[u8]) -> (r: Result<Vec<u8>, IntentError>)
    ensures
        payload@.len() > 65536 ==> (r matches Err(e) && e@ == IntentIssue::FrameTooLarge),
        payload@.len() <= 65536 ==> (r matches Ok(frame) && frame@ == frame_header(
            payload@.len(),
        ) + payload@),
{
    if payload.len() > MAX_FRAME_BYTES {
        return Err(IntentError::FrameTooLarge);
    }
    let n = payload.len();
    let mut frame: Vec<u8> = Vec::new();
    frame.push((n / 16777216 % 256) as u8);
    frame.push((n / 65536 % 256) as u8);
    frame.push((n / 256 % 256) as u8);
    frame.push((n % 256) as u8);
    assert(frame@ =~= frame_header(n as nat));
    extend_bytes(&mut frame, payload);
    Ok(frame)
}

/// The payload length a frame header announces.
///
/// Refused with [`IntentError::FrameTooLarge`] above 65536 bytes.
pub fn decode_frame_header(header: [u8; 4]) -> (r: Result<usize, IntentError>)
    ensures
        header_length(header@) > 65536 ==> (r matches Err(e) && e@ == IntentIssue::FrameTooLarge),
        header_length(header@) <= 65536 ==> r == Ok::<usize, IntentError>(
            header_length(header@) as usize,
        ),
{
    let length: u64 = header[0] as u64 * 16777216 + header[1] as u64 * 65536 + header[2] as u64
        * 256 + header[3] as u64;
    if length > 65536 {
        return Err(IntentError::FrameTooLarge);
    }
    Ok(length as usize)
}

// ---------------------------------------------------------------------------------------------
// Local endpoints and delivery checks
// ---------------------------------------------------------------------------------------------

/// The intent socket root under a runtime directory: `terminal-interop/intent-v1`.
pub open spec fn runtime_root_of(runtime_dir: Seq<u8>) -> Seq<u8> {
    path_join(path_join(runtime_dir, ascii_bytes("terminal-interop"@)), ascii_bytes("intent-v1"@))
}

/// The private per-user runtime root for version-one intent sockets, under the value of
/// `XDG_RUNTIME_DIR`.
///
/// Refused with [`IntentError::RuntimeDirectoryUnavailable`] when the value is absent or
/// relative.
pub fn runtime_root(xdg_runtime_dir: Option<&[u8]>) -> (r: Result<Vec<u8>, IntentError>)
    ensures
        match xdg_runtime_dir {
            Some(dir) if is_absolute_path(dir@) => r matches Ok(root) && root@ == runtime_root_of(
                dir@,
            ),
            _ => r matches Err(e) && e@ == IntentIssue::RuntimeDirectoryUnavailable,
        },
{
    match xdg_runtime_dir {
        Some(dir) => {
            if dir.len() == 0 || dir[0] != 47u8 {
                return Err(IntentError::RuntimeDirectoryUnavailable);
            }
            let mut first: Vec<u8> = Vec::new();
            push_ascii(&mut first, "terminal-interop");
            let mut second: Vec<u8> = Vec::new();
            push_ascii(&mut second, "intent-v1");
            let base = join_path(dir, first.as_slice());
            Ok(join_path(base.as_slice(), second.as_slice()))
        },
        None => Err(IntentError::RuntimeDirectoryUnavailable),
    }
}

/// Accept a prepared runtime root only when it is a directory that no group or other user may
/// access: the permission bits `0o077` of its mode are clear.
///
/// Refused with [`IntentError::RuntimeDirectoryNotPrivate`], carrying the root, otherwise.
pub fn check_runtime_directory(root: &[u8], is_dir: bool, mode: u32) -> (r: Result<(), IntentError>)
    ensures
        is_dir && mode & 63u32 == 0 ==> r is Ok,
        !(is_dir && mode & 63u32 == 0) ==> (r matches Err(e) && e@
            == IntentIssue::RuntimeDirectoryNotPrivate(root@)),
{
    if !is_dir || mode & 63u32 != 0 {
        let mut path: Vec<u8> = Vec::new();
        extend_bytes(&mut path, root);
        return Err(IntentError::RuntimeDirectoryNotPrivate(path));
    }
    Ok(())
}

/// The socket path of `endpoint` under `root`: the endpoint text followed by `.sock`.
pub open spec fn socket_path_of(root: Seq<u8>, endpoint: Seq<char>) -> Seq<u8> {
    path_join(root, vstd::utf8::encode_utf8(endpoint) + ascii_bytes(".sock"@))
}

/// Derive the bounded socket path for one endpoint under an explicit runtime root.
///
/// Refused with [`IntentError::SocketPathTooLong`], carrying the path, above 100 bytes.
pub fn socket_path(root: &[u8], endpoint: &EndpointId) -> (r: Result<Vec<u8>, IntentError>)
    ensures
        socket_path_of(root@, endpoint@).len() > 100 ==> (r matches Err(e) && e@
            == IntentIssue::SocketPathTooLong(socket_path_of(root@, endpoint@))),
        socket_path_of(root@, endpoint@).len() <= 100 ==> (r matches Ok(path) && path@
            == socket_path_of(root@, endpoint@)),
{
    let mut name: Vec<u8> = Vec::new();
    extend_bytes(&mut name, endpoint.as_str().as_bytes());
    push_ascii(&mut name, ".sock");
    let path = join_path(root, name.as_slice());
    if path.len() > SOCKET_PATH_SOFT_LIMIT {
        return Err(IntentError::SocketPathTooLong(path));
    }
    Ok(path)
}

/// Whether two endpoints hold the same text.
pub fn same_endpoint(a: &EndpointId, b: &EndpointId) -> (r: bool)
    ensures
        r == (a@ == b@),
{
    text_eq(a.as_str(), b.as_str())
}

/// Admit one request received by the consumer bound to `bound`: its endpoint must be the bound
/// one ([`IntentError::EndpointMismatch`] otherwise), and it must carry a valid path, which is
/// returned.
pub fn admit_request(bound: &EndpointId, intent: &OpenIntentV1) -> (r: Result<Vec<u8>, IntentError>)
    ensures
        intent.endpoint@ != bound@ ==> (r matches Err(e) && e@ == IntentIssue::EndpointMismatch),
        intent.endpoint@ == bound@ ==> bytes_result_is(r, intent_target_outcome(*intent)),
{
    if !same_endpoint(&intent.endpoint, bound) {
        return Err(IntentError::EndpointMismatch);
    }
    intent.path()
}

/// The receipt a consumer returns for a request addressed to another endpoint.
pub fn endpoint_mismatch_receipt(bound: &EndpointId) -> (r: IntentReceiptV1)
    ensures
        r.schema@ == INTENT_RECEIPT_SCHEMA_V1@,
        r.endpoint@ == bound@,
        r.state == IntentDeliveryState::Rejected,
        r.detail@ == "request endpoint does not match the bound consumer"@,
{
    IntentReceiptV1::rejected(bound.clone(), "request endpoint does not match the bound consumer")
}

/// Accept the receipt of a dispatched intent only when it names the intent's endpoint.
pub fn check_receipt(intent: &OpenIntentV1, receipt: IntentReceiptV1) -> (r: Result<
    IntentReceiptV1,
    IntentError,
>)
    ensures
        receipt.endpoint@ == intent.endpoint@ ==> r == Ok::<IntentReceiptV1, IntentError>(receipt),
        receipt.endpoint@ != intent.endpoint@ ==> (r matches Err(e) && e@
            == IntentIssue::EndpointMismatch),
{
    if !same_endpoint(&receipt.endpoint, &intent.endpoint) {
        return Err(IntentError::EndpointMismatch);
    }
    Ok(receipt)
}

} // verus!
