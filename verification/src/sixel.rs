//! Sixel capability assessment from DA1 advertisement, and Sixel encoding.

use crate::da1::{
    build_query as build_da1_query, da1_event_matches, da1_response_matches,
    da1_response_offsets, da1_response_spec, lemma_wire_event_of_response, parse_responses,
};
use crate::evidence::{
    assertion_view, av, expected_sequence, AdapterIdentity, AssertionOutcome, AssertionResult,
    AssertionView, Assessment, Availability, CapabilityId, Conformance, ProtocolId, WireEvent,
    WireEventRole,
};
use crate::text::{decimal_chars, decimal_string};
use icy_sixel::{EncodeOptions, SixelError};
use vstd::prelude::*;

verus! {

/// DA1 extension identifier assigned to Sixel graphics.
pub const SIXEL_DA1_EXTENSION: u16 = 4;

/// Adapter implementation version.
pub const ADAPTER_VERSION: &'static str = "0.1.0";

/// Parsed Sixel capability exchange.
#[derive(Clone, Debug, PartialEq, Eq)]
pub struct ParsedExchange {
    /// Recognized DA1 response events.
    pub events: Vec<WireEvent>,
    /// Evidence-backed capability assessment.
    pub assessment: Assessment,
    /// Whether a valid DA1 response was observed.
    pub response_seen: bool,
    /// Whether a response advertised extension identifier 4.
    pub sixel_advertised: bool,
}

/// The Sixel profile identity.
pub open spec fn is_sixel_protocol(p: ProtocolId) -> bool {
    &&& p.namespace@ == "org.dec"@
    &&& p.name@ == "sixel-raster-graphics"@
    &&& p.revision@ == "da1-extension-4-v1"@
}

/// Sixel protocol identity used by this profile.
pub fn protocol_id() -> (p: ProtocolId)
    ensures
        is_sixel_protocol(p),
{
    ProtocolId {
        namespace: String::from_str("org.dec"),
        name: String::from_str("sixel-raster-graphics"),
        revision: String::from_str("da1-extension-4-v1"),
    }
}

/// Capability identity established by a DA1 response.
pub fn capability_id() -> (c: CapabilityId)
    ensures
        is_sixel_protocol(c.protocol),
        c.name@ == "raster-image-display"@,
{
    CapabilityId { protocol: protocol_id(), name: String::from_str("raster-image-display") }
}

/// Identity of this adapter implementation.
pub fn adapter_identity() -> (a: AdapterIdentity)
    ensures
        a.name@ == "terminal-interop-sixel"@,
        a.version@ == ADAPTER_VERSION@,
{
    AdapterIdentity {
        name: String::from_str("terminal-interop-sixel"),
        version: String::from_str(ADAPTER_VERSION),
    }
}

/// Build the standard DA1 query used to discover Sixel advertisement: `ESC [ c`.
pub fn build_query() -> (q: Vec<u8>)
    ensures
        q@ == seq![27u8, 91u8, 99u8],
{
    build_da1_query()
}

/// Some parameter after the device level equals `extension`.
pub open spec fn advertises_extension(parameters: Seq<u16>, extension: u16) -> bool {
    exists|i: int| 1 <= i < parameters.len() && parameters[i] == extension
}

/// The response found at `offset` advertises `extension`.
pub open spec fn response_advertises(input: Seq<u8>, offset: int, extension: u16) -> bool {
    match da1_response_spec(input, offset) {
        Some((_, parameters)) => advertises_extension(parameters, extension),
        None => false,
    }
}

/// Some complete DA1 response in `input` advertises Sixel.
pub open spec fn sixel_advertised_in(input: Seq<u8>) -> bool {
    let offsets = da1_response_offsets(input, 0);
    exists|i: int|
        0 <= i < offsets.len() && response_advertises(
            input,
            #[trigger] offsets[i] as int,
            SIXEL_DA1_EXTENSION,
        )
}

/// The assessment of a DA1 exchange: available and conformant when a response advertises
/// extension 4, unavailable when responses were seen without it, unknown without a response.
pub open spec fn sixel_assessment(input: Seq<u8>) -> (Availability, Conformance, Seq<AssertionView>) {
    if sixel_advertised_in(input) {
        (
            Availability::Available,
            Conformance::Conformant,
            seq![
                av("sixel.da1.response"@, AssertionOutcome::Pass, "a valid primary device attributes response was observed"@),
                av("sixel.da1.extension-4"@, AssertionOutcome::Pass, "the response advertised Sixel extension identifier 4"@),
            ],
        )
    } else if da1_response_offsets(input, 0).len() > 0 {
        (
            Availability::Unavailable,
            Conformance::NotApplicable,
            seq![
                av("sixel.da1.response"@, AssertionOutcome::Pass, "a valid primary device attributes response was observed"@),
                av("sixel.da1.extension-4"@, AssertionOutcome::NotApplicable, "the response did not advertise Sixel extension identifier 4"@),
            ],
        )
    } else {
        (
            Availability::Unknown,
            Conformance::Inconclusive,
            seq![
                av("sixel.da1.response"@, AssertionOutcome::Unknown, "no complete primary device attributes response was observed"@),
                av("sixel.da1.extension-4"@, AssertionOutcome::Unknown, "Sixel advertisement cannot be evaluated without a DA1 response"@),
            ],
        )
    }
}

/// `a` is the assessment [`sixel_assessment`] derives from `input`.
pub open spec fn sixel_assessment_matches(input: Seq<u8>, a: Assessment) -> bool {
    let (availability, conformance, assertions) = sixel_assessment(input);
    &&& a.availability == availability
    &&& a.conformance == conformance
    &&& a.assertions@.map_values(|x: AssertionResult| assertion_view(x)) == assertions
}

/// Sixel is available, and then conformant, exactly when a complete DA1 response advertises
/// extension 4; responses without it make Sixel unavailable, and no response leaves it unknown.
pub proof fn lemma_sixel_availability(input: Seq<u8>)
    ensures
        (sixel_assessment(input).0 == Availability::Available) == sixel_advertised_in(input),
        (sixel_assessment(input).0 == Availability::Available) == (sixel_assessment(input).1
            == Conformance::Conformant),
        (sixel_assessment(input).0 == Availability::Unavailable) == (!sixel_advertised_in(input)
            && da1_response_offsets(input, 0).len() > 0),
        (sixel_assessment(input).0 == Availability::Unknown) == (da1_response_offsets(input, 0).len()
            == 0),
{
    let offsets = da1_response_offsets(input, 0);
    if sixel_advertised_in(input) {
        let i = choose|i: int|
            0 <= i < offsets.len() && response_advertises(
                input,
                #[trigger] offsets[i] as int,
                SIXEL_DA1_EXTENSION,
            );
        assert(offsets.len() > 0);
    }
}

fn assertion(id: &str, outcome: AssertionOutcome, detail: &str) -> (a: AssertionResult)
    ensures
        assertion_view(a) == av(id@, outcome, detail@),
{
    AssertionResult { id: String::from_str(id), outcome, detail: String::from_str(detail) }
}

fn sequence_number(index: usize) -> (s: u32)
    ensures
        s == expected_sequence(index as nat),
{
    if index <= 0xffff_ffffusize {
        index as u32
    } else {
        0xffff_ffffu32
    }
}

fn assess(advertised: bool, response_seen: bool) -> (a: Assessment)
    ensures
        a.availability == (if advertised {
            Availability::Available
        } else if response_seen {
            Availability::Unavailable
        } else {
            Availability::Unknown
        }),
        a.conformance == (if advertised {
            Conformance::Conformant
        } else if response_seen {
            Conformance::NotApplicable
        } else {
            Conformance::Inconclusive
        }),
        a.assertions@.map_values(|x: AssertionResult| assertion_view(x)) == (if advertised {
            seq![
                av("sixel.da1.response"@, AssertionOutcome::Pass, "a valid primary device attributes response was observed"@),
                av("sixel.da1.extension-4"@, AssertionOutcome::Pass, "the response advertised Sixel extension identifier 4"@),
            ]
        } else if response_seen {
            seq![
                av("sixel.da1.response"@, AssertionOutcome::Pass, "a valid primary device attributes response was observed"@),
                av("sixel.da1.extension-4"@, AssertionOutcome::NotApplicable, "the response did not advertise Sixel extension identifier 4"@),
            ]
        } else {
            seq![
                av("sixel.da1.response"@, AssertionOutcome::Unknown, "no complete primary device attributes response was observed"@),
                av("sixel.da1.extension-4"@, AssertionOutcome::Unknown, "Sixel advertisement cannot be evaluated without a DA1 response"@),
            ]
        }),
{
    let mut assertions: Vec<AssertionResult> = Vec::new();
    if advertised {
        assertions.push(assertion("sixel.da1.response", AssertionOutcome::Pass, "a valid primary device attributes response was observed"));
        assertions.push(assertion("sixel.da1.extension-4", AssertionOutcome::Pass, "the response advertised Sixel extension identifier 4"));
        let ghost v = assertions@.map_values(|x: AssertionResult| assertion_view(x));
        assert(v[0] == assertion_view(assertions@[0]));
        Assessment {
            availability: Availability::Available,
            conformance: Conformance::Conformant,
            assertions,
        }
    } else if response_seen {
        assertions.push(assertion("sixel.da1.response", AssertionOutcome::Pass, "a valid primary device attributes response was observed"));
        assertions.push(assertion("sixel.da1.extension-4", AssertionOutcome::NotApplicable, "the response did not advertise Sixel extension identifier 4"));
        Assessment {
            availability: Availability::Unavailable,
            conformance: Conformance::NotApplicable,
            assertions,
        }
    } else {
        assertions.push(assertion("sixel.da1.response", AssertionOutcome::Unknown, "no complete primary device attributes response was observed"));
        assertions.push(assertion("sixel.da1.extension-4", AssertionOutcome::Unknown, "Sixel advertisement cannot be evaluated without a DA1 response"));
        Assessment {
            availability: Availability::Unknown,
            conformance: Conformance::Inconclusive,
            assertions,
        }
    }
}

/// Parse a DA1 response stream and assess whether Sixel is advertised.
///
/// Events are the complete DA1 responses in wire order, numbered from zero as capability
/// replies; the assessment is [`sixel_assessment`].
pub fn parse_exchange(input: &[u8]) -> (p: ParsedExchange)
    ensures
        p.events@.len() == da1_response_offsets(input@, 0).len(),
        forall|i: int|
            0 <= i < p.events@.len() ==> da1_event_matches(
                input@,
                da1_response_offsets(input@, 0)[i] as int,
                expected_sequence(i as nat),
                WireEventRole::CapabilityReply,
                #[trigger] p.events@[i],
            ),
        p.response_seen == (da1_response_offsets(input@, 0).len() > 0),
        p.sixel_advertised == sixel_advertised_in(input@),
        sixel_assessment_matches(input@, p.assessment),
{
    let responses = parse_responses(input);
    let ghost offsets = da1_response_offsets(input@, 0);
    let response_seen = responses.len() > 0;
    let mut sixel_advertised = false;
    let mut events: Vec<WireEvent> = Vec::new();
    let mut i: usize = 0;
    while i < responses.len()
        invariant
            i <= responses@.len() == offsets.len(),
            offsets == da1_response_offsets(input@, 0),
            forall|j: int|
                0 <= j < responses@.len() ==> da1_response_matches(
                    input@,
                    offsets[j] as int,
                    #[trigger] responses@[j],
                ),
            events@.len() == i,
            forall|j: int|
                0 <= j < i ==> da1_event_matches(
                    input@,
                    offsets[j] as int,
                    expected_sequence(j as nat),
                    WireEventRole::CapabilityReply,
                    #[trigger] events@[j],
                ),
            sixel_advertised == exists|j: int|
                0 <= j < i && response_advertises(
                    input@,
                    #[trigger] offsets[j] as int,
                    SIXEL_DA1_EXTENSION,
                ),
        decreases responses@.len() - i,
    {
        let response = &responses[i];
        assert(da1_response_matches(input@, offsets[i as int] as int, *response));
        let advertised = response.advertises(SIXEL_DA1_EXTENSION);
        assert(advertised == response_advertises(input@, offsets[i as int] as int, SIXEL_DA1_EXTENSION));
        let event = response.wire_event(sequence_number(i), WireEventRole::CapabilityReply);
        proof {
            lemma_wire_event_of_response(
                input@,
                offsets[i as int] as int,
                *response,
                expected_sequence(i as nat),
                WireEventRole::CapabilityReply,
                event,
            );
        }
        events.push(event);
        sixel_advertised = sixel_advertised || advertised;
        i = i + 1;
    }
    let assessment = assess(sixel_advertised, response_seen);
    ParsedExchange { events, assessment, response_seen, sixel_advertised }
}

// ---------------------------------------------------------------------------------------------
// Encoding
// ---------------------------------------------------------------------------------------------

/// Encoding options of the `icy_sixel` crate (palette size, dithering, quantizer).
#[verifier::external_type_specification]
#[verifier::external_body]
pub struct ExEncodeOptions(icy_sixel::EncodeOptions);

/// Why an image could not be encoded.
#[derive(Clone, Debug, PartialEq, Eq)]
pub enum SixelEncodeError {
    /// Width or height is zero or beyond the encoder's raster limits.
    InvalidDimensions { width: usize, height: usize },
    /// The RGBA buffer does not hold exactly four bytes per pixel.
    BufferSizeMismatch { expected: usize, actual: usize },
    /// Malformed Sixel data.
    InvalidData(String),
    /// No Sixel introducer was found.
    NoSixelData,
    /// Colour quantization failed.
    Quantization(String),
    /// The pixel count overflowed.
    IntegerOverflow,
}

impl SixelEncodeError {
    /// Human-readable description.
    pub fn message(&self) -> (s: String)
        ensures
            s@ == sixel_error_message(*self),
    {
        match self {
            SixelEncodeError::InvalidDimensions { width, height } => {
                let mut s = String::from_str("invalid dimensions: ");
                s.append(decimal_string(*width as u64).as_str());
                s.append("x");
                s.append(decimal_string(*height as u64).as_str());
                s
            },
            SixelEncodeError::BufferSizeMismatch { expected, actual } => {
                let mut s = String::from_str("buffer size mismatch: expected ");
                s.append(decimal_string(*expected as u64).as_str());
                s.append(" bytes, got ");
                s.append(decimal_string(*actual as u64).as_str());
                s
            },
            SixelEncodeError::InvalidData(detail) => {
                let mut s = String::from_str("invalid SIXEL data: ");
                s.append(detail.as_str());
                s
            },
            SixelEncodeError::NoSixelData => String::from_str(
                "no SIXEL data found (missing DCS introducer)",
            ),
            SixelEncodeError::Quantization(detail) => {
                let mut s = String::from_str("quantization error: ");
                s.append(detail.as_str());
                s
            },
            SixelEncodeError::IntegerOverflow => String::from_str("integer overflow"),
        }
    }
}

/// The message of each encoding error.
pub open spec fn sixel_error_message(e: SixelEncodeError) -> Seq<char> {
    match e {
        SixelEncodeError::InvalidDimensions { width, height } => "invalid dimensions: "@
            + decimal_chars(width as nat) + "x"@ + decimal_chars(height as nat),
        SixelEncodeError::BufferSizeMismatch { expected, actual } => "buffer size mismatch: expected "@
            + decimal_chars(expected as nat) + " bytes, got "@ + decimal_chars(actual as nat),
        SixelEncodeError::InvalidData(detail) => "invalid SIXEL data: "@ + detail@,
        SixelEncodeError::NoSixelData => "no SIXEL data found (missing DCS introducer)"@,
        SixelEncodeError::Quantization(detail) => "quantization error: "@ + detail@,
        SixelEncodeError::IntegerOverflow => "integer overflow"@,
    }
}

/// Height of the raster rounded up to whole six-row bands.
pub open spec fn band_height(height: nat) -> nat {
    ((height + 5) / 6 * 6) as nat
}

/// The encoder's raster limits: at most 1000000 columns and band rows, and at most 64 Mi pixels
/// once the last band is complete.
pub open spec fn within_raster_limits(width: nat, height: nat) -> bool {
    &&& width <= 1_000_000
    &&& band_height(height) <= 1_000_000
    &&& width * band_height(height) <= 64 * 1024 * 1024
}

/// What encoding an RGBA buffer of `length` bytes as a `width` by `height` image yields, as far
/// as it is decided by the dimensions: zero dimensions, a byte count past `usize`, raster limits
/// and a buffer of the wrong size are each refused; every other input is encoded, and the
/// encoding frames a DCS string `ESC P .. ESC \`.
pub open spec fn sixel_encode_outcome(
    length: nat,
    width: usize,
    height: usize,
    r: Result<Vec<u8>, SixelEncodeError>,
) -> bool {
    let bytes = width * height * 4;
    &&& (width == 0 || height == 0) ==> r == Err::<Vec<u8>, SixelEncodeError>(
        SixelEncodeError::InvalidDimensions { width, height },
    )
    &&& (width > 0 && height > 0 && bytes > usize::MAX) ==> r == Err::<Vec<u8>, SixelEncodeError>(
        SixelEncodeError::IntegerOverflow,
    )
    &&& (width > 0 && height > 0 && bytes <= usize::MAX && !within_raster_limits(
        width as nat,
        height as nat,
    )) ==> r == Err::<Vec<u8>, SixelEncodeError>(
        SixelEncodeError::InvalidDimensions { width, height },
    )
    &&& (width > 0 && height > 0 && bytes <= usize::MAX && within_raster_limits(
        width as nat,
        height as nat,
    ) && length != bytes) ==> r == Err::<Vec<u8>, SixelEncodeError>(
        SixelEncodeError::BufferSizeMismatch { expected: bytes as usize, actual: length as usize },
    )
    &&& (width > 0 && height > 0 && bytes <= usize::MAX && within_raster_limits(
        width as nat,
        height as nat,
    ) && length == bytes) ==> r is Ok
    &&& r matches Ok(out) ==> {
        &&& width > 0 && height > 0
        &&& within_raster_limits(width as nat, height as nat)
        &&& length == bytes
        &&& out@.len() >= 4
        &&& out@[0] == 27u8 && out@[1] == 80u8
        &&& out@[out@.len() - 2] == 27u8 && out@[out@.len() - 1] == 92u8
    }
}

/// Encodes with `icy_sixel::sixel_encode` and returns the string's bytes; each `SixelError`
/// variant becomes the variant of the same name.
///
/// Trusted: the crate's checks of dimensions and buffer size, in the order its source makes
/// them, as [`sixel_encode_outcome`] states; that an input passing them is encoded (the
/// quantizer's own checks, a pixel count that fits `u32` and a non-empty input, always hold
/// there); and that its output opens with `ESC P` and closes with `ESC \`. The pixels between are not stated: palette and dithering are computed in
/// floating point.
#[verifier::external_body]
fn sixel_encode_bytes(rgba: &[u8], width: usize, height: usize, options: &EncodeOptions) -> (r:
    Result<Vec<u8>, SixelEncodeError>)
    ensures
        sixel_encode_outcome(rgba@.len(), width, height, r),
{
    match icy_sixel::sixel_encode(rgba, width, height, options) {
        Ok(text) => Ok(text.into_bytes()),
        Err(SixelError::InvalidDimensions { width, height }) => Err(SixelEncodeError::InvalidDimensions { width, height }),
        Err(SixelError::BufferSizeMismatch { expected, actual }) => Err(SixelEncodeError::BufferSizeMismatch { expected, actual }),
        Err(SixelError::InvalidData(m)) => Err(SixelEncodeError::InvalidData(m)),
        Err(SixelError::NoSixelData) => Err(SixelEncodeError::NoSixelData),
        Err(SixelError::Quantization(m)) => Err(SixelEncodeError::Quantization(m)),
        Err(SixelError::IntegerOverflow) => Err(SixelEncodeError::IntegerOverflow),
    }
}

/// The `icy_sixel` default options (`EncodeOptions::default`): 256 colours, Floyd-Steinberg
/// dithering, Wu quantizer.
///
/// Trusted for nothing: no clause is stated of the options, which hold a floating-point field.
#[verifier::external_body]
fn default_encode_options() -> (options: EncodeOptions) {
    EncodeOptions::default()
}

/// Encode one bounded RGBA image as a complete Sixel DCS sequence.
///
/// Refused with [`SixelEncodeError`] when dimensions, buffer length, or quantization are invalid.
pub fn encode_rgba(rgba: &[u8], width: usize, height: usize, options: &EncodeOptions) -> (r: Result<
    Vec<u8>,
    SixelEncodeError,
>)
    ensures
        sixel_encode_outcome(rgba@.len(), width, height, r),
{
    sixel_encode_bytes(rgba, width, height, options)
}

/// Encode one bounded RGBA image with the interoperable default profile.
pub fn encode_rgba_default(rgba: &[u8], width: usize, height: usize) -> (r: Result<
    Vec<u8>,
    SixelEncodeError,
>)
    ensures
        sixel_encode_outcome(rgba@.len(), width, height, r),
{
    let options = default_encode_options();
    encode_rgba(rgba, width, height, &options)
}

} // verus!
