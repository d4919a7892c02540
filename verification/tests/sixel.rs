use terminal_interop::evidence::{AssertionOutcome, Availability, Conformance, WireEventRole};
use terminal_interop::sixel::{
    adapter_identity, build_query, capability_id, encode_rgba, encode_rgba_default,
    parse_exchange, SixelEncodeError, SIXEL_DA1_EXTENSION,
};

#[test]
fn extension_four_is_available_and_conformant() {
    let parsed = parse_exchange(b"\x1b[?62;4;52c");
    assert!(parsed.response_seen);
    assert!(parsed.sixel_advertised);
    assert_eq!(parsed.assessment.availability, Availability::Available);
    assert_eq!(parsed.assessment.conformance, Conformance::Conformant);
}

#[test]
fn response_without_extension_is_unavailable() {
    let parsed = parse_exchange(b"\x1b[?62;52c");
    assert!(parsed.response_seen);
    assert!(!parsed.sixel_advertised);
    assert_eq!(parsed.assessment.availability, Availability::Unavailable);
    assert_eq!(parsed.assessment.conformance, Conformance::NotApplicable);
}

#[test]
fn missing_response_preserves_unknown() {
    let parsed = parse_exchange(b"");
    assert!(!parsed.response_seen);
    assert_eq!(parsed.assessment.availability, Availability::Unknown);
    assert_eq!(parsed.assessment.conformance, Conformance::Inconclusive);
}

#[test]
fn encodes_a_complete_sixel_sequence() {
    let rgba = [255, 0, 0, 255];
    let encoded =
        encode_rgba(&rgba, 1, 1, &icy_sixel::EncodeOptions::default()).expect("encode");
    assert!(encoded.starts_with(b"\x1bP"));
    assert!(encoded.ends_with(b"\x1b\\"));
}

#[test]
fn images_within_the_limits_are_encoded() {
    // Opaque, partly transparent and fully transparent images all encode.
    let opaque: Vec<u8> = (0..3 * 7).flat_map(|i| [i as u8 * 10, 255 - i as u8, 7, 255]).collect();
    let mixed: Vec<u8> = (0..4 * 2).flat_map(|i| [200, 10, 10, if i % 2 == 0 { 255 } else { 0 }]).collect();
    let clear = vec![0u8; 5 * 5 * 4];
    for (rgba, width, height) in [(opaque, 3, 7), (mixed, 4, 2), (clear, 5, 5)] {
        let encoded = encode_rgba_default(&rgba, width, height).expect("within the limits");
        assert!(encoded.starts_with(b"\x1bP"));
        assert!(encoded.ends_with(b"\x1b\\"));
    }
    // The largest raster the limits admit in one dimension.
    let wide = vec![0u8; 1_000_000 * 4];
    assert!(encode_rgba_default(&wide, 1_000_000, 1).is_ok());
}

#[test]
fn identities_and_query() {
    assert_eq!(SIXEL_DA1_EXTENSION, 4);
    assert_eq!(build_query(), b"\x1b[c".to_vec());
    assert_eq!(capability_id().name, "raster-image-display");
    assert_eq!(capability_id().protocol.name, "sixel-raster-graphics");
    assert_eq!(adapter_identity().name, "terminal-interop-sixel");
}

#[test]
fn events_are_numbered_capability_replies() {
    let parsed = parse_exchange(b"\x1b[?62;52c..\x1b[?64;4c");
    assert_eq!(parsed.events.len(), 2);
    assert_eq!(parsed.events[0].sequence, 0);
    assert_eq!(parsed.events[1].sequence, 1);
    assert_eq!(parsed.events[1].role, WireEventRole::CapabilityReply);
    assert!(parsed.sixel_advertised);
    assert_eq!(parsed.assessment.assertions[1].id, "sixel.da1.extension-4");
    assert_eq!(parsed.assessment.assertions[1].outcome, AssertionOutcome::Pass);
}

#[test]
fn encoding_refuses_zero_dimensions_and_wrong_buffers() {
    assert_eq!(
        encode_rgba_default(&[], 0, 1),
        Err(SixelEncodeError::InvalidDimensions { width: 0, height: 1 })
    );
    assert_eq!(
        encode_rgba_default(&[0, 0, 0], 1, 1),
        Err(SixelEncodeError::BufferSizeMismatch { expected: 4, actual: 3 })
    );
    assert_eq!(
        encode_rgba_default(&[0, 0, 0, 255], 1_000_001, 1),
        Err(SixelEncodeError::InvalidDimensions { width: 1_000_001, height: 1 })
    );
    assert_eq!(
        encode_rgba_default(&[], usize::MAX, 2),
        Err(SixelEncodeError::IntegerOverflow)
    );
}

#[test]
fn encoding_error_messages() {
    assert_eq!(
        SixelEncodeError::InvalidDimensions { width: 0, height: 7 }.message(),
        "invalid dimensions: 0x7"
    );
    assert_eq!(
        SixelEncodeError::BufferSizeMismatch { expected: 4, actual: 3 }.message(),
        "buffer size mismatch: expected 4 bytes, got 3"
    );
    assert_eq!(SixelEncodeError::IntegerOverflow.message(), "integer overflow");
}
