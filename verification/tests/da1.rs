use terminal_interop::da1::{build_query, parse_response_at, parse_responses};
use terminal_interop::evidence::WireEventRole;

#[test]
fn parses_level_extensions_and_trailing_separator() {
    let responses = parse_responses(b"noise\x1b[?62;4;52;cafter");
    let response = responses.first().expect("one DA1 response");
    assert_eq!(response.device_level(), Some(62));
    assert!(response.advertises(4));
    assert!(response.advertises(52));
    assert_eq!(response.parameter_text, "?62;4;52;");
}

#[test]
fn malformed_or_incomplete_sequences_are_not_evidence() {
    assert!(parse_responses(b"\x1b[?62;watc").is_empty());
    assert!(parse_responses(b"\x1b[?62;52").is_empty());
    assert!(parse_responses(b"\x1b[?c").is_empty());
}

#[test]
fn preserves_multiple_response_offsets() {
    let responses = parse_responses(b"\x1b[?62;52cX\x1b[?64;4c");
    assert_eq!(responses.len(), 2);
    assert_eq!(responses.first().map(|response| response.offset), Some(0));
    assert_eq!(responses.get(1).map(|response| response.offset), Some(10));
}

#[test]
fn query_is_csi_c() {
    assert_eq!(build_query(), b"\x1b[c".to_vec());
}

#[test]
fn response_records_exact_bytes_and_end_offset() {
    let response = parse_response_at(b"xx\x1b[?62;52c", 2).expect("response at offset 2");
    assert_eq!(response.offset, 2);
    assert_eq!(response.end_offset, 11);
    assert_eq!(response.parameters, vec![62, 52]);
    assert_eq!(response.raw_base64, "G1s/NjI7NTJj");
    assert!(parse_response_at(b"xx\x1b[?62;52c", 1).is_none());
}

#[test]
fn parameters_above_sixteen_bits_are_not_evidence() {
    assert!(parse_responses(b"\x1b[?65536c").is_empty());
    assert_eq!(parse_responses(b"\x1b[?65535c")[0].parameters, vec![65535]);
}

#[test]
fn level_is_not_an_extension() {
    let responses = parse_responses(b"\x1b[?4;1c");
    assert!(!responses[0].advertises(4));
    assert!(responses[0].advertises(1));
}

#[test]
fn wire_event_carries_parameters_level_and_extensions() {
    let responses = parse_responses(b"\x1b[?62;4;52c");
    let event = responses[0].wire_event(7, WireEventRole::BarrierReply);
    assert_eq!(event.sequence, 7);
    assert_eq!(event.role, WireEventRole::BarrierReply);
    let protocol = event.protocol.expect("protocol");
    assert_eq!(protocol.namespace, "org.ecma");
    assert_eq!(event.fields.len(), 3);
    assert_eq!(event.fields[0].key, "device_level");
    assert_eq!(event.fields[0].value, "62");
    assert_eq!(event.fields[1].key, "extensions");
    assert_eq!(event.fields[1].value, "4,52");
    assert_eq!(event.fields[2].key, "parameters");
    assert_eq!(event.fields[2].value, "?62;4;52");
    assert_eq!(event.raw_base64, responses[0].raw_base64);
}
