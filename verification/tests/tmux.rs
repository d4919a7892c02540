use terminal_interop::tmux::{adapter_identity, build_readiness_query, wrap_passthrough};

#[test]
fn escapes_inner_terminal_sequences() {
    let input = b"\x1b_Gi=31;AAAA\x1b\\\x1b[c";
    let expected = b"\x1bPtmux;\x1b\x1b_Gi=31;AAAA\x1b\x1b\\\x1b\x1b[c\x1b\\";
    assert_eq!(wrap_passthrough(input), expected.to_vec());
}

#[test]
fn empty_payload_is_valid_passthrough_frame() {
    assert_eq!(wrap_passthrough(&[]), b"\x1bPtmux;\x1b\\".to_vec());
}

#[test]
fn readiness_query_is_a_wrapped_da1_request() {
    assert_eq!(build_readiness_query(), b"\x1bPtmux;\x1b\x1b[c\x1b\\".to_vec());
}

#[test]
fn passthrough_payload_is_recovered_by_collapsing_doubled_escapes() {
    let payload = b"a\x1bb\x1b\x1bc";
    let framed = wrap_passthrough(payload);
    let inner = &framed[7..framed.len() - 2];
    let mut recovered = Vec::new();
    let mut i = 0;
    while i < inner.len() {
        recovered.push(inner[i]);
        i += if inner[i] == 0x1b { 2 } else { 1 };
    }
    assert_eq!(recovered, payload.to_vec());
    assert_eq!(adapter_identity().name, "tmux-dcs-passthrough");
}
