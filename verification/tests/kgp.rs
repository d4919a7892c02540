use terminal_interop::evidence::{AssertionOutcome, Availability, Conformance, WireEventRole};
use terminal_interop::kgp::{
    adapter_identity, build_query, capability_id, parse_exchange, protocol_id, ProbeBuildError,
};

#[test]
fn builds_official_query_and_barrier() {
    let request = build_query(31).expect("valid query");
    assert_eq!(request, b"\x1b_Gi=31,s=1,v=1,a=q,t=d,f=24;AAAA\x1b\\\x1b[c".to_vec());
}

#[test]
fn matching_ok_before_barrier_is_conformant() {
    let parsed = parse_exchange(b"\x1b_Gi=31;OK\x1b\\\x1b[?1;2c", 31);
    assert_eq!(parsed.assessment.availability, Availability::Available);
    assert_eq!(parsed.assessment.conformance, Conformance::Conformant);
    assert!(parsed.correlated_reply_seen);
    assert!(parsed.barrier_seen);
}

#[test]
fn barrier_without_kgp_reply_is_unavailable_not_failed() {
    let parsed = parse_exchange(b"\x1b[?1;2c", 31);
    assert_eq!(parsed.assessment.availability, Availability::Unavailable);
    assert_eq!(parsed.assessment.conformance, Conformance::NotApplicable);
}

#[test]
fn wrong_correlation_is_nonconformant() {
    let parsed = parse_exchange(b"\x1b_Gi=32;OK\x1b\\\x1b[?1;2c", 31);
    assert_eq!(parsed.assessment.availability, Availability::Available);
    assert_eq!(parsed.assessment.conformance, Conformance::Nonconformant);
}

#[test]
fn timeout_without_events_preserves_unknown() {
    let parsed = parse_exchange(b"noise", 31);
    assert_eq!(parsed.assessment.availability, Availability::Unknown);
    assert_eq!(parsed.assessment.conformance, Conformance::Inconclusive);
}

#[test]
fn delayed_reply_after_barrier_is_nonconformant() {
    let parsed = parse_exchange(b"\x1b[?1;2c\x1b_Gi=31;OK\x1b\\", 31);
    assert_eq!(parsed.assessment.availability, Availability::Available);
    assert_eq!(parsed.assessment.conformance, Conformance::Nonconformant);
}

#[test]
fn zero_image_id_is_refused() {
    assert_eq!(build_query(0), Err(ProbeBuildError::ZeroCorrelationId));
    assert_eq!(ProbeBuildError::ZeroCorrelationId.message(), "KGP correlation id must be non-zero");
}

#[test]
fn identities_name_the_query_profile() {
    let protocol = protocol_id();
    assert_eq!(protocol.namespace, "org.kitty");
    assert_eq!(protocol.name, "terminal-graphics-protocol");
    assert_eq!(protocol.revision, "query-direct-rgb-v1");
    assert_eq!(capability_id().name, "direct-rgb-query");
    assert_eq!(adapter_identity().name, "terminal-interop-kgp");
}

#[test]
fn reply_event_keeps_correlation_status_fields_and_bytes() {
    let parsed = parse_exchange(b"\x1b_Gi=31,p=7;OK\x1b\\\x1b[?1;2c", 31);
    assert_eq!(parsed.events.len(), 2);
    let reply = &parsed.events[0];
    assert_eq!(reply.sequence, 0);
    assert_eq!(reply.role, WireEventRole::CapabilityReply);
    assert_eq!(reply.correlation.as_deref(), Some("31"));
    assert_eq!(reply.status.as_deref(), Some("OK"));
    let keys: Vec<_> = reply.fields.iter().map(|f| f.key.as_str()).collect();
    assert_eq!(keys, vec!["i", "p"]);
    assert_eq!(reply.fields[0].value, "31");
    assert_eq!(reply.fields[1].value, "7");
    assert_eq!(reply.raw_base64, "G19HaT0zMSxwPTc7T0sbXA==");
    let barrier = &parsed.events[1];
    assert_eq!(barrier.sequence, 1);
    assert_eq!(barrier.role, WireEventRole::BarrierReply);
    assert_eq!(barrier.fields[0].value, "?1;2");
}

#[test]
fn reply_fields_come_in_key_order() {
    let parsed = parse_exchange(b"\x1b_Gp=7,i=31;OK\x1b\\\x1b[?1;2c", 31);
    let reply = &parsed.events[0];
    let keys: Vec<_> = reply.fields.iter().map(|f| f.key.as_str()).collect();
    assert_eq!(keys, vec!["i", "p"]);
    assert_eq!(reply.fields[0].value, "31");
    assert_eq!(reply.fields[1].value, "7");
}

#[test]
fn failed_load_status_is_nonconformant() {
    let parsed = parse_exchange(b"\x1b_Gi=31;ENOENT:no\x1b\\\x1b[?1;2c", 31);
    assert_eq!(parsed.assessment.availability, Availability::Available);
    assert_eq!(parsed.assessment.conformance, Conformance::Nonconformant);
    let load = &parsed.assessment.assertions[2];
    assert_eq!(load.id, "kgp.query.direct-rgb-load");
    assert_eq!(load.outcome, AssertionOutcome::Fail);
    assert_eq!(load.detail, "KGP status was ENOENT:no");
}

#[test]
fn wrong_correlation_names_both_ids() {
    let parsed = parse_exchange(b"\x1b_Gi=32;OK\x1b\\\x1b[?1;2c", 31);
    assert_eq!(parsed.assessment.assertions[0].detail, "received KGP reply for Some(32), expected 31");
}
