use terminal_interop::evidence::{
    negotiate_capabilities_v1, AdapterIdentity, Assessment, Availability, CandidateDisposition,
    CapabilityId, CapabilityNegotiationV1, Conformance, EventField, NegotiationSelectionV1,
    NegotiationValidationError, ProbeContext, ProbeReceiptV1, ProbeReceiptValidationError,
    ProtocolId, StopReason, TopologyObservation, TransportEvidence, TransportReadiness, WireEvent,
    WireEventRole, WireExchange, CAPABILITY_NEGOTIATION_SCHEMA_V1, PROBE_RECEIPT_SCHEMA_V1,
};

fn receipt(
    name: &str,
    availability: Availability,
    conformance: Conformance,
    readiness: TransportReadiness,
) -> ProbeReceiptV1 {
    let protocol = ProtocolId {
        namespace: "org.example".to_owned(),
        name: name.to_owned(),
        revision: "v1".to_owned(),
    };
    let adapter = AdapterIdentity { name: format!("{name}-adapter"), version: "1".to_owned() };
    ProbeReceiptV1 {
        schema: PROBE_RECEIPT_SCHEMA_V1.to_owned(),
        observed_at_unix_ms: 0,
        capability: CapabilityId { protocol, name: "pixel-preview".to_owned() },
        adapter: adapter.clone(),
        correlation: None,
        context: ProbeContext {
            tty_endpoint: "/dev/tty".to_owned(),
            transport: TransportEvidence {
                adapter,
                readiness,
                preparation_exchanges: Vec::new(),
            },
            environment_hints: Vec::new(),
            topology: TopologyObservation::Unknown,
        },
        exchange: WireExchange {
            logical_request_base64: String::new(),
            wire_request_base64: String::new(),
            response_base64: String::new(),
            events: Vec::new(),
            elapsed_ms: 0,
            stop_reason: StopReason::Timeout,
        },
        assessment: Assessment { availability, conformance, assertions: Vec::new() },
    }
}

#[test]
fn negotiation_selects_first_eligible_candidate_without_erasing_evidence() {
    let first =
        receipt("first", Availability::Unknown, Conformance::Inconclusive, TransportReadiness::Unknown);
    let second =
        receipt("second", Availability::Available, Conformance::Conformant, TransportReadiness::Ready);
    let third = receipt(
        "third",
        Availability::Available,
        Conformance::Conformant,
        TransportReadiness::NotRequired,
    );

    let result = negotiate_capabilities_v1(vec![first, second, third]);

    assert_eq!(result.candidates().len(), 3);
    let dispositions: Vec<_> =
        result.candidates().iter().map(|candidate| candidate.disposition).collect();
    assert_eq!(
        dispositions,
        vec![
            CandidateDisposition::Ineligible,
            CandidateDisposition::Eligible,
            CandidateDisposition::Eligible,
        ]
    );
    assert!(matches!(result.selection(), NegotiationSelectionV1::Selected { preference: 1, .. }));
}

#[test]
fn negotiation_copy_equals_the_copied_value() {
    let first =
        receipt("first", Availability::Unavailable, Conformance::Inconclusive, TransportReadiness::Unknown);
    let second =
        receipt("second", Availability::Available, Conformance::Conformant, TransportReadiness::Ready);
    let negotiation = negotiate_capabilities_v1(vec![first, second]);
    let copy = negotiation.clone();
    assert_eq!(copy, negotiation);
    assert!(copy.validate().is_ok());
}

#[test]
fn negotiation_deserialization_rejects_forged_derived_state() {
    let first =
        receipt("first", Availability::Unknown, Conformance::Inconclusive, TransportReadiness::Unknown);
    let second =
        receipt("second", Availability::Available, Conformance::Conformant, TransportReadiness::Ready);
    let negotiation = negotiate_capabilities_v1(vec![first, second]);
    let forged_selection = match negotiation.selection().clone() {
        NegotiationSelectionV1::Selected { capability, adapter, .. } => {
            NegotiationSelectionV1::Selected { preference: 0, capability, adapter }
        },
        NegotiationSelectionV1::NoEligibleCandidate => panic!("second candidate is eligible"),
    };

    let error = CapabilityNegotiationV1::from_parts(
        negotiation.schema().to_owned(),
        negotiation.candidates().to_vec(),
        forged_selection,
    )
    .expect_err("forged selection must fail closed");

    assert!(error.message().contains("first eligible"));
}

#[test]
fn negotiation_of_valid_receipts_validates_and_rebuilds() {
    let first =
        receipt("first", Availability::Available, Conformance::Conformant, TransportReadiness::Ready);
    let negotiation = negotiate_capabilities_v1(vec![first]);
    assert_eq!(negotiation.schema(), CAPABILITY_NEGOTIATION_SCHEMA_V1);
    assert!(negotiation.validate().is_ok());
    let rebuilt = CapabilityNegotiationV1::from_parts(
        negotiation.schema().to_owned(),
        negotiation.candidates().to_vec(),
        negotiation.selection().clone(),
    )
    .expect("consistent parts");
    assert_eq!(rebuilt, negotiation);
}

#[test]
fn no_eligible_candidate_is_explicit() {
    let only =
        receipt("only", Availability::Unavailable, Conformance::NotApplicable, TransportReadiness::Ready);
    let negotiation = negotiate_capabilities_v1(vec![only]);
    assert_eq!(negotiation.selection(), &NegotiationSelectionV1::NoEligibleCandidate);
    assert_eq!(negotiation.candidates()[0].disposition, CandidateDisposition::Ineligible);
}

#[test]
fn receipt_validation_reports_the_first_structural_failure() {
    let mut bad = receipt("x", Availability::Unknown, Conformance::Inconclusive, TransportReadiness::Unknown);
    assert!(bad.validate().is_ok());
    bad.exchange.response_base64 = "***".to_owned();
    let error = bad.validate().expect_err("response is not Base64");
    assert_eq!(
        error,
        ProbeReceiptValidationError::InvalidBase64 { field: "exchange.response_base64".to_owned() }
    );
    assert_eq!(error.message(), "probe receipt field exchange.response_base64 is not standard Base64");

    let mut unordered =
        receipt("y", Availability::Unknown, Conformance::Inconclusive, TransportReadiness::Unknown);
    unordered.exchange.events.push(WireEvent {
        sequence: 3,
        role: WireEventRole::Unclassified,
        protocol: None,
        correlation: None,
        status: None,
        fields: vec![EventField { key: "k".to_owned(), value: "v".to_owned() }],
        raw_base64: String::new(),
    });
    let error = unordered.validate().expect_err("sequence starts at zero");
    assert_eq!(
        error.message(),
        "noncanonical event sequence in exchange: expected 0, received 3"
    );

    let mut schema =
        receipt("z", Availability::Unknown, Conformance::Inconclusive, TransportReadiness::Unknown);
    schema.schema = "urn:other".to_owned();
    assert_eq!(
        schema.validate().expect_err("wrong schema").message(),
        "unsupported probe receipt schema: \"urn:other\""
    );
}

#[test]
fn invalid_embedded_receipt_invalidates_the_negotiation() {
    let mut bad =
        receipt("bad", Availability::Available, Conformance::Conformant, TransportReadiness::Ready);
    bad.exchange.wire_request_base64 = "@".to_owned();
    let negotiation = negotiate_capabilities_v1(vec![bad]);
    let error = negotiation.validate().expect_err("embedded receipt is invalid");
    assert!(matches!(error, NegotiationValidationError::InvalidReceipt { preference: 0, .. }));
    assert_eq!(
        error.message(),
        "invalid probe receipt at preference 0: probe receipt field exchange.wire_request_base64 is not standard Base64"
    );
}
