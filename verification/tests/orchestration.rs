use terminal_interop::evidence::{
    HintObservation, StopReason, TopologyObservation, TransportReadiness, PROBE_RECEIPT_SCHEMA_V1,
};
use terminal_interop::intent::{EndpointId, IntentReceiptV1};
use terminal_interop::orchestration::{
    append_read, attempt_timeout_nanos, check_exchange_parameters, check_intent_timeout, check_transport_timeout,
    collection_stop, contract_kind, da1_stop_reason, delivery_outcome, direct_transport_evidence,
    environment_hints, kgp_receipt, kgp_stop_reason, poll_timeout_ms, read_allowance,
    resolved_negotiation_transport, sixel_receipt, wire_exchange, wire_request,
    CollectionStep, ContractKind, EnvironmentSnapshot, ExchangeStopRule, LiveExchange, NegotiationTransport, ProbeSetupError,
    ResponseCollection, TransportKind, TransportPreparation, TtyEvent,
};

#[test]
fn automatic_negotiation_transport_is_only_a_bounded_attempt_policy() {
    assert!(matches!(
        resolved_negotiation_transport(NegotiationTransport::Auto, false),
        TransportKind::Direct
    ));
    assert!(matches!(
        resolved_negotiation_transport(NegotiationTransport::Auto, true),
        TransportKind::TmuxPassthrough
    ));
}

fn snapshot() -> EnvironmentSnapshot {
    EnvironmentSnapshot {
        term: Some("xterm-kitty".to_owned()),
        term_program: None,
        colorterm: Some("truecolor".to_owned()),
        zellij: true,
        zellij_session_name: false,
        tmux: true,
        ssh_connection: true,
        ssh_tty: true,
    }
}

#[test]
fn sensitive_transport_values_are_presence_only() {
    let hints = environment_hints(&snapshot());
    for hint in hints {
        if matches!(hint.name.as_str(), "SSH_CONNECTION" | "SSH_TTY" | "TMUX" | "ZELLIJ") {
            assert_eq!(hint.observation, HintObservation::Present);
        }
    }
}

#[test]
fn hints_are_ordered_by_name() {
    let hints = environment_hints(&snapshot());
    let names: Vec<_> = hints.iter().map(|h| h.name.as_str()).collect();
    assert_eq!(names, vec!["COLORTERM", "SSH_CONNECTION", "SSH_TTY", "TERM", "TMUX", "ZELLIJ"]);
    assert_eq!(hints[0].observation, HintObservation::Value("truecolor".to_owned()));
    assert_eq!(hints[3].observation, HintObservation::Value("xterm-kitty".to_owned()));
}

#[test]
fn explicit_transports_are_kept() {
    assert_eq!(
        resolved_negotiation_transport(NegotiationTransport::Direct, true),
        TransportKind::Direct
    );
    assert_eq!(
        resolved_negotiation_transport(NegotiationTransport::TmuxPassthrough, false),
        TransportKind::TmuxPassthrough
    );
    assert_eq!(wire_request(TransportKind::Direct, b"\x1b[c"), b"\x1b[c".to_vec());
    assert_eq!(
        wire_request(TransportKind::TmuxPassthrough, b"\x1b[c"),
        b"\x1bPtmux;\x1b\x1b[c\x1b\\".to_vec()
    );
}

#[test]
fn stop_reasons_follow_the_barrier() {
    assert_eq!(kgp_stop_reason(b"\x1b_Gi=31;OK\x1b\\", 31), None);
    assert_eq!(
        kgp_stop_reason(b"\x1b_Gi=31;OK\x1b\\\x1b[?1;2c", 31),
        Some(StopReason::CapabilityAndBarrierObserved)
    );
    assert_eq!(kgp_stop_reason(b"\x1b[?1;2c", 31), Some(StopReason::BarrierObserved));
    assert_eq!(da1_stop_reason(b"\x1b[?62;4c"), Some(StopReason::BarrierObserved));
    assert_eq!(da1_stop_reason(b"\x1b[?62;4"), None);
}

#[test]
fn collection_limits() {
    assert_eq!(
        collection_stop(Some(StopReason::BarrierObserved), 10, 5, true),
        Some(StopReason::BarrierObserved)
    );
    assert_eq!(collection_stop(None, 5, 5, false), Some(StopReason::ResourceLimit));
    assert_eq!(collection_stop(None, 4, 5, true), Some(StopReason::Timeout));
    assert_eq!(collection_stop(None, 4, 5, false), None);
    assert_eq!(read_allowance(0, 10_000), 4096);
    assert_eq!(read_allowance(9_000, 10_000), 1000);
    assert_eq!(read_allowance(10_000, 10_000), 0);
    assert_eq!(poll_timeout_ms(0), 1);
    assert_eq!(poll_timeout_ms(250), 250);
    assert_eq!(poll_timeout_ms(1 << 40), 65535);
    assert_eq!(attempt_timeout_nanos(40), 40);
    assert_eq!(attempt_timeout_nanos(999_999), 999_999);
    assert_eq!(attempt_timeout_nanos(1_500_000_000), 100_000_000);
}

#[test]
fn reads_are_appended_within_the_response_budget() {
    let mut response: Vec<u8> = b"ab".to_vec();
    let buffer = [b'c', b'd', b'e', b'f'];
    let allowance = read_allowance(response.len(), 5);
    assert_eq!(allowance, 3);
    assert!(append_read(&mut response, &buffer[..allowance], 3));
    assert_eq!(response, b"abcde".to_vec());
    assert_eq!(read_allowance(response.len(), 5), 0);
    assert!(!append_read(&mut response, &buffer[..2], 3));
    assert_eq!(response, b"abcde".to_vec());
}

#[test]
fn zero_parameters_are_refused() {
    assert_eq!(check_exchange_parameters(0, 0), Err(ProbeSetupError::ZeroTimeout));
    assert_eq!(check_exchange_parameters(1, 0), Err(ProbeSetupError::ZeroResponseLimit));
    assert_eq!(check_exchange_parameters(1, 1), Ok(()));
    assert_eq!(check_transport_timeout(0), Err(ProbeSetupError::ZeroTransportTimeout));
    assert_eq!(check_intent_timeout(0), Err(ProbeSetupError::ZeroIntentTimeout));
    assert_eq!(ProbeSetupError::ZeroTimeout.message(), "timeout must be greater than zero");
}

#[test]
fn exchanges_are_recorded_in_base64() {
    let live =
        LiveExchange { response: b"\x1b[?62c".to_vec(), elapsed_ms: 12, stop_reason: StopReason::Timeout };
    let exchange = wire_exchange(b"\x1b[c", b"\x1b[c", live, Vec::new());
    assert_eq!(exchange.logical_request_base64, "G1tj");
    assert_eq!(exchange.response_base64, "G1s/NjJj");
    assert_eq!(exchange.elapsed_ms, 12);
    assert_eq!(exchange.stop_reason, StopReason::Timeout);
}

#[test]
fn tmux_preparation_records_attempts_until_ready() {
    let mut preparation = TransportPreparation::new();
    let first = LiveExchange { response: Vec::new(), elapsed_ms: 100, stop_reason: StopReason::Timeout };
    assert!(!preparation.record_attempt(first));
    let second = LiveExchange {
        response: b"\x1b[?1;2c".to_vec(),
        elapsed_ms: 3,
        stop_reason: StopReason::BarrierObserved,
    };
    assert!(preparation.record_attempt(second));
    let evidence = preparation.finish();
    assert_eq!(evidence.adapter.name, "tmux-dcs-passthrough");
    assert_eq!(evidence.readiness, TransportReadiness::Ready);
    assert_eq!(evidence.preparation_exchanges.len(), 2);
    assert_eq!(evidence.preparation_exchanges[1].events.len(), 1);
    assert_eq!(evidence.preparation_exchanges[1].wire_request_base64, "G1B0bXV4OxsbW2MbXA==");
    assert!(TransportPreparation::new().finish().readiness == TransportReadiness::Unknown);
}

#[test]
fn assembled_receipts_validate() {
    let request = terminal_interop::kgp::build_query(31).expect("query");
    let wire = wire_request(TransportKind::Direct, &request);
    let live = LiveExchange {
        response: b"\x1b_Gi=31;OK\x1b\\\x1b[?1;2c".to_vec(),
        elapsed_ms: 5,
        stop_reason: StopReason::CapabilityAndBarrierObserved,
    };
    let hints = environment_hints(&snapshot());
    let receipt = kgp_receipt(
        31,
        &request,
        &wire,
        live,
        1_700_000_000_000,
        "/dev/tty".to_owned(),
        direct_transport_evidence(),
        hints,
    );
    assert_eq!(receipt.schema, PROBE_RECEIPT_SCHEMA_V1);
    assert_eq!(receipt.correlation.as_ref().map(|c| c.value.as_str()), Some("31"));
    assert_eq!(receipt.exchange.events.len(), 2);
    assert!(matches!(receipt.context.topology, TopologyObservation::Unknown));
    assert!(receipt.validate().is_ok());

    let mut preparation = TransportPreparation::new();
    preparation.record_attempt(LiveExchange {
        response: b"\x1b[?1;2c".to_vec(),
        elapsed_ms: 1,
        stop_reason: StopReason::BarrierObserved,
    });
    let sixel_request = terminal_interop::sixel::build_query();
    let sixel_wire = wire_request(TransportKind::TmuxPassthrough, &sixel_request);
    let sixel = sixel_receipt(
        &sixel_request,
        &sixel_wire,
        LiveExchange {
            response: b"\x1b[?62;4c".to_vec(),
            elapsed_ms: 2,
            stop_reason: StopReason::BarrierObserved,
        },
        1_700_000_000_001,
        "/dev/tty".to_owned(),
        preparation.finish(),
        Vec::new(),
    );
    assert!(sixel.correlation.is_none());
    assert!(sixel.validate().is_ok());
    let negotiation = terminal_interop::evidence::negotiate_capabilities_v1(vec![receipt, sixel]);
    assert!(negotiation.validate().is_ok());
}

#[test]
fn contract_documents_are_dispatched_by_schema() {
    assert_eq!(contract_kind(PROBE_RECEIPT_SCHEMA_V1), Some(ContractKind::ProbeReceipt));
    assert_eq!(
        contract_kind("urn:terminal-interop:intent-ready:v1"),
        Some(ContractKind::IntentReady)
    );
    assert_eq!(contract_kind("urn:terminal-interop:artifact-ref:v1"), Some(ContractKind::ArtifactRef));
    assert_eq!(contract_kind("urn:unknown"), None);
}

#[test]
fn only_forwarded_deliveries_succeed() {
    let endpoint = EndpointId::parse("0123456789abcdef0123456789abcdef").expect("endpoint");
    assert!(delivery_outcome(&IntentReceiptV1::forwarded(endpoint.clone())).is_ok());
    assert_eq!(
        delivery_outcome(&IntentReceiptV1::rejected(endpoint, "busy")),
        Err("busy".to_owned())
    );
}

#[test]
fn collection_stops_on_the_rule_the_budget_the_deadline_or_the_terminal() {
    let mut collection = ResponseCollection::new(ExchangeStopRule::Da1, 16);
    assert_eq!(collection.stop_before_wait(false), None);
    assert_eq!(collection.stop_before_wait(true), Some(StopReason::Timeout));
    assert_eq!(collection.read_allowance(), 16);
    assert_eq!(collection.observe(TtyEvent::Read(b"\x1b[?62;".to_vec())), CollectionStep::Continue);
    assert_eq!(collection.stop_before_wait(false), None);
    assert_eq!(collection.observe(TtyEvent::Read(b"4c".to_vec())), CollectionStep::Continue);
    assert_eq!(collection.stop_before_wait(true), Some(StopReason::BarrierObserved));
    assert_eq!(collection.observe(TtyEvent::Read(vec![b'x'; 9])), CollectionStep::Overrun);
    assert_eq!(collection.response(), b"\x1b[?62;4c");
    assert_eq!(collection.observe(TtyEvent::Read(Vec::new())), CollectionStep::Stop(StopReason::EndOfInput));
    assert_eq!(collection.observe(TtyEvent::PollTimedOut), CollectionStep::Stop(StopReason::Timeout));
    let live = collection.finish(12, StopReason::BarrierObserved);
    assert_eq!(live.response, b"\x1b[?62;4c".to_vec());
    assert_eq!(live.elapsed_ms, 12);
    assert_eq!(live.stop_reason, StopReason::BarrierObserved);

    let mut full = ResponseCollection::new(ExchangeStopRule::Kgp(31), 4);
    assert_eq!(full.observe(TtyEvent::Read(b"abcd".to_vec())), CollectionStep::Continue);
    assert_eq!(full.read_allowance(), 0);
    assert_eq!(full.stop_before_wait(false), Some(StopReason::ResourceLimit));
}

#[test]
fn kgp_rule_reads_reply_and_barrier() {
    assert_eq!(ExchangeStopRule::Kgp(31).stop_reason(b"\x1b_Gi=31;OK\x1b\\"), None);
    assert_eq!(
        ExchangeStopRule::Kgp(31).stop_reason(b"\x1b_Gi=31;OK\x1b\\\x1b[?62c"),
        Some(StopReason::CapabilityAndBarrierObserved)
    );
    assert_eq!(
        ExchangeStopRule::Kgp(32).stop_reason(b"\x1b_Gi=31;OK\x1b\\\x1b[?62c"),
        Some(StopReason::BarrierObserved)
    );
    assert_eq!(ExchangeStopRule::Da1.stop_reason(b"\x1b[?62c"), Some(StopReason::BarrierObserved));
}
