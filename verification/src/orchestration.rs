//! Decisions of the live probe workflow: transport choice, when to stop reading, how exchanges
//! and receipts are recorded, and which contract a document claims. The terminal I/O that
//! drives them is done by the caller.

use crate::codec::{base64_encode, base64_encoding, Base64Profile};
use crate::da1::{da1_event_matches, da1_response_offsets, lemma_wire_event_of_response, parse_responses};
use crate::evidence::{
    events_issue, expected_sequence, is_base64, preparation_issue, receipt_issue,
    AdapterIdentity, CorrelationId, EnvironmentHint, HintObservation, ProbeContext, ProbeReceiptV1,
    StopReason, TopologyObservation, TransportEvidence, TransportReadiness, WireEvent,
    WireEventRole, WireExchange, PROBE_RECEIPT_SCHEMA_V1,
};
use crate::intent::{IntentDeliveryState, IntentReceiptV1};
use crate::kgp::{
    first_barrier, first_matching_reply, is_kgp_protocol, kgp_assessment_matches,
    kgp_event_matches, kgp_spans,
};
use crate::sixel::{is_sixel_protocol, sixel_assessment_matches};
use crate::text::{decimal_chars, decimal_string, text_eq};
use crate::tmux::{passthrough_frame, wrap_passthrough};
use vstd::prelude::*;

verus! {

/// Version of the direct TTY transport.
pub const DIRECT_TRANSPORT_VERSION: &'static str = "0.1.0";

// ---------------------------------------------------------------------------------------------
// Transport choice
// ---------------------------------------------------------------------------------------------

/// Transformation applied to protocol bytes before they are written to the TTY.
#[derive(Clone, Copy, Debug, PartialEq, Eq, Structural)]
pub enum TransportKind {
    /// Write protocol bytes directly to the TTY.
    Direct,
    /// Wrap protocol bytes in tmux DCS passthrough framing.
    TmuxPassthrough,
}

/// Transport policy of a negotiation.
#[derive(Clone, Copy, Debug, PartialEq, Eq, Structural)]
pub enum NegotiationTransport {
    /// Use tmux passthrough only when a tmux environment marker is present.
    Auto,
    /// Write protocol bytes directly to the TTY.
    Direct,
    /// Wrap protocol bytes in tmux DCS passthrough framing.
    TmuxPassthrough,
}

/// The transport a negotiation uses: the automatic policy attempts tmux passthrough exactly
/// when a tmux marker is present; an explicit choice is kept.
pub fn resolved_negotiation_transport(requested: NegotiationTransport, tmux_present: bool) -> (t:
    TransportKind)
    ensures
        t == match requested {
            NegotiationTransport::Auto => if tmux_present {
                TransportKind::TmuxPassthrough
            } else {
                TransportKind::Direct
            },
            NegotiationTransport::Direct => TransportKind::Direct,
            NegotiationTransport::TmuxPassthrough => TransportKind::TmuxPassthrough,
        },
{
    match requested {
        NegotiationTransport::Auto => if tmux_present {
            TransportKind::TmuxPassthrough
        } else {
            TransportKind::Direct
        },
        NegotiationTransport::Direct => TransportKind::Direct,
        NegotiationTransport::TmuxPassthrough => TransportKind::TmuxPassthrough,
    }
}

/// The bytes written for a protocol request over `kind`.
pub fn wire_request(kind: TransportKind, protocol_request: &[u8]) -> (r: Vec<u8>)
    ensures
        r@ == match kind {
            TransportKind::Direct => protocol_request@,
            TransportKind::TmuxPassthrough => passthrough_frame(protocol_request@),
        },
{
    match kind {
        TransportKind::Direct => {
            let mut r: Vec<u8> = Vec::new();
            crate::paths::extend_bytes(&mut r, protocol_request);
            r
        },
        TransportKind::TmuxPassthrough => wrap_passthrough(protocol_request),
    }
}

// ---------------------------------------------------------------------------------------------
// Stopping a live exchange
// ---------------------------------------------------------------------------------------------

/// When a KGP query exchange is complete: once the DA1 barrier has been seen, with or without
/// the correlated reply before it.
pub fn kgp_stop_reason(response: &[u8], correlation_id: u32) -> (r: Option<StopReason>)
    ensures
        first_barrier(kgp_spans(response@, 0), 0) is None ==> r is None,
        first_barrier(kgp_spans(response@, 0), 0) is Some ==> r == Some(
            if first_matching_reply(response@, kgp_spans(response@, 0), correlation_id, 0) is Some {
                StopReason::CapabilityAndBarrierObserved
            } else {
                StopReason::BarrierObserved
            },
        ),
{
    let parsed = crate::kgp::parse_exchange(response, correlation_id);
    if !parsed.barrier_seen {
        return None;
    }
    if parsed.correlated_reply_seen {
        Some(StopReason::CapabilityAndBarrierObserved)
    } else {
        Some(StopReason::BarrierObserved)
    }
}

/// When a DA1 exchange is complete: once a complete DA1 response has been seen.
pub fn da1_stop_reason(response: &[u8]) -> (r: Option<StopReason>)
    ensures
        r == if da1_response_offsets(response@, 0).len() > 0 {
            Some(StopReason::BarrierObserved)
        } else {
            None::<StopReason>
        },
{
    let responses = parse_responses(response);
    if responses.len() > 0 {
        Some(StopReason::BarrierObserved)
    } else {
        None
    }
}

/// Whether collection stops after `collected` bytes: when the protocol says so, else when the
/// response budget is used up, else when the deadline has passed.
pub open spec fn collection_stop_value(
    protocol_stop: Option<StopReason>,
    collected: nat,
    max_response_bytes: nat,
    deadline_passed: bool,
) -> Option<StopReason> {
    if protocol_stop is Some {
        protocol_stop
    } else if collected >= max_response_bytes {
        Some(StopReason::ResourceLimit)
    } else if deadline_passed {
        Some(StopReason::Timeout)
    } else {
        None
    }
}

/// Whether collection stops after reading `collected` bytes: when the protocol says so, else
/// when the response budget is used up, else when the deadline has passed.
pub fn collection_stop(
    protocol_stop: Option<StopReason>,
    collected: usize,
    max_response_bytes: usize,
    deadline_passed: bool,
) -> (r: Option<StopReason>)
    ensures
        r == collection_stop_value(
            protocol_stop,
            collected as nat,
            max_response_bytes as nat,
            deadline_passed,
        ),
{
    if protocol_stop.is_some() {
        protocol_stop
    } else if collected >= max_response_bytes {
        Some(StopReason::ResourceLimit)
    } else if deadline_passed {
        Some(StopReason::Timeout)
    } else {
        None
    }
}

/// What is left of the response budget after `collected` bytes, at most 4096.
pub open spec fn read_allowance_value(collected: nat, max_response_bytes: nat) -> nat {
    if collected >= max_response_bytes {
        0
    } else if max_response_bytes - collected < 4096 {
        (max_response_bytes - collected) as nat
    } else {
        4096
    }
}

/// How many bytes the next read may take: what is left of the budget, at most 4096.
pub fn read_allowance(collected: usize, max_response_bytes: usize) -> (n: usize)
    ensures
        n == read_allowance_value(collected as nat, max_response_bytes as nat),
{
    if collected >= max_response_bytes {
        0
    } else if max_response_bytes - collected < 4096 {
        max_response_bytes - collected
    } else {
        4096
    }
}

/// Append what one read returned: the first `read` bytes of `buffer`. A count beyond the
/// buffer is refused and nothing is appended.
pub fn append_read(response: &mut Vec<u8>, buffer: &[u8], read: usize) -> (ok: bool)
    ensures
        ok == (read <= buffer@.len()),
        ok ==> final(response)@ == old(response)@ + buffer@.take(read as int),
        !ok ==> final(response)@ == old(response)@,
{
    if read > buffer.len() {
        return false;
    }
    let mut i: usize = 0;
    while i < read
        invariant
            i <= read <= buffer@.len(),
            response@ == old(response)@ + buffer@.take(i as int),
        decreases read - i,
    {
        response.push(buffer[i]);
        assert(buffer@.take(i + 1) =~= buffer@.take(i as int).push(buffer@[i as int]));
        i = i + 1;
    }
    true
}

/// Collection never exceeds its budget: reading into a buffer sized by [`read_allowance`] and
/// appending with [`append_read`] keeps the response within `max_response_bytes`.
pub proof fn lemma_read_within_budget(collected: nat, max_response_bytes: nat, read: nat)
    requires
        collected <= max_response_bytes,
        read <= read_allowance_value(collected, max_response_bytes),
    ensures
        collected + read <= max_response_bytes,
{
}

/// The protocol rule that ends a live exchange once its response is complete.
#[derive(Clone, Copy, Debug, PartialEq, Eq, Structural)]
pub enum ExchangeStopRule {
    /// Stop at the first complete DA1 response, as [`da1_stop_reason`] decides.
    Da1,
    /// Stop at the DA1 barrier after a KGP query with this image id, as [`kgp_stop_reason`]
    /// decides.
    Kgp(u32),
}

/// The stop reason `rule` reads in `response`, if the response is complete.
pub open spec fn rule_stop(rule: ExchangeStopRule, response: Seq<u8>) -> Option<StopReason> {
    match rule {
        ExchangeStopRule::Da1 => if da1_response_offsets(response, 0).len() > 0 {
            Some(StopReason::BarrierObserved)
        } else {
            None
        },
        ExchangeStopRule::Kgp(id) => if first_barrier(kgp_spans(response, 0), 0) is None {
            None
        } else if first_matching_reply(response, kgp_spans(response, 0), id, 0) is Some {
            Some(StopReason::CapabilityAndBarrierObserved)
        } else {
            Some(StopReason::BarrierObserved)
        },
    }
}

impl ExchangeStopRule {
    /// The stop reason this rule reads in `response`.
    pub fn stop_reason(&self, response: &[u8]) -> (r: Option<StopReason>)
        ensures
            r == rule_stop(*self, response@),
    {
        match self {
            ExchangeStopRule::Da1 => da1_stop_reason(response),
            ExchangeStopRule::Kgp(id) => kgp_stop_reason(response, *id),
        }
    }
}

/// What the terminal gave after one wait for input.
pub enum TtyEvent {
    /// The wait ran out before any input was ready.
    PollTimedOut,
    /// One read returned these bytes; none at all means the input was closed.
    Read(Vec<u8>),
}

/// What collection does after an event.
#[derive(Clone, Copy, Debug, PartialEq, Eq, Structural)]
pub enum CollectionStep {
    /// Wait for more input.
    Continue,
    /// Stop for this reason.
    Stop(StopReason),
    /// A read returned more than the budget has left; nothing of it was kept.
    Overrun,
}

/// The response of one live exchange while it is read: the bytes collected so far, which never
/// exceed the budget, and the rule that says when the response is complete.
pub struct ResponseCollection {
    rule: ExchangeStopRule,
    max_response_bytes: usize,
    response: Vec<u8>,
}

impl ResponseCollection {
    #[verifier::type_invariant]
    spec fn within_budget(&self) -> bool {
        self.response@.len() <= self.max_response_bytes
    }

    /// The rule that ends this collection.
    pub closed spec fn stop_rule(&self) -> ExchangeStopRule {
        self.rule
    }

    /// The response budget in bytes.
    pub closed spec fn budget(&self) -> nat {
        self.max_response_bytes as nat
    }

    /// The bytes collected so far.
    pub closed spec fn collected(&self) -> Seq<u8> {
        self.response@
    }

    /// Nothing collected yet.
    pub fn new(rule: ExchangeStopRule, max_response_bytes: usize) -> (c: ResponseCollection)
        ensures
            c.stop_rule() == rule,
            c.budget() == max_response_bytes,
            c.collected() == Seq::<u8>::empty(),
    {
        ResponseCollection { rule, max_response_bytes, response: Vec::new() }
    }

    /// The bytes collected so far; never more than the budget.
    pub fn response(&self) -> (r: &[u8])
        ensures
            r@ == self.collected(),
            r@.len() <= self.budget(),
    {
        proof {
            use_type_invariant(self);
        }
        self.response.as_slice()
    }

    /// Whether collection stops before the next wait: the rule's reason once the response is
    /// complete, else `ResourceLimit` once the budget is used up, else `Timeout` once the
    /// deadline has passed.
    pub fn stop_before_wait(&self, deadline_passed: bool) -> (r: Option<StopReason>)
        ensures
            r == collection_stop_value(
                rule_stop(self.stop_rule(), self.collected()),
                self.collected().len(),
                self.budget(),
                deadline_passed,
            ),
    {
        let protocol = self.rule.stop_reason(self.response.as_slice());
        collection_stop(protocol, self.response.len(), self.max_response_bytes, deadline_passed)
    }

    /// How many bytes the next read may take: what is left of the budget, at most 4096.
    pub fn read_allowance(&self) -> (n: usize)
        ensures
            n == read_allowance_value(self.collected().len(), self.budget()),
            self.collected().len() + n <= self.budget(),
    {
        proof {
            use_type_invariant(self);
        }
        read_allowance(self.response.len(), self.max_response_bytes)
    }

    /// Take one event: a wait that ran out stops with `Timeout`; a read of nothing stops with
    /// `EndOfInput`; a read within the budget is appended; a read past it is refused.
    pub fn observe(&mut self, event: TtyEvent) -> (step: CollectionStep)
        ensures
            final(self).stop_rule() == old(self).stop_rule(),
            final(self).budget() == old(self).budget(),
            match event {
                TtyEvent::PollTimedOut => {
                    &&& step == CollectionStep::Stop(StopReason::Timeout)
                    &&& final(self).collected() == old(self).collected()
                },
                TtyEvent::Read(bytes) => if bytes@.len() == 0 {
                    &&& step == CollectionStep::Stop(StopReason::EndOfInput)
                    &&& final(self).collected() == old(self).collected()
                } else if old(self).collected().len() + bytes@.len() <= old(self).budget() {
                    &&& step == CollectionStep::Continue
                    &&& final(self).collected() == old(self).collected() + bytes@
                } else {
                    &&& step == CollectionStep::Overrun
                    &&& final(self).collected() == old(self).collected()
                },
            },
    {
        proof {
            use_type_invariant(&*self);
        }
        match event {
            TtyEvent::PollTimedOut => CollectionStep::Stop(StopReason::Timeout),
            TtyEvent::Read(bytes) => {
                if bytes.len() == 0 {
                    CollectionStep::Stop(StopReason::EndOfInput)
                } else if bytes.len() > self.max_response_bytes - self.response.len() {
                    CollectionStep::Overrun
                } else {
                    let mut response: Vec<u8> = Vec::new();
                    std::mem::swap(&mut response, &mut self.response);
                    let appended = append_read(&mut response, bytes.as_slice(), bytes.len());
                    assert(appended);
                    assert(bytes@.take(bytes@.len() as int) =~= bytes@);
                    self.response = response;
                    CollectionStep::Continue
                }
            },
        }
    }

    /// The exchange as read, with its elapsed time and the reason collection stopped.
    pub fn finish(self, elapsed_ms: u64, stop_reason: StopReason) -> (x: LiveExchange)
        ensures
            x.response@ == self.collected(),
            x.response@.len() <= self.budget(),
            x.elapsed_ms == elapsed_ms,
            x.stop_reason == stop_reason,
    {
        proof {
            use_type_invariant(&self);
        }
        let ResponseCollection { response, .. } = self;
        LiveExchange { response, elapsed_ms, stop_reason }
    }
}

/// The poll timeout for the time left before the deadline, clamped to `1..=65535` ms.
pub fn poll_timeout_ms(remaining_ms: u128) -> (t: u16)
    ensures
        t == if remaining_ms < 1 {
            1
        } else if remaining_ms > 65535 {
            65535
        } else {
            remaining_ms as u16
        },
{
    if remaining_ms < 1 {
        1
    } else if remaining_ms > 65535 {
        65535
    } else {
        remaining_ms as u16
    }
}

/// The deadline of one transport readiness attempt, in nanoseconds: what remains, at most
/// 100 ms.
pub fn attempt_timeout_nanos(remaining_nanos: u128) -> (t: u128)
    ensures
        t == if remaining_nanos < 100_000_000 {
            remaining_nanos
        } else {
            100_000_000
        },
{
    if remaining_nanos < 100_000_000 {
        remaining_nanos
    } else {
        100_000_000
    }
}

/// A probe parameter that must be positive was zero.
#[derive(Clone, Copy, Debug, PartialEq, Eq, Structural)]
pub enum ProbeSetupError {
    /// The response deadline is zero.
    ZeroTimeout,
    /// The response budget is zero.
    ZeroResponseLimit,
    /// The transport readiness deadline is zero.
    ZeroTransportTimeout,
    /// The intent delivery deadline is zero.
    ZeroIntentTimeout,
}

impl ProbeSetupError {
    /// Human-readable description.
    pub fn message(&self) -> (s: String)
        ensures
            s@ == match *self {
                ProbeSetupError::ZeroTimeout => "timeout must be greater than zero"@,
                ProbeSetupError::ZeroResponseLimit => "max response bytes must be greater than zero"@,
                ProbeSetupError::ZeroTransportTimeout => "transport timeout must be greater than zero"@,
                ProbeSetupError::ZeroIntentTimeout => "intent timeout must be greater than zero"@,
            },
    {
        match self {
            ProbeSetupError::ZeroTimeout => String::from_str("timeout must be greater than zero"),
            ProbeSetupError::ZeroResponseLimit => String::from_str(
                "max response bytes must be greater than zero",
            ),
            ProbeSetupError::ZeroTransportTimeout => String::from_str(
                "transport timeout must be greater than zero",
            ),
            ProbeSetupError::ZeroIntentTimeout => String::from_str(
                "intent timeout must be greater than zero",
            ),
        }
    }
}

/// Parameters of one live exchange: a positive deadline (in nanoseconds), then a positive
/// response budget.
pub fn check_exchange_parameters(timeout_nanos: u128, max_response_bytes: usize) -> (r: Result<
    (),
    ProbeSetupError,
>)
    ensures
        r == if timeout_nanos == 0 {
            Err::<(), ProbeSetupError>(ProbeSetupError::ZeroTimeout)
        } else if max_response_bytes == 0 {
            Err(ProbeSetupError::ZeroResponseLimit)
        } else {
            Ok(())
        },
{
    if timeout_nanos == 0 {
        Err(ProbeSetupError::ZeroTimeout)
    } else if max_response_bytes == 0 {
        Err(ProbeSetupError::ZeroResponseLimit)
    } else {
        Ok(())
    }
}

/// A transport readiness exchange needs a positive deadline.
pub fn check_transport_timeout(transport_timeout_ms: u64) -> (r: Result<(), ProbeSetupError>)
    ensures
        r == if transport_timeout_ms == 0 {
            Err::<(), ProbeSetupError>(ProbeSetupError::ZeroTransportTimeout)
        } else {
            Ok(())
        },
{
    if transport_timeout_ms == 0 {
        Err(ProbeSetupError::ZeroTransportTimeout)
    } else {
        Ok(())
    }
}

/// An intent delivery needs a positive deadline.
pub fn check_intent_timeout(timeout_ms: u64) -> (r: Result<(), ProbeSetupError>)
    ensures
        r == if timeout_ms == 0 {
            Err::<(), ProbeSetupError>(ProbeSetupError::ZeroIntentTimeout)
        } else {
            Ok(())
        },
{
    if timeout_ms == 0 {
        Err(ProbeSetupError::ZeroIntentTimeout)
    } else {
        Ok(())
    }
}

/// A delivered intent counts only when the consumer forwarded it; otherwise its explanation
/// is returned.
pub fn delivery_outcome(receipt: &IntentReceiptV1) -> (r: Result<(), String>)
    ensures
        receipt.state == IntentDeliveryState::Forwarded ==> r is Ok,
        receipt.state != IntentDeliveryState::Forwarded ==> (r matches Err(detail) && detail@
            == receipt.detail@),
{
    match receipt.state {
        IntentDeliveryState::Forwarded => Ok(()),
        IntentDeliveryState::Rejected => Err(receipt.detail.clone()),
    }
}

// ---------------------------------------------------------------------------------------------
// Environment hints
// ---------------------------------------------------------------------------------------------

/// The environment variables a probe looks at: three whose values are retained, five whose
/// presence alone is.
#[derive(Clone, Debug)]
pub struct EnvironmentSnapshot {
    /// Value of `TERM`.
    pub term: Option<String>,
    /// Value of `TERM_PROGRAM`.
    pub term_program: Option<String>,
    /// Value of `COLORTERM`.
    pub colorterm: Option<String>,
    /// Whether `ZELLIJ` is set.
    pub zellij: bool,
    /// Whether `ZELLIJ_SESSION_NAME` is set.
    pub zellij_session_name: bool,
    /// Whether `TMUX` is set.
    pub tmux: bool,
    /// Whether `SSH_CONNECTION` is set.
    pub ssh_connection: bool,
    /// Whether `SSH_TTY` is set.
    pub ssh_tty: bool,
}

/// A hint as its name and retained value (`None` when only presence is retained).
pub open spec fn hint_view(h: EnvironmentHint) -> (Seq<char>, Option<Seq<char>>) {
    (
        h.name@,
        match h.observation {
            HintObservation::Present => None,
            HintObservation::Value(v) => Some(v@),
        },
    )
}

/// The hint for a variable whose value is retained, if it is set.
pub open spec fn value_hint(name: Seq<char>, value: Option<String>) -> Seq<(Seq<char>, Option<Seq<char>>)> {
    match value {
        Some(v) => seq![(name, Some(v@))],
        None => Seq::empty(),
    }
}

/// The hint for a variable whose presence alone is retained, if it is set.
pub open spec fn presence_hint(name: Seq<char>, present: bool) -> Seq<(Seq<char>, Option<Seq<char>>)> {
    if present {
        seq![(name, None::<Seq<char>>)]
    } else {
        Seq::empty()
    }
}

/// The hints of a snapshot, ordered by variable name.
pub open spec fn snapshot_hints(s: EnvironmentSnapshot) -> Seq<(Seq<char>, Option<Seq<char>>)> {
    value_hint("COLORTERM"@, s.colorterm) + presence_hint("SSH_CONNECTION"@, s.ssh_connection)
        + presence_hint("SSH_TTY"@, s.ssh_tty) + value_hint("TERM"@, s.term) + value_hint(
        "TERM_PROGRAM"@,
        s.term_program,
    ) + presence_hint("TMUX"@, s.tmux) + presence_hint("ZELLIJ"@, s.zellij) + presence_hint(
        "ZELLIJ_SESSION_NAME"@,
        s.zellij_session_name,
    )
}

fn push_value_hint(hints: &mut Vec<EnvironmentHint>, name: &str, value: &Option<String>)
    ensures
        final(hints)@.map_values(|h: EnvironmentHint| hint_view(h)) == old(hints)@.map_values(
            |h: EnvironmentHint| hint_view(h),
        ) + value_hint(name@, *value),
{
    let ghost before = hints@;
    if let Some(v) = value {
        hints.push(
            EnvironmentHint {
                name: String::from_str(name),
                observation: HintObservation::Value(v.clone()),
            },
        );
        assert(hints@.map_values(|h: EnvironmentHint| hint_view(h)) =~= before.map_values(
            |h: EnvironmentHint| hint_view(h),
        ) + value_hint(name@, *value));
    } else {
        assert(before.map_values(|h: EnvironmentHint| hint_view(h)) + value_hint(name@, *value)
            =~= before.map_values(|h: EnvironmentHint| hint_view(h)));
    }
}

fn push_presence_hint(hints: &mut Vec<EnvironmentHint>, name: &str, present: bool)
    ensures
        final(hints)@.map_values(|h: EnvironmentHint| hint_view(h)) == old(hints)@.map_values(
            |h: EnvironmentHint| hint_view(h),
        ) + presence_hint(name@, present),
{
    let ghost before = hints@;
    if present {
        hints.push(
            EnvironmentHint { name: String::from_str(name), observation: HintObservation::Present },
        );
        assert(hints@.map_values(|h: EnvironmentHint| hint_view(h)) =~= before.map_values(
            |h: EnvironmentHint| hint_view(h),
        ) + presence_hint(name@, present));
    } else {
        assert(before.map_values(|h: EnvironmentHint| hint_view(h)) + presence_hint(name@, present)
            =~= before.map_values(|h: EnvironmentHint| hint_view(h)));
    }
}

/// The bounded environment observations of a probe, ordered by variable name: values of
/// `TERM`, `TERM_PROGRAM` and `COLORTERM`, presence only of the multiplexer and SSH markers.
pub fn environment_hints(snapshot: &EnvironmentSnapshot) -> (hints: Vec<EnvironmentHint>)
    ensures
        hints@.map_values(|h: EnvironmentHint| hint_view(h)) == snapshot_hints(*snapshot),
{
    let mut hints: Vec<EnvironmentHint> = Vec::new();
    assert(hints@.map_values(|h: EnvironmentHint| hint_view(h)) =~= Seq::empty());
    push_value_hint(&mut hints, "COLORTERM", &snapshot.colorterm);
    push_presence_hint(&mut hints, "SSH_CONNECTION", snapshot.ssh_connection);
    push_presence_hint(&mut hints, "SSH_TTY", snapshot.ssh_tty);
    push_value_hint(&mut hints, "TERM", &snapshot.term);
    push_value_hint(&mut hints, "TERM_PROGRAM", &snapshot.term_program);
    push_presence_hint(&mut hints, "TMUX", snapshot.tmux);
    push_presence_hint(&mut hints, "ZELLIJ", snapshot.zellij);
    push_presence_hint(&mut hints, "ZELLIJ_SESSION_NAME", snapshot.zellij_session_name);
    assert(hints@.map_values(|h: EnvironmentHint| hint_view(h)) =~= snapshot_hints(*snapshot));
    hints
}

/// A variable whose value a hint may retain.
pub open spec fn is_value_hint_name(name: Seq<char>) -> bool {
    name == "TERM"@ || name == "TERM_PROGRAM"@ || name == "COLORTERM"@
}

/// A transport marker whose value is sensitive.
pub open spec fn is_sensitive_hint_name(name: Seq<char>) -> bool {
    name == "SSH_CONNECTION"@ || name == "SSH_TTY"@ || name == "TMUX"@ || name == "ZELLIJ"@ || name
        == "ZELLIJ_SESSION_NAME"@
}

/// Only value hints carry a value.
pub open spec fn hint_retains_allowed(h: (Seq<char>, Option<Seq<char>>)) -> bool {
    h.1 is Some ==> is_value_hint_name(h.0)
}

proof fn lemma_hints_concat(a: Seq<(Seq<char>, Option<Seq<char>>)>, b: Seq<(Seq<char>, Option<Seq<char>>)>)
    requires
        forall|i: int| 0 <= i < a.len() ==> hint_retains_allowed(#[trigger] a[i]),
        forall|i: int| 0 <= i < b.len() ==> hint_retains_allowed(#[trigger] b[i]),
    ensures
        forall|i: int| 0 <= i < (a + b).len() ==> hint_retains_allowed(#[trigger] (a + b)[i]),
{
    assert forall|i: int| 0 <= i < (a + b).len() implies hint_retains_allowed(#[trigger] (a + b)[i]) by {
        if i < a.len() {
            assert((a + b)[i] == a[i]);
        } else {
            assert((a + b)[i] == b[i - a.len()]);
        }
    }
}

/// Sensitive transport markers are never retained by value: only `TERM`, `TERM_PROGRAM` and
/// `COLORTERM` hints carry values, so every `SSH_CONNECTION`, `SSH_TTY`, `TMUX`, `ZELLIJ` and
/// `ZELLIJ_SESSION_NAME` hint records presence only.
pub proof fn lemma_sensitive_hints_presence_only(s: EnvironmentSnapshot)
    ensures
        forall|i: int|
            0 <= i < snapshot_hints(s).len() ==> hint_retains_allowed(#[trigger] snapshot_hints(s)[i]),
        forall|name: Seq<char>| is_sensitive_hint_name(name) ==> !is_value_hint_name(name),
{
    let parts = seq![
        value_hint("COLORTERM"@, s.colorterm),
        presence_hint("SSH_CONNECTION"@, s.ssh_connection),
        presence_hint("SSH_TTY"@, s.ssh_tty),
        value_hint("TERM"@, s.term),
        value_hint("TERM_PROGRAM"@, s.term_program),
        presence_hint("TMUX"@, s.tmux),
        presence_hint("ZELLIJ"@, s.zellij),
        presence_hint("ZELLIJ_SESSION_NAME"@, s.zellij_session_name),
    ];
    assert forall|k: int, i: int| 0 <= k < 8 && 0 <= i < parts[k].len() implies hint_retains_allowed(
        #[trigger] parts[k][i],
    ) by {}
    let mut acc = parts[0];
    lemma_hints_concat(acc, parts[1]);
    acc = acc + parts[1];
    lemma_hints_concat(acc, parts[2]);
    acc = acc + parts[2];
    lemma_hints_concat(acc, parts[3]);
    acc = acc + parts[3];
    lemma_hints_concat(acc, parts[4]);
    acc = acc + parts[4];
    lemma_hints_concat(acc, parts[5]);
    acc = acc + parts[5];
    lemma_hints_concat(acc, parts[6]);
    acc = acc + parts[6];
    lemma_hints_concat(acc, parts[7]);
    acc = acc + parts[7];
    assert(acc =~= snapshot_hints(s));
    reveal_strlit("TERM");
    reveal_strlit("TERM_PROGRAM");
    reveal_strlit("COLORTERM");
    reveal_strlit("SSH_CONNECTION");
    reveal_strlit("SSH_TTY");
    reveal_strlit("TMUX");
    reveal_strlit("ZELLIJ");
    reveal_strlit("ZELLIJ_SESSION_NAME");
    assert("TMUX"@ != "TERM"@) by {
        assert("TMUX"@[1] != "TERM"@[1]);
    }
    assert("ZELLIJ"@.len() != "TERM"@.len());
    assert("SSH_TTY"@.len() != "TERM"@.len());
    assert("SSH_CONNECTION"@.len() != "TERM"@.len());
    assert("ZELLIJ_SESSION_NAME"@.len() != "TERM"@.len());
    assert("TMUX"@.len() != "TERM_PROGRAM"@.len());
    assert("ZELLIJ"@.len() != "TERM_PROGRAM"@.len());
    assert("SSH_TTY"@.len() != "TERM_PROGRAM"@.len());
    assert("SSH_CONNECTION"@.len() != "TERM_PROGRAM"@.len());
    assert("ZELLIJ_SESSION_NAME"@.len() != "TERM_PROGRAM"@.len());
    assert("TMUX"@.len() != "COLORTERM"@.len());
    assert("ZELLIJ"@.len() != "COLORTERM"@.len());
    assert("SSH_TTY"@.len() != "COLORTERM"@.len());
    assert("SSH_CONNECTION"@.len() != "COLORTERM"@.len());
    assert("ZELLIJ_SESSION_NAME"@.len() != "COLORTERM"@.len());
}

// ---------------------------------------------------------------------------------------------
// Exchanges and transport evidence
// ---------------------------------------------------------------------------------------------

/// One live TTY exchange as read: the response bytes, elapsed time and stop reason.
#[derive(Clone, Debug)]
pub struct LiveExchange {
    /// Exact bytes read before the exchange stopped.
    pub response: Vec<u8>,
    /// Monotonic elapsed time in milliseconds, saturated.
    pub elapsed_ms: u64,
    /// Why collection stopped.
    pub stop_reason: StopReason,
}

/// `x` records the exchange of `logical` sent as `wire` that read `live`: each byte string in
/// standard Base64, with the elapsed time and stop reason.
pub open spec fn exchange_records(x: WireExchange, logical: Seq<u8>, wire: Seq<u8>, live: LiveExchange) -> bool {
    &&& x.logical_request_base64@ == base64_encoding(Base64Profile::Standard, logical)
    &&& x.wire_request_base64@ == base64_encoding(Base64Profile::Standard, wire)
    &&& x.response_base64@ == base64_encoding(Base64Profile::Standard, live.response@)
    &&& x.elapsed_ms == live.elapsed_ms
    &&& x.stop_reason == live.stop_reason
}

/// Events numbered in order whose raw bytes are standard Base64.
pub open spec fn events_well_formed(events: Seq<WireEvent>) -> bool {
    forall|i: int|
        0 <= i < events.len() ==> (#[trigger] events[i]).sequence == expected_sequence(i as nat)
            && is_base64(events[i].raw_base64@)
}

/// An exchange that meets every structural invariant a receipt validator checks.
pub open spec fn exchange_well_formed(x: WireExchange) -> bool {
    &&& is_base64(x.logical_request_base64@)
    &&& is_base64(x.wire_request_base64@)
    &&& is_base64(x.response_base64@)
    &&& events_well_formed(x.events@)
}

/// Transport evidence whose preparation exchanges are all well formed.
pub open spec fn transport_well_formed(t: TransportEvidence) -> bool {
    forall|i: int|
        0 <= i < t.preparation_exchanges@.len() ==> exchange_well_formed(
            #[trigger] t.preparation_exchanges@[i],
        )
}

proof fn lemma_events_issue_none(path: Seq<char>, events: Seq<WireEvent>, index: nat)
    requires
        events_well_formed(events),
    ensures
        events_issue(path, events, index) is None,
    decreases events.len() - index,
{
    if index < events.len() {
        assert(events[index as int].sequence == expected_sequence(index));
        lemma_events_issue_none(path, events, index + 1);
    }
}

proof fn lemma_preparation_issue_none(exchanges: Seq<WireExchange>, index: nat)
    requires
        forall|i: int| 0 <= i < exchanges.len() ==> exchange_well_formed(#[trigger] exchanges[i]),
    ensures
        preparation_issue(exchanges, index) is None,
    decreases exchanges.len() - index,
{
    if index < exchanges.len() {
        assert(exchange_well_formed(exchanges[index as int]));
        lemma_events_issue_none(
            crate::evidence::preparation_path(index),
            exchanges[index as int].events@,
            0,
        );
        lemma_preparation_issue_none(exchanges, index + 1);
    }
}

/// A receipt whose transport evidence and exchange are well formed passes validation.
pub proof fn lemma_well_formed_receipt_validates(receipt: ProbeReceiptV1)
    requires
        receipt.schema@ == PROBE_RECEIPT_SCHEMA_V1@,
        transport_well_formed(receipt.context.transport),
        exchange_well_formed(receipt.exchange),
    ensures
        receipt_issue(receipt) is None,
{
    lemma_preparation_issue_none(receipt.context.transport.preparation_exchanges@, 0);
    lemma_events_issue_none("exchange"@, receipt.exchange.events@, 0);
}

/// Record one exchange: the logical request, the wire request and the response in standard
/// Base64, the parsed events, the elapsed time and the stop reason.
pub fn wire_exchange(logical_request: &[u8], wire_request: &[u8], live: LiveExchange, events: Vec<
    WireEvent,
>) -> (x: WireExchange)
    ensures
        exchange_records(x, logical_request@, wire_request@, live),
        x.events == events,
        is_base64(x.logical_request_base64@),
        is_base64(x.wire_request_base64@),
        is_base64(x.response_base64@),
        events_well_formed(events@) ==> exchange_well_formed(x),
{
    WireExchange {
        logical_request_base64: base64_encode(Base64Profile::Standard, logical_request),
        wire_request_base64: base64_encode(Base64Profile::Standard, wire_request),
        response_base64: base64_encode(Base64Profile::Standard, live.response.as_slice()),
        events,
        elapsed_ms: live.elapsed_ms,
        stop_reason: live.stop_reason,
    }
}

/// Identity of the direct TTY transport.
pub fn direct_transport_identity() -> (a: AdapterIdentity)
    ensures
        a.name@ == "direct-tty"@,
        a.version@ == DIRECT_TRANSPORT_VERSION@,
{
    AdapterIdentity {
        name: String::from_str("direct-tty"),
        version: String::from_str(DIRECT_TRANSPORT_VERSION),
    }
}

/// Transport evidence of the direct TTY path, which needs no preparation.
pub fn direct_transport_evidence() -> (t: TransportEvidence)
    ensures
        t.adapter.name@ == "direct-tty"@,
        t.adapter.version@ == DIRECT_TRANSPORT_VERSION@,
        t.readiness == TransportReadiness::NotRequired,
        t.preparation_exchanges@.len() == 0,
        transport_well_formed(t),
{
    TransportEvidence {
        adapter: direct_transport_identity(),
        readiness: TransportReadiness::NotRequired,
        preparation_exchanges: Vec::new(),
    }
}

/// The DA1 responses of `response` as events of `role`, numbered in wire order.
pub open spec fn da1_events_match(response: Seq<u8>, role: WireEventRole, events: Seq<WireEvent>) -> bool {
    &&& events.len() == da1_response_offsets(response, 0).len()
    &&& forall|i: int|
        0 <= i < events.len() ==> da1_event_matches(
            response,
            da1_response_offsets(response, 0)[i] as int,
            expected_sequence(i as nat),
            role,
            #[trigger] events[i],
        )
}

/// Events for the DA1 responses in `response`, with `role`.
fn da1_events(response: &[u8], role: WireEventRole) -> (events: Vec<WireEvent>)
    ensures
        da1_events_match(response@, role, events@),
        events_well_formed(events@),
{
    let responses = parse_responses(response);
    let ghost offsets = da1_response_offsets(response@, 0);
    let mut events: Vec<WireEvent> = Vec::new();
    let mut i: usize = 0;
    while i < responses.len()
        invariant
            i <= responses@.len() == offsets.len(),
            offsets == da1_response_offsets(response@, 0),
            forall|j: int|
                0 <= j < responses@.len() ==> crate::da1::da1_response_matches(
                    response@,
                    offsets[j] as int,
                    #[trigger] responses@[j],
                ),
            events@.len() == i,
            forall|j: int|
                0 <= j < i ==> da1_event_matches(
                    response@,
                    offsets[j] as int,
                    expected_sequence(j as nat),
                    role,
                    #[trigger] events@[j],
                ),
        decreases responses@.len() - i,
    {
        let item = &responses[i];
        assert(crate::da1::da1_response_matches(response@, offsets[i as int] as int, *item));
        let sequence: u32 = if i <= 0xffff_ffffusize {
            i as u32
        } else {
            0xffff_ffffu32
        };
        let event = item.wire_event(sequence, role);
        proof {
            lemma_wire_event_of_response(
                response@,
                offsets[i as int] as int,
                *item,
                expected_sequence(i as nat),
                role,
                event,
            );
        }
        events.push(event);
        i = i + 1;
    }
    assert forall|j: int| 0 <= j < events@.len() implies (#[trigger] events@[j]).sequence
        == expected_sequence(j as nat) && is_base64(events@[j].raw_base64@) by {
        assert(da1_event_matches(response@, offsets[j] as int, expected_sequence(j as nat), role, events@[j]));
    }
    events
}

/// The readiness query of the tmux transport: `ESC [ c`, sent inside passthrough framing.
pub open spec fn readiness_exchange_matches(x: WireExchange, live: LiveExchange) -> bool {
    &&& exchange_records(x, seq![27u8, 91u8, 99u8], passthrough_frame(seq![27u8, 91u8, 99u8]), live)
    &&& da1_events_match(live.response@, WireEventRole::BarrierReply, x.events@)
}

/// The transport-owned readiness exchanges of a tmux passthrough path, in progress. Every
/// recorded exchange is well formed.
pub struct TransportPreparation {
    exchanges: Vec<WireExchange>,
    ready: bool,
}

impl TransportPreparation {
    /// The exchanges recorded so far.
    pub closed spec fn exchanges(&self) -> Seq<WireExchange> {
        self.exchanges@
    }

    /// Whether the last attempt established readiness.
    pub closed spec fn is_ready(&self) -> bool {
        self.ready
    }

    #[verifier::type_invariant]
    spec fn recorded_well_formed(&self) -> bool {
        forall|i: int|
            0 <= i < self.exchanges@.len() ==> exchange_well_formed(#[trigger] self.exchanges@[i])
    }

    /// No attempt made yet.
    pub fn new() -> (p: TransportPreparation)
        ensures
            p.exchanges().len() == 0,
            !p.is_ready(),
    {
        TransportPreparation { exchanges: Vec::new(), ready: false }
    }

    /// Record one readiness attempt that read `live`; its events are the DA1 responses as
    /// barrier replies. Returns whether the barrier was seen, which ends preparation as ready.
    pub fn record_attempt(&mut self, live: LiveExchange) -> (finished: bool)
        ensures
            finished == (da1_response_offsets(live.response@, 0).len() > 0),
            final(self).is_ready() == finished,
            final(self).exchanges().len() == old(self).exchanges().len() + 1,
            final(self).exchanges().take(old(self).exchanges().len() as int) == old(self).exchanges(),
            readiness_exchange_matches(final(self).exchanges().last(), live),
    {
        proof {
            use_type_invariant(&*self);
        }
        let logical = crate::da1::build_query();
        let wire = crate::tmux::build_readiness_query();
        let events = da1_events(live.response.as_slice(), WireEventRole::BarrierReply);
        let finished = events.len() > 0;
        let exchange = wire_exchange(logical.as_slice(), wire.as_slice(), live, events);
        assert(exchange_well_formed(exchange));
        let mut exchanges: Vec<WireExchange> = Vec::new();
        std::mem::swap(&mut exchanges, &mut self.exchanges);
        let ghost before = exchanges@;
        let ghost recorded = exchange;
        exchanges.push(exchange);
        assert(exchanges@.take(before.len() as int) =~= before);
        assert forall|i: int| 0 <= i < exchanges@.len() implies exchange_well_formed(
            #[trigger] exchanges@[i],
        ) by {
            if i < before.len() {
                assert(exchanges@[i] == before[i]);
            } else {
                assert(exchanges@[i] == recorded);
            }
        }
        self.exchanges = exchanges;
        self.ready = finished;
        finished
    }

    /// The transport evidence of the tmux passthrough path: ready when the last attempt saw the
    /// barrier, unknown otherwise.
    pub fn finish(self) -> (t: TransportEvidence)
        ensures
            t.adapter.name@ == "tmux-dcs-passthrough"@,
            t.adapter.version@ == crate::tmux::ADAPTER_VERSION@,
            t.readiness == if self.is_ready() {
                TransportReadiness::Ready
            } else {
                TransportReadiness::Unknown
            },
            t.preparation_exchanges@ == self.exchanges(),
            transport_well_formed(t),
    {
        proof {
            use_type_invariant(&self);
        }
        let ready = self.ready;
        let TransportPreparation { exchanges, .. } = self;
        TransportEvidence {
            adapter: crate::tmux::adapter_identity(),
            readiness: if ready {
                TransportReadiness::Ready
            } else {
                TransportReadiness::Unknown
            },
            preparation_exchanges: exchanges,
        }
    }
}

// ---------------------------------------------------------------------------------------------
// Receipts
// ---------------------------------------------------------------------------------------------

/// `r` carries the execution context a probe was run in, with topology left unknown.
pub open spec fn receipt_context_is(
    r: ProbeReceiptV1,
    tty_endpoint: Seq<char>,
    transport: TransportEvidence,
    environment_hints: Seq<EnvironmentHint>,
) -> bool {
    &&& r.context.tty_endpoint@ == tty_endpoint
    &&& r.context.transport == transport
    &&& r.context.environment_hints@ == environment_hints
    &&& r.context.topology is Unknown
}

/// The receipt of a KGP query probe for image id `correlation_id`: the exchange of the query
/// sent as `wire_request`, its events and assessment as [`crate::kgp::parse_exchange`] states
/// them, the KGP identities, and the image id as correlation.
///
/// Every such receipt whose transport evidence is well formed passes
/// [`ProbeReceiptV1::validate`].
pub fn kgp_receipt(
    correlation_id: u32,
    protocol_request: &[u8],
    wire_request: &[u8],
    live: LiveExchange,
    observed_at_unix_ms: u64,
    tty_endpoint: String,
    transport: TransportEvidence,
    environment_hints: Vec<EnvironmentHint>,
) -> (r: ProbeReceiptV1)
    ensures
        r.schema@ == PROBE_RECEIPT_SCHEMA_V1@,
        r.observed_at_unix_ms == observed_at_unix_ms,
        is_kgp_protocol(r.capability.protocol),
        r.capability.name@ == "direct-rgb-query"@,
        r.adapter.name@ == "terminal-interop-kgp"@,
        r.adapter.version@ == crate::kgp::ADAPTER_VERSION@,
        r.correlation matches Some(c) && c.namespace@ == "org.kitty.image-id"@ && c.value@
            == decimal_chars(correlation_id as nat),
        receipt_context_is(r, tty_endpoint@, transport, environment_hints@),
        exchange_records(r.exchange, protocol_request@, wire_request@, live),
        r.exchange.events@.len() == kgp_spans(live.response@, 0).len(),
        forall|i: int|
            0 <= i < r.exchange.events@.len() ==> kgp_event_matches(
                live.response@,
                kgp_spans(live.response@, 0)[i],
                expected_sequence(i as nat),
                #[trigger] r.exchange.events@[i],
            ),
        kgp_assessment_matches(live.response@, correlation_id, r.assessment),
        transport_well_formed(transport) ==> receipt_issue(r) is None,
{
    let parsed = crate::kgp::parse_exchange(live.response.as_slice(), correlation_id);
    let events = parsed.events;
    let ghost spans = kgp_spans(live.response@, 0);
    assert forall|i: int| 0 <= i < events@.len() implies (#[trigger] events@[i]).sequence
        == expected_sequence(i as nat) && is_base64(events@[i].raw_base64@) by {
        assert(kgp_event_matches(live.response@, spans[i], expected_sequence(i as nat), events@[i]));
    }
    let exchange = wire_exchange(protocol_request, wire_request, live, events);
    let receipt = ProbeReceiptV1 {
        schema: String::from_str(PROBE_RECEIPT_SCHEMA_V1),
        observed_at_unix_ms,
        capability: crate::kgp::capability_id(),
        adapter: crate::kgp::adapter_identity(),
        correlation: Some(
            CorrelationId {
                namespace: String::from_str("org.kitty.image-id"),
                value: decimal_string(correlation_id as u64),
            },
        ),
        context: ProbeContext {
            tty_endpoint,
            transport,
            environment_hints,
            topology: TopologyObservation::Unknown,
        },
        exchange,
        assessment: parsed.assessment,
    };
    proof {
        if transport_well_formed(receipt.context.transport) {
            lemma_well_formed_receipt_validates(receipt);
        }
    }
    receipt
}

/// The receipt of a Sixel DA1 probe: the exchange of the query sent as `wire_request`, its
/// events and assessment as [`crate::sixel::parse_exchange`] states them, the Sixel identities,
/// and no correlation.
///
/// Every such receipt whose transport evidence is well formed passes
/// [`ProbeReceiptV1::validate`].
pub fn sixel_receipt(
    protocol_request: &[u8],
    wire_request: &[u8],
    live: LiveExchange,
    observed_at_unix_ms: u64,
    tty_endpoint: String,
    transport: TransportEvidence,
    environment_hints: Vec<EnvironmentHint>,
) -> (r: ProbeReceiptV1)
    ensures
        r.schema@ == PROBE_RECEIPT_SCHEMA_V1@,
        r.observed_at_unix_ms == observed_at_unix_ms,
        is_sixel_protocol(r.capability.protocol),
        r.capability.name@ == "raster-image-display"@,
        r.adapter.name@ == "terminal-interop-sixel"@,
        r.adapter.version@ == crate::sixel::ADAPTER_VERSION@,
        r.correlation is None,
        receipt_context_is(r, tty_endpoint@, transport, environment_hints@),
        exchange_records(r.exchange, protocol_request@, wire_request@, live),
        da1_events_match(live.response@, WireEventRole::CapabilityReply, r.exchange.events@),
        sixel_assessment_matches(live.response@, r.assessment),
        transport_well_formed(transport) ==> receipt_issue(r) is None,
{
    let parsed = crate::sixel::parse_exchange(live.response.as_slice());
    let events = parsed.events;
    let ghost offsets = da1_response_offsets(live.response@, 0);
    assert forall|i: int| 0 <= i < events@.len() implies (#[trigger] events@[i]).sequence
        == expected_sequence(i as nat) && is_base64(events@[i].raw_base64@) by {
        assert(da1_event_matches(
            live.response@,
            offsets[i] as int,
            expected_sequence(i as nat),
            WireEventRole::CapabilityReply,
            events@[i],
        ));
    }
    let exchange = wire_exchange(protocol_request, wire_request, live, events);
    let receipt = ProbeReceiptV1 {
        schema: String::from_str(PROBE_RECEIPT_SCHEMA_V1),
        observed_at_unix_ms,
        capability: crate::sixel::capability_id(),
        adapter: crate::sixel::adapter_identity(),
        correlation: None,
        context: ProbeContext {
            tty_endpoint,
            transport,
            environment_hints,
            topology: TopologyObservation::Unknown,
        },
        exchange,
        assessment: parsed.assessment,
    };
    proof {
        if transport_well_formed(receipt.context.transport) {
            lemma_well_formed_receipt_validates(receipt);
        }
    }
    receipt
}

// ---------------------------------------------------------------------------------------------
// Contract documents
// ---------------------------------------------------------------------------------------------

/// The versioned contracts a document may claim by its `schema` field.
#[derive(Clone, Copy, Debug, PartialEq, Eq, Structural)]
pub enum ContractKind {
    /// A probe receipt.
    ProbeReceipt,
    /// A capability negotiation receipt.
    CapabilityNegotiation,
    /// An artifact reference.
    ArtifactRef,
    /// An open intent.
    OpenIntent,
    /// An intent delivery receipt.
    IntentReceipt,
    /// An intent readiness announcement.
    IntentReady,
}

/// The contract a schema identity names, if any.
pub open spec fn contract_kind_of(schema: Seq<char>) -> Option<ContractKind> {
    if schema == PROBE_RECEIPT_SCHEMA_V1@ {
        Some(ContractKind::ProbeReceipt)
    } else if schema == crate::evidence::CAPABILITY_NEGOTIATION_SCHEMA_V1@ {
        Some(ContractKind::CapabilityNegotiation)
    } else if schema == crate::artifact_ref::ARTIFACT_REF_SCHEMA_V1@ {
        Some(ContractKind::ArtifactRef)
    } else if schema == crate::intent::OPEN_INTENT_SCHEMA_V1@ {
        Some(ContractKind::OpenIntent)
    } else if schema == crate::intent::INTENT_RECEIPT_SCHEMA_V1@ {
        Some(ContractKind::IntentReceipt)
    } else if schema == crate::intent::INTENT_READY_SCHEMA_V1@ {
        Some(ContractKind::IntentReady)
    } else {
        None
    }
}

/// Which contract a document claims by its schema identity; `None` for an unsupported one.
pub fn contract_kind(schema: &str) -> (r: Option<ContractKind>)
    ensures
        r == contract_kind_of(schema@),
{
    if text_eq(schema, PROBE_RECEIPT_SCHEMA_V1) {
        Some(ContractKind::ProbeReceipt)
    } else if text_eq(schema, crate::evidence::CAPABILITY_NEGOTIATION_SCHEMA_V1) {
        Some(ContractKind::CapabilityNegotiation)
    } else if text_eq(schema, crate::artifact_ref::ARTIFACT_REF_SCHEMA_V1) {
        Some(ContractKind::ArtifactRef)
    } else if text_eq(schema, crate::intent::OPEN_INTENT_SCHEMA_V1) {
        Some(ContractKind::OpenIntent)
    } else if text_eq(schema, crate::intent::INTENT_RECEIPT_SCHEMA_V1) {
        Some(ContractKind::IntentReceipt)
    } else if text_eq(schema, crate::intent::INTENT_READY_SCHEMA_V1) {
        Some(ContractKind::IntentReady)
    } else {
        None
    }
}

} // verus!
