//! Protocol-neutral contracts for terminal interoperability evidence: probe receipts and
//! deterministic capability negotiation over ordered receipts.

use crate::codec::{base64_decode, base64_decoding, debug_quoted, debug_text, Base64Profile};
use crate::text::{
    decimal_chars, decimal_string, joined, lemma_text_less_irreflexive, lemma_text_less_total,
    lemma_text_less_transitive, text_eq, text_less, text_lt,
};
use vstd::prelude::*;

verus! {

/// Maximum encoded artifact size accepted by the version-one preview profile: 32 MiB.
///
/// Registration and consumption share this bound so a short reference cannot authorize work
/// that the eventual preview consumer must reject after hashing an unbounded file.
pub const MAX_ARTIFACT_INPUT_BYTES_V1: usize = 32 * 1024 * 1024;

/// Stable schema identity for [`ProbeReceiptV1`].
pub const PROBE_RECEIPT_SCHEMA_V1: &'static str = "urn:terminal-interop:probe-receipt:v1";

/// Stable schema identity for [`CapabilityNegotiationV1`].
pub const CAPABILITY_NEGOTIATION_SCHEMA_V1: &'static str = "urn:terminal-interop:capability-negotiation:v1";

/// A protocol or standards family independent of any implementation.
#[derive(Debug, PartialEq, Eq)]
pub struct ProtocolId {
    /// Reverse-domain or standards-owned namespace.
    pub namespace: String,
    /// Human-readable protocol name inside the namespace.
    pub name: String,
    /// Profile or protocol revision used by this exchange.
    pub revision: String,
}

/// One capability with semantics defined by a protocol profile.
#[derive(Debug, PartialEq, Eq)]
pub struct CapabilityId {
    /// Protocol family that owns the capability semantics.
    pub protocol: ProtocolId,
    /// Stable capability name inside the protocol profile.
    pub name: String,
}

/// Identity of the adapter that produced the wire exchange.
#[derive(Debug, PartialEq, Eq)]
pub struct AdapterIdentity {
    /// Adapter implementation name.
    pub name: String,
    /// Adapter implementation version.
    pub version: String,
}

impl Clone for ProtocolId {
    fn clone(&self) -> (r: Self)
        ensures
            r == *self,
    {
        ProtocolId {
            namespace: self.namespace.clone(),
            name: self.name.clone(),
            revision: self.revision.clone(),
        }
    }
}

impl Clone for CapabilityId {
    fn clone(&self) -> (r: Self)
        ensures
            r == *self,
    {
        CapabilityId { protocol: self.protocol.clone(), name: self.name.clone() }
    }
}

impl Clone for AdapterIdentity {
    fn clone(&self) -> (r: Self)
        ensures
            r == *self,
    {
        AdapterIdentity { name: self.name.clone(), version: self.version.clone() }
    }
}

/// Two protocol identities with the same text in every field.
pub open spec fn same_protocol(a: ProtocolId, b: ProtocolId) -> bool {
    &&& a.namespace@ == b.namespace@
    &&& a.name@ == b.name@
    &&& a.revision@ == b.revision@
}

/// Two capability identities with the same text in every field.
pub open spec fn same_capability(a: CapabilityId, b: CapabilityId) -> bool {
    same_protocol(a.protocol, b.protocol) && a.name@ == b.name@
}

/// Two adapter identities with the same text in every field.
pub open spec fn same_adapter(a: AdapterIdentity, b: AdapterIdentity) -> bool {
    a.name@ == b.name@ && a.version@ == b.version@
}

impl ProtocolId {
    /// Field-wise textual equality.
    pub fn same_as(&self, other: &ProtocolId) -> (r: bool)
        ensures
            r == same_protocol(*self, *other),
    {
        self.namespace == other.namespace && self.name == other.name && self.revision
            == other.revision
    }
}

impl CapabilityId {
    /// Field-wise textual equality.
    pub fn same_as(&self, other: &CapabilityId) -> (r: bool)
        ensures
            r == same_capability(*self, *other),
    {
        self.protocol.same_as(&other.protocol) && self.name == other.name
    }
}

impl AdapterIdentity {
    /// Field-wise textual equality.
    pub fn same_as(&self, other: &AdapterIdentity) -> (r: bool)
        ensures
            r == same_adapter(*self, *other),
    {
        self.name == other.name && self.version == other.version
    }
}

/// Protocol-scoped correlation identity for one request-response relation.
#[derive(Clone, Debug, PartialEq, Eq)]
pub struct CorrelationId {
    /// Stable namespace defining how the value is interpreted.
    pub namespace: String,
    /// Exact protocol value retained without imposing a numeric representation.
    pub value: String,
}

/// How an environment hint was retained without promoting it to capability evidence.
#[derive(Clone, Debug, PartialEq, Eq)]
pub enum HintObservation {
    /// The variable was present; its value was intentionally not retained.
    Present,
    /// A bounded non-sensitive value was retained verbatim.
    Value(String),
}

/// A bounded environment observation that never establishes topology or support.
#[derive(Clone, Debug, PartialEq, Eq)]
pub struct EnvironmentHint {
    /// Environment variable name.
    pub name: String,
    /// Observed presence or allowlisted value.
    pub observation: HintObservation,
}

/// Whether the real transport topology is known from direct evidence.
#[derive(Clone, Debug, PartialEq, Eq)]
pub enum TopologyObservation {
    /// No direct topology sensor was available.
    Unknown,
    /// The caller explicitly supplied an ordered path.
    Declared {
        /// Ordered hops from client to terminal consumer.
        hops: Vec<PathHop>,
    },
}

/// One explicitly declared transport or consumer hop.
#[derive(Clone, Debug, PartialEq, Eq)]
pub struct PathHop {
    /// Generic role such as `multiplexer`, `transport`, or `terminal`.
    pub role: String,
    /// Implementation name when known.
    pub implementation: String,
    /// Implementation version when known.
    pub version: Option<String>,
}

/// Context in which a live probe was executed.
#[derive(Clone, Debug, PartialEq, Eq)]
pub struct ProbeContext {
    /// TTY endpoint used for both request and response.
    pub tty_endpoint: String,
    /// Evidence about preparation of the active transport path.
    pub transport: TransportEvidence,
    /// Bounded observations useful for diagnosis but not capability claims.
    pub environment_hints: Vec<EnvironmentHint>,
    /// Directly evidenced or explicitly unknown topology.
    pub topology: TopologyObservation,
}

/// Whether a transport path was ready for an application protocol exchange.
#[derive(Clone, Copy, Debug, PartialEq, Eq, Structural)]
pub enum TransportReadiness {
    /// This adapter requires no preparation exchange.
    NotRequired,
    /// A transport-owned readiness exchange completed.
    Ready,
    /// Preparation did not establish readiness before its deadline.
    Unknown,
}

/// Transport identity and any preparation exchanges executed before the probe.
#[derive(Clone, Debug, PartialEq, Eq)]
pub struct TransportEvidence {
    /// Adapter that transformed logical requests into wire requests.
    pub adapter: AdapterIdentity,
    /// Evidence-backed readiness of this transport path.
    pub readiness: TransportReadiness,
    /// Ordered transport-owned exchanges retained for independent inspection.
    pub preparation_exchanges: Vec<WireExchange>,
}

/// Semantic role of a parsed wire event.
#[derive(Clone, Copy, Debug, PartialEq, Eq, Structural)]
pub enum WireEventRole {
    /// Reply to the capability probe.
    CapabilityReply,
    /// Reply to the ordering barrier sent after the probe.
    BarrierReply,
    /// Bytes retained as evidence but not classified by the active adapter.
    Unclassified,
}

/// One structured protocol field of a wire event.
#[derive(Clone, Debug, PartialEq, Eq)]
pub struct EventField {
    /// Field name.
    pub key: String,
    /// Field value.
    pub value: String,
}

/// One parsed event with its exact wire representation.
#[derive(Clone, Debug, PartialEq, Eq)]
pub struct WireEvent {
    /// Zero-based event order in the received byte stream.
    pub sequence: u32,
    /// Adapter-independent event role.
    pub role: WireEventRole,
    /// Protocol family that parsed this event, if any.
    pub protocol: Option<ProtocolId>,
    /// Correlation value recovered from the protocol response.
    pub correlation: Option<String>,
    /// Protocol-defined status token such as `OK`.
    pub status: Option<String>,
    /// Structured protocol fields retained without changing the core schema; each key occurs
    /// at most once.
    pub fields: Vec<EventField>,
    /// Exact event bytes encoded with standard Base64.
    pub raw_base64: String,
}

/// Every key occurs at most once.
pub open spec fn keys_unique(fields: Seq<EventField>) -> bool {
    forall|i: int, j: int|
        0 <= i < j < fields.len() ==> #[trigger] fields[i].key@ != #[trigger] fields[j].key@
}

/// The fields as a map from key to value.
pub open spec fn field_map(fields: Seq<EventField>) -> Map<Seq<char>, Seq<char>>
    decreases fields.len(),
{
    if fields.len() == 0 {
        Map::empty()
    } else {
        field_map(fields.drop_last()).insert(fields.last().key@, fields.last().value@)
    }
}

proof fn lemma_field_map_update(fields: Seq<EventField>, j: int, entry: EventField)
    requires
        0 <= j < fields.len(),
        keys_unique(fields),
        entry.key@ == fields[j].key@,
    ensures
        field_map(fields.update(j, entry)) == field_map(fields).insert(entry.key@, entry.value@),
    decreases fields.len(),
{
    let updated = fields.update(j, entry);
    if j == fields.len() - 1 {
        assert(updated.drop_last() =~= fields.drop_last());
    } else {
        let rest = fields.drop_last();
        assert(keys_unique(rest)) by {
            assert forall|a: int, b: int| 0 <= a < b < rest.len() implies #[trigger] rest[a].key@
                != #[trigger] rest[b].key@ by {
                assert(rest[a] == fields[a] && rest[b] == fields[b]);
            }
        }
        lemma_field_map_update(rest, j, entry);
        assert(updated.drop_last() =~= rest.update(j, entry));
        assert(fields[j].key@ != fields.last().key@);
        assert(field_map(updated) =~= field_map(fields).insert(entry.key@, entry.value@));
    }
}

/// Keys in strictly increasing order, as a map sorted by key holds them; so each key occurs
/// once.
pub open spec fn keys_sorted(fields: Seq<EventField>) -> bool {
    forall|i: int, j: int|
        0 <= i < j < fields.len() ==> text_less(#[trigger] fields[i].key@, #[trigger] fields[j].key@)
}

/// Sorted keys are unique.
pub proof fn lemma_sorted_keys_unique(fields: Seq<EventField>)
    requires
        keys_sorted(fields),
    ensures
        keys_unique(fields),
{
    assert forall|i: int, j: int| 0 <= i < j < fields.len() implies #[trigger] fields[i].key@
        != #[trigger] fields[j].key@ by {
        lemma_text_less_irreflexive(fields[i].key@);
    }
}

proof fn lemma_field_map_insert(fields: Seq<EventField>, j: int, entry: EventField)
    requires
        0 <= j <= fields.len(),
        keys_unique(fields),
        forall|i: int| 0 <= i < fields.len() ==> (#[trigger] fields[i]).key@ != entry.key@,
    ensures
        field_map(fields.insert(j, entry)) == field_map(fields).insert(entry.key@, entry.value@),
    decreases fields.len(),
{
    let inserted = fields.insert(j, entry);
    if j == fields.len() {
        assert(inserted.drop_last() =~= fields);
    } else {
        let rest = fields.drop_last();
        assert(keys_unique(rest)) by {
            assert forall|a: int, b: int| 0 <= a < b < rest.len() implies #[trigger] rest[a].key@
                != #[trigger] rest[b].key@ by {
                assert(rest[a] == fields[a] && rest[b] == fields[b]);
            }
        }
        assert forall|i: int| 0 <= i < rest.len() implies (#[trigger] rest[i]).key@ != entry.key@ by {
            assert(rest[i] == fields[i]);
        }
        lemma_field_map_insert(rest, j, entry);
        assert(inserted.drop_last() =~= rest.insert(j, entry));
        assert(inserted.last() == fields.last());
        assert(fields.last().key@ != entry.key@);
        assert(field_map(inserted) =~= field_map(fields).insert(entry.key@, entry.value@));
    }
}

/// Set `key` to `value`, keeping the keys sorted: a later value for a key replaces the earlier
/// one, as in a map ordered by key.
pub fn insert_field(fields: &mut Vec<EventField>, key: String, value: String)
    requires
        keys_sorted(old(fields)@),
    ensures
        keys_sorted(final(fields)@),
        field_map(final(fields)@) == field_map(old(fields)@).insert(key@, value@),
{
    proof {
        lemma_sorted_keys_unique(fields@);
    }
    let mut j: usize = 0;
    while j < fields.len() && text_lt(fields[j].key.as_str(), key.as_str())
        invariant
            j <= fields@.len(),
            fields@ == old(fields)@,
            keys_sorted(old(fields)@),
            forall|i: int| 0 <= i < j ==> text_less((#[trigger] fields@[i]).key@, key@),
        decreases fields@.len() - j,
    {
        j = j + 1;
    }
    if j < fields.len() && text_eq(fields[j].key.as_str(), key.as_str()) {
        let entry = EventField { key, value };
        proof {
            lemma_field_map_update(fields@, j as int, entry);
        }
        fields.set(j, entry);
        assert(keys_sorted(fields@)) by {
            assert forall|a: int, b: int| 0 <= a < b < fields@.len() implies text_less(
                #[trigger] fields@[a].key@,
                #[trigger] fields@[b].key@,
            ) by {
                assert(text_less(old(fields)@[a].key@, old(fields)@[b].key@));
            }
        }
        return;
    }
    let ghost before = fields@;
    proof {
        if j < before.len() {
            lemma_text_less_total(before[j as int].key@, key@);
        }
    }
    assert forall|i: int| 0 <= i < before.len() implies (#[trigger] before[i]).key@ != key@ by {
        if i < j {
            lemma_text_less_irreflexive(key@);
        } else {
            if i > j {
                lemma_text_less_transitive(key@, before[j as int].key@, before[i].key@);
            }
            lemma_text_less_irreflexive(key@);
        }
    }
    let ghost entry = EventField { key, value };
    proof {
        lemma_field_map_insert(before, j as int, entry);
    }
    fields.insert(j, EventField { key, value });
    assert(fields@ == before.insert(j as int, entry));
    assert(keys_sorted(fields@)) by {
        assert forall|a: int, b: int| 0 <= a < b < fields@.len() implies text_less(
            #[trigger] fields@[a].key@,
            #[trigger] fields@[b].key@,
        ) by {
            if b < j {
                assert(text_less(before[a].key@, before[b].key@));
            } else if b == j {
                assert(fields@[a] == before[a]);
            } else if a < j {
                assert(fields@[b] == before[b - 1]);
                assert(text_less(before[a].key@, key@));
                lemma_text_less_transitive(before[a].key@, key@, before[j as int].key@);
                if b - 1 > j {
                    lemma_text_less_transitive(before[a].key@, before[j as int].key@, before[b - 1].key@);
                }
            } else if a == j {
                assert(fields@[b] == before[b - 1]);
                if b - 1 > j {
                    lemma_text_less_transitive(key@, before[j as int].key@, before[b - 1].key@);
                }
            } else {
                assert(fields@[a] == before[a - 1]);
                assert(fields@[b] == before[b - 1]);
                assert(text_less(before[a - 1].key@, before[b - 1].key@));
            }
        }
    }
}

/// Why the live exchange stopped collecting response bytes.
#[derive(Clone, Copy, Debug, PartialEq, Eq, Structural)]
pub enum StopReason {
    /// Both the capability reply and its ordering barrier were observed.
    CapabilityAndBarrierObserved,
    /// The ordering barrier arrived without a capability reply.
    BarrierObserved,
    /// The configured deadline elapsed.
    Timeout,
    /// The bounded response buffer was exhausted.
    ResourceLimit,
    /// The TTY returned end-of-input.
    EndOfInput,
}

/// Exact bytes and parsed events from one request-response exchange.
#[derive(Clone, Debug, PartialEq, Eq)]
pub struct WireExchange {
    /// Logical request before any transport-specific transformation.
    pub logical_request_base64: String,
    /// Exact request written to the TTY after transport transformation.
    pub wire_request_base64: String,
    /// Exact bytes read before the exchange stopped, encoded with standard Base64.
    pub response_base64: String,
    /// Parsed events in wire order.
    pub events: Vec<WireEvent>,
    /// Monotonic elapsed time rounded to milliseconds.
    pub elapsed_ms: u64,
    /// Terminal condition for response collection.
    pub stop_reason: StopReason,
}

/// Evidence-backed availability of the requested capability.
#[derive(Clone, Copy, Debug, PartialEq, Eq, Structural)]
pub enum Availability {
    /// A correlated protocol reply established implementation support.
    Available,
    /// The barrier established that no protocol reply was produced.
    Unavailable,
    /// The exchange could not establish either state.
    Unknown,
}

/// Conformance of the observed exchange to the active profile.
#[derive(Clone, Copy, Debug, PartialEq, Eq, Structural)]
pub enum Conformance {
    /// All applicable assertions passed.
    Conformant,
    /// At least one applicable assertion failed.
    Nonconformant,
    /// The implementation did not expose the capability, so profile conformance was not tested.
    NotApplicable,
    /// Evidence was insufficient to evaluate the profile.
    Inconclusive,
}

/// Result of one stable conformance assertion.
#[derive(Clone, Copy, Debug, PartialEq, Eq, Structural)]
pub enum AssertionOutcome {
    /// The evidence satisfies the assertion.
    Pass,
    /// The evidence contradicts the assertion.
    Fail,
    /// The evidence cannot decide the assertion.
    Unknown,
    /// The assertion does not apply to this capability state.
    NotApplicable,
}

/// One independently consumable assertion result.
#[derive(Clone, Debug, PartialEq, Eq)]
pub struct AssertionResult {
    /// Stable profile-scoped assertion identifier.
    pub id: String,
    /// Typed result rather than a boolean that would erase uncertainty.
    pub outcome: AssertionOutcome,
    /// Concise evidence-bound explanation.
    pub detail: String,
}

/// An assertion result with its texts as character sequences.
pub struct AssertionView {
    pub id: Seq<char>,
    pub outcome: AssertionOutcome,
    pub detail: Seq<char>,
}

/// The character-sequence view of an assertion result.
pub open spec fn assertion_view(a: AssertionResult) -> AssertionView {
    AssertionView { id: a.id@, outcome: a.outcome, detail: a.detail@ }
}

/// An assertion view built from its parts.
pub open spec fn av(id: Seq<char>, outcome: AssertionOutcome, detail: Seq<char>) -> AssertionView {
    AssertionView { id, outcome, detail }
}

/// Interpretation kept separate from the wire exchange that supports it.
#[derive(Clone, Debug, PartialEq, Eq)]
pub struct Assessment {
    /// Whether the capability was observed as available.
    pub availability: Availability,
    /// Whether the exchange conformed to the active profile.
    pub conformance: Conformance,
    /// Stable, independently inspectable assertion results.
    pub assertions: Vec<AssertionResult>,
}

/// Version-one portable receipt for a live terminal capability probe.
#[derive(Clone, Debug, PartialEq, Eq)]
pub struct ProbeReceiptV1 {
    /// Stable schema identifier.
    pub schema: String,
    /// Wall-clock observation time as milliseconds since the Unix epoch.
    pub observed_at_unix_ms: u64,
    /// Capability whose semantics govern the assessment.
    pub capability: CapabilityId,
    /// Adapter implementation that emitted and parsed the exchange.
    pub adapter: AdapterIdentity,
    /// Protocol-level correlation identity when this profile defines one.
    pub correlation: Option<CorrelationId>,
    /// Execution context with unknowns preserved.
    pub context: ProbeContext,
    /// Exact transport evidence.
    pub exchange: WireExchange,
    /// Interpretation derived from the exchange.
    pub assessment: Assessment,
}

/// Structural failure in a serialized probe receipt independent of protocol policy.
#[derive(Clone, Debug, PartialEq, Eq)]
pub enum ProbeReceiptValidationError {
    /// The document does not use the v1 schema identity.
    UnsupportedSchema(String),
    /// One wire-evidence field is not canonical standard Base64.
    InvalidBase64 {
        /// Stable field path inside the receipt.
        field: String,
    },
    /// Parsed wire events are not numbered in exact stream order.
    NoncanonicalEventSequence {
        /// Stable exchange path inside the receipt.
        exchange: String,
        /// Expected zero-based sequence number.
        expected: u32,
        /// Serialized sequence number.
        actual: u32,
    },
}

/// What a [`ProbeReceiptValidationError`] reports, with its texts as character sequences.
pub enum ReceiptIssue {
    UnsupportedSchema(Seq<char>),
    InvalidBase64(Seq<char>),
    NoncanonicalEventSequence(Seq<char>, u32, u32),
}

impl View for ProbeReceiptValidationError {
    type V = ReceiptIssue;

    open spec fn view(&self) -> ReceiptIssue {
        match self {
            ProbeReceiptValidationError::UnsupportedSchema(s) => ReceiptIssue::UnsupportedSchema(
                s@,
            ),
            ProbeReceiptValidationError::InvalidBase64 { field } => ReceiptIssue::InvalidBase64(
                field@,
            ),
            ProbeReceiptValidationError::NoncanonicalEventSequence { exchange, expected, actual } =>
                ReceiptIssue::NoncanonicalEventSequence(exchange@, *expected, *actual),
        }
    }
}

/// The message of each receipt failure; the schema is shown as std's `Debug` renders it.
pub open spec fn receipt_issue_message(issue: ReceiptIssue) -> Seq<char> {
    match issue {
        ReceiptIssue::UnsupportedSchema(schema) => "unsupported probe receipt schema: "@ + debug_text(
            schema,
        ),
        ReceiptIssue::InvalidBase64(field) => "probe receipt field "@ + field
            + " is not standard Base64"@,
        ReceiptIssue::NoncanonicalEventSequence(exchange, expected, actual) =>
            "noncanonical event sequence in "@ + exchange + ": expected "@ + decimal_chars(
            expected as nat,
        ) + ", received "@ + decimal_chars(actual as nat),
    }
}

impl ProbeReceiptValidationError {
    /// Human-readable description.
    pub fn message(&self) -> (s: String)
        ensures
            s@ == receipt_issue_message(self@),
    {
        match self {
            ProbeReceiptValidationError::UnsupportedSchema(schema) => {
                let shown = debug_quoted(schema.as_str());
                joined("unsupported probe receipt schema: ", shown.as_str())
            },
            ProbeReceiptValidationError::InvalidBase64 { field } => {
                let mut s = joined("probe receipt field ", field.as_str());
                s.append(" is not standard Base64");
                s
            },
            ProbeReceiptValidationError::NoncanonicalEventSequence { exchange, expected, actual } => {
                let mut s = joined("noncanonical event sequence in ", exchange.as_str());
                s.append(": expected ");
                s.append(decimal_string(*expected as u64).as_str());
                s.append(", received ");
                s.append(decimal_string(*actual as u64).as_str());
                s
            },
        }
    }
}

/// Text that the standard Base64 engine decodes.
pub open spec fn is_base64(text: Seq<char>) -> bool {
    base64_decoding(Base64Profile::Standard, text) is Some
}

/// The sequence number expected at a zero-based event position.
pub open spec fn expected_sequence(index: nat) -> u32 {
    if index <= u32::MAX {
        index as u32
    } else {
        u32::MAX
    }
}

/// Path of one event's raw bytes inside an exchange.
pub open spec fn event_raw_path(exchange: Seq<char>, index: nat) -> Seq<char> {
    exchange + ".events["@ + decimal_chars(index) + "].raw_base64"@
}

/// First structural failure among `events[index..]` of the exchange at `path`.
pub open spec fn events_issue(path: Seq<char>, events: Seq<WireEvent>, index: nat) -> Option<
    ReceiptIssue,
>
    decreases events.len() - index,
{
    if index >= events.len() {
        None
    } else if events[index as int].sequence != expected_sequence(index) {
        Some(
            ReceiptIssue::NoncanonicalEventSequence(
                path,
                expected_sequence(index),
                events[index as int].sequence,
            ),
        )
    } else if !is_base64(events[index as int].raw_base64@) {
        Some(ReceiptIssue::InvalidBase64(event_raw_path(path, index)))
    } else {
        events_issue(path, events, index + 1)
    }
}

/// First structural failure of one exchange located at `path`.
pub open spec fn exchange_issue(path: Seq<char>, exchange: WireExchange) -> Option<ReceiptIssue> {
    if !is_base64(exchange.logical_request_base64@) {
        Some(ReceiptIssue::InvalidBase64(path + ".logical_request_base64"@))
    } else if !is_base64(exchange.wire_request_base64@) {
        Some(ReceiptIssue::InvalidBase64(path + ".wire_request_base64"@))
    } else if !is_base64(exchange.response_base64@) {
        Some(ReceiptIssue::InvalidBase64(path + ".response_base64"@))
    } else {
        events_issue(path, exchange.events@, 0)
    }
}

/// Path of one transport preparation exchange inside a receipt.
pub open spec fn preparation_path(index: nat) -> Seq<char> {
    "context.transport.preparation_exchanges["@ + decimal_chars(index) + "]"@
}

/// First structural failure among `exchanges[index..]`.
pub open spec fn preparation_issue(exchanges: Seq<WireExchange>, index: nat) -> Option<
    ReceiptIssue,
>
    decreases exchanges.len() - index,
{
    if index >= exchanges.len() {
        None
    } else {
        match exchange_issue(preparation_path(index), exchanges[index as int]) {
            Some(issue) => Some(issue),
            None => preparation_issue(exchanges, index + 1),
        }
    }
}

/// First structural failure of a receipt in the order the v1 validator checks: schema
/// identity, each preparation exchange, then the probe exchange.
pub open spec fn receipt_issue(receipt: ProbeReceiptV1) -> Option<ReceiptIssue> {
    if receipt.schema@ != PROBE_RECEIPT_SCHEMA_V1@ {
        Some(ReceiptIssue::UnsupportedSchema(receipt.schema@))
    } else {
        match preparation_issue(receipt.context.transport.preparation_exchanges@, 0) {
            Some(issue) => Some(issue),
            None => exchange_issue("exchange"@, receipt.exchange),
        }
    }
}

fn validate_base64(field: String, value: &str) -> (r: Result<(), ProbeReceiptValidationError>)
    ensures
        match r {
            Ok(()) => is_base64(value@),
            Err(e) => !is_base64(value@) && e@ == ReceiptIssue::InvalidBase64(field@),
        },
{
    match base64_decode(Base64Profile::Standard, value) {
        Some(_) => Ok(()),
        None => Err(ProbeReceiptValidationError::InvalidBase64 { field }),
    }
}

fn validate_exchange(path: &str, exchange: &WireExchange) -> (r: Result<
    (),
    ProbeReceiptValidationError,
>)
    ensures
        match r {
            Ok(()) => exchange_issue(path@, *exchange) is None,
            Err(e) => exchange_issue(path@, *exchange) == Some(e@),
        },
{
    let checked = validate_base64(
        joined(path, ".logical_request_base64"),
        exchange.logical_request_base64.as_str(),
    );
    if checked.is_err() {
        return checked;
    }
    let checked = validate_base64(
        joined(path, ".wire_request_base64"),
        exchange.wire_request_base64.as_str(),
    );
    if checked.is_err() {
        return checked;
    }
    let checked = validate_base64(joined(path, ".response_base64"), exchange.response_base64.as_str());
    if checked.is_err() {
        return checked;
    }
    let mut index: usize = 0;
    while index < exchange.events.len()
        invariant
            index <= exchange.events@.len(),
            is_base64(exchange.logical_request_base64@),
            is_base64(exchange.wire_request_base64@),
            is_base64(exchange.response_base64@),
            events_issue(path@, exchange.events@, 0) == events_issue(
                path@,
                exchange.events@,
                index as nat,
            ),
        decreases exchange.events@.len() - index,
    {
        let event = &exchange.events[index];
        let expected: u32 = if index <= u32::MAX as usize {
            index as u32
        } else {
            u32::MAX
        };
        if event.sequence != expected {
            return Err(
                ProbeReceiptValidationError::NoncanonicalEventSequence {
                    exchange: String::from_str(path),
                    expected,
                    actual: event.sequence,
                },
            );
        }
        let position = decimal_string(index as u64);
        let mut field = joined(path, ".events[");
        field.append(position.as_str());
        field.append("].raw_base64");
        let checked = validate_base64(field, event.raw_base64.as_str());
        if checked.is_err() {
            return checked;
        }
        index = index + 1;
    }
    Ok(())
}

impl ProbeReceiptV1 {
    /// Validate protocol-neutral structural invariants retained by the v1 receipt.
    ///
    /// Protocol-specific parsers remain responsible for proving that parsed events and
    /// assessments follow from the exact wire bytes. This method validates only invariants that
    /// every implementation can check without knowing the active protocol profile.
    pub fn validate(&self) -> (r: Result<(), ProbeReceiptValidationError>)
        ensures
            match r {
                Ok(()) => receipt_issue(*self) is None,
                Err(e) => receipt_issue(*self) == Some(e@),
            },
    {
        if !text_eq(self.schema.as_str(), PROBE_RECEIPT_SCHEMA_V1) {
            return Err(ProbeReceiptValidationError::UnsupportedSchema(self.schema.clone()));
        }
        let exchanges = &self.context.transport.preparation_exchanges;
        let mut index: usize = 0;
        while index < exchanges.len()
            invariant
                exchanges@ == self.context.transport.preparation_exchanges@,
                self.schema@ == PROBE_RECEIPT_SCHEMA_V1@,
                index <= exchanges@.len(),
                preparation_issue(exchanges@, 0) == preparation_issue(exchanges@, index as nat),
            decreases exchanges@.len() - index,
        {
            let mut path = String::from_str("context.transport.preparation_exchanges[");
            let position = decimal_string(index as u64);
            path.append(position.as_str());
            path.append("]");
            assert(path@ == preparation_path(index as nat));
            let checked = validate_exchange(path.as_str(), &exchanges[index]);
            if checked.is_err() {
                return checked;
            }
            index = index + 1;
        }
        validate_exchange("exchange", &self.exchange)
    }
}

/// Whether one observed candidate is safe to actuate under the v1 negotiation profile.
#[derive(Clone, Copy, Debug, PartialEq, Eq, Structural)]
pub enum CandidateDisposition {
    /// Availability, profile conformance, and transport readiness are all established.
    Eligible,
    /// At least one required claim is unavailable, negative, or unknown.
    Ineligible,
}

/// One capability receipt in caller-defined preference order.
#[derive(Clone, Debug, PartialEq, Eq)]
pub struct NegotiationCandidateV1 {
    /// Zero-based preference rank supplied by the negotiating consumer.
    pub preference: u64,
    /// Derived eligibility; the complete evidence remains in `receipt`.
    pub disposition: CandidateDisposition,
    /// Exact live receipt from the candidate adapter.
    pub receipt: ProbeReceiptV1,
}

/// Result of evaluating all supplied candidates without erasing negative or unknown evidence.
#[derive(Clone, Debug, PartialEq, Eq)]
pub enum NegotiationSelectionV1 {
    /// The first eligible candidate in explicit preference order.
    Selected {
        /// Preference rank of the selected candidate.
        preference: u64,
        /// Selected protocol capability.
        capability: CapabilityId,
        /// Adapter that produced the selected evidence.
        adapter: AdapterIdentity,
    },
    /// No supplied candidate had sufficient positive evidence.
    NoEligibleCandidate,
}

/// Portable receipt for deterministic capability selection from ordered live evidence.
///
/// Its fields are private: a value is built only by [`negotiate_capabilities_v1`] or by
/// [`CapabilityNegotiationV1::from_parts`], which rejects every inconsistent derived field.
#[derive(Debug, PartialEq, Eq)]
pub struct CapabilityNegotiationV1 {
    schema: String,
    candidates: Vec<NegotiationCandidateV1>,
    selection: NegotiationSelectionV1,
}

/// The content of a [`CapabilityNegotiationV1`].
pub struct NegotiationRecord {
    pub schema: Seq<char>,
    pub candidates: Seq<NegotiationCandidateV1>,
    pub selection: NegotiationSelectionV1,
}

impl View for CapabilityNegotiationV1 {
    type V = NegotiationRecord;

    closed spec fn view(&self) -> NegotiationRecord {
        NegotiationRecord {
            schema: self.schema@,
            candidates: self.candidates@,
            selection: self.selection,
        }
    }
}

/// Semantic failure in a serialized capability negotiation receipt.
#[derive(Clone, Debug, PartialEq, Eq)]
pub enum NegotiationValidationError {
    /// The document does not use the v1 schema identity.
    UnsupportedSchema(String),
    /// A candidate preference does not match its exact vector position.
    NoncanonicalPreference {
        /// Expected zero-based preference.
        expected: u64,
        /// Serialized preference.
        actual: u64,
    },
    /// Serialized disposition contradicts the embedded probe receipt.
    DispositionMismatch {
        /// Candidate preference whose disposition is invalid.
        preference: u64,
    },
    /// Selection does not point to the first eligible candidate.
    SelectionMismatch,
    /// Selection duplicates a capability or adapter other than the selected candidate's identity.
    SelectedIdentityMismatch {
        /// Selected preference whose duplicated identity is invalid.
        preference: u64,
    },
    /// An embedded candidate receipt violates protocol-neutral v1 structure.
    InvalidReceipt {
        /// Candidate preference whose receipt is invalid.
        preference: u64,
        /// Exact structural failure in the embedded receipt.
        source: ProbeReceiptValidationError,
    },
}

/// What a [`NegotiationValidationError`] reports, with its texts as character sequences.
pub enum NegotiationIssue {
    UnsupportedSchema(Seq<char>),
    NoncanonicalPreference(u64, u64),
    DispositionMismatch(u64),
    SelectionMismatch,
    SelectedIdentityMismatch(u64),
    InvalidReceipt(u64, ReceiptIssue),
}

impl View for NegotiationValidationError {
    type V = NegotiationIssue;

    open spec fn view(&self) -> NegotiationIssue {
        match self {
            NegotiationValidationError::UnsupportedSchema(s) => NegotiationIssue::UnsupportedSchema(
                s@,
            ),
            NegotiationValidationError::NoncanonicalPreference { expected, actual } =>
                NegotiationIssue::NoncanonicalPreference(*expected, *actual),
            NegotiationValidationError::DispositionMismatch { preference } =>
                NegotiationIssue::DispositionMismatch(*preference),
            NegotiationValidationError::SelectionMismatch => NegotiationIssue::SelectionMismatch,
            NegotiationValidationError::SelectedIdentityMismatch { preference } =>
                NegotiationIssue::SelectedIdentityMismatch(*preference),
            NegotiationValidationError::InvalidReceipt { preference, source } =>
                NegotiationIssue::InvalidReceipt(*preference, source@),
        }
    }
}

/// The message of each negotiation failure; the schema is shown as std's `Debug` renders it.
pub open spec fn negotiation_issue_message(issue: NegotiationIssue) -> Seq<char> {
    match issue {
        NegotiationIssue::UnsupportedSchema(schema) => "unsupported capability negotiation schema: "@
            + debug_text(schema),
        NegotiationIssue::NoncanonicalPreference(expected, actual) =>
            "noncanonical capability preference: expected "@ + decimal_chars(expected as nat)
            + ", received "@ + decimal_chars(actual as nat),
        NegotiationIssue::DispositionMismatch(preference) =>
            "capability disposition contradicts receipt at preference "@ + decimal_chars(
            preference as nat,
        ),
        NegotiationIssue::SelectionMismatch => "selection is not the first eligible capability"@,
        NegotiationIssue::SelectedIdentityMismatch(preference) =>
            "selected capability identity does not match preference "@ + decimal_chars(
            preference as nat,
        ),
        NegotiationIssue::InvalidReceipt(preference, issue) => "invalid probe receipt at preference "@
            + decimal_chars(preference as nat) + ": "@ + receipt_issue_message(issue),
    }
}

impl NegotiationValidationError {
    /// Human-readable description.
    pub fn message(&self) -> (s: String)
        ensures
            s@ == negotiation_issue_message(self@),
    {
        match self {
            NegotiationValidationError::UnsupportedSchema(schema) => {
                let shown = debug_quoted(schema.as_str());
                joined("unsupported capability negotiation schema: ", shown.as_str())
            },
            NegotiationValidationError::NoncanonicalPreference { expected, actual } => {
                let mut s = String::from_str("noncanonical capability preference: expected ");
                s.append(decimal_string(*expected).as_str());
                s.append(", received ");
                s.append(decimal_string(*actual).as_str());
                s
            },
            NegotiationValidationError::DispositionMismatch { preference } => joined(
                "capability disposition contradicts receipt at preference ",
                decimal_string(*preference).as_str(),
            ),
            NegotiationValidationError::SelectionMismatch => String::from_str(
                "selection is not the first eligible capability",
            ),
            NegotiationValidationError::SelectedIdentityMismatch { preference } => joined(
                "selected capability identity does not match preference ",
                decimal_string(*preference).as_str(),
            ),
            NegotiationValidationError::InvalidReceipt { preference, source } => {
                let mut s = String::from_str("invalid probe receipt at preference ");
                s.append(decimal_string(*preference).as_str());
                s.append(": ");
                s.append(source.message().as_str());
                s
            },
        }
    }
}

/// The v1 eligibility rule: available, conformant, and a transport that is ready or needs no
/// preparation.
pub open spec fn receipt_eligible(receipt: ProbeReceiptV1) -> bool {
    &&& receipt.assessment.availability == Availability::Available
    &&& receipt.assessment.conformance == Conformance::Conformant
    &&& (receipt.context.transport.readiness == TransportReadiness::NotRequired
        || receipt.context.transport.readiness == TransportReadiness::Ready)
}

/// The disposition the eligibility rule derives for a receipt.
pub open spec fn disposition_for(receipt: ProbeReceiptV1) -> CandidateDisposition {
    if receipt_eligible(receipt) {
        CandidateDisposition::Eligible
    } else {
        CandidateDisposition::Ineligible
    }
}

/// Candidate `index` is eligible and no earlier candidate is.
pub open spec fn is_first_eligible(candidates: Seq<NegotiationCandidateV1>, index: int) -> bool {
    &&& 0 <= index < candidates.len()
    &&& receipt_eligible(candidates[index].receipt)
    &&& forall|j: int| 0 <= j < index ==> !receipt_eligible(#[trigger] candidates[j].receipt)
}

/// Preferences are the exact positions and dispositions follow the eligibility rule.
pub open spec fn candidates_canonical(candidates: Seq<NegotiationCandidateV1>) -> bool {
    forall|i: int|
        0 <= i < candidates.len() ==> {
            &&& (#[trigger] candidates[i]).preference == i
            &&& candidates[i].disposition == disposition_for(candidates[i].receipt)
        }
}

/// The selection names the first eligible candidate with its own capability and adapter, or
/// no candidate is eligible.
pub open spec fn selection_canonical(
    candidates: Seq<NegotiationCandidateV1>,
    selection: NegotiationSelectionV1,
) -> bool {
    match selection {
        NegotiationSelectionV1::NoEligibleCandidate => forall|i: int|
            0 <= i < candidates.len() ==> !receipt_eligible(#[trigger] candidates[i].receipt),
        NegotiationSelectionV1::Selected { preference, capability, adapter } => {
            &&& is_first_eligible(candidates, preference as int)
            &&& same_capability(capability, candidates[preference as int].receipt.capability)
            &&& same_adapter(adapter, candidates[preference as int].receipt.adapter)
        },
    }
}

/// Every derived field of a negotiation agrees with its embedded evidence.
pub open spec fn negotiation_canonical(n: NegotiationRecord) -> bool {
    &&& n.schema == CAPABILITY_NEGOTIATION_SCHEMA_V1@
    &&& candidates_canonical(n.candidates)
    &&& selection_canonical(n.candidates, n.selection)
}

/// First failure of one candidate at position `index`: preference, then receipt structure,
/// then disposition.
pub open spec fn candidate_issue(candidate: NegotiationCandidateV1, index: nat) -> Option<
    NegotiationIssue,
> {
    if candidate.preference != index {
        Some(NegotiationIssue::NoncanonicalPreference(index as u64, candidate.preference))
    } else {
        match receipt_issue(candidate.receipt) {
            Some(issue) => Some(NegotiationIssue::InvalidReceipt(candidate.preference, issue)),
            None => if candidate.disposition != disposition_for(candidate.receipt) {
                Some(NegotiationIssue::DispositionMismatch(candidate.preference))
            } else {
                None
            },
        }
    }
}

/// First candidate failure among `candidates[index..]`.
pub open spec fn candidates_issue(candidates: Seq<NegotiationCandidateV1>, index: nat) -> Option<
    NegotiationIssue,
>
    decreases candidates.len() - index,
{
    if index >= candidates.len() {
        None
    } else {
        match candidate_issue(candidates[index as int], index) {
            Some(issue) => Some(issue),
            None => candidates_issue(candidates, index + 1),
        }
    }
}

/// Position of the first candidate at or after `index` whose disposition is `Eligible`.
pub open spec fn first_eligible_disposition(
    candidates: Seq<NegotiationCandidateV1>,
    index: nat,
) -> Option<nat>
    decreases candidates.len() - index,
{
    if index >= candidates.len() {
        None
    } else if candidates[index as int].disposition == CandidateDisposition::Eligible {
        Some(index)
    } else {
        first_eligible_disposition(candidates, index + 1)
    }
}

/// Failure of the selection against the candidate dispositions.
pub open spec fn selection_issue(
    candidates: Seq<NegotiationCandidateV1>,
    selection: NegotiationSelectionV1,
) -> Option<NegotiationIssue> {
    match selection {
        NegotiationSelectionV1::NoEligibleCandidate => match first_eligible_disposition(
            candidates,
            0,
        ) {
            None => None,
            Some(_) => Some(NegotiationIssue::SelectionMismatch),
        },
        NegotiationSelectionV1::Selected { preference, capability, adapter } => match
        first_eligible_disposition(candidates, 0) {
            None => Some(NegotiationIssue::SelectionMismatch),
            Some(k) => if preference != candidates[k as int].preference {
                Some(NegotiationIssue::SelectionMismatch)
            } else if !same_capability(capability, candidates[k as int].receipt.capability)
                || !same_adapter(adapter, candidates[k as int].receipt.adapter) {
                Some(NegotiationIssue::SelectedIdentityMismatch(preference))
            } else {
                None
            },
        },
    }
}

/// First semantic failure of a negotiation in the order the v1 validator checks.
pub open spec fn negotiation_issue(n: NegotiationRecord) -> Option<NegotiationIssue> {
    if n.schema != CAPABILITY_NEGOTIATION_SCHEMA_V1@ {
        Some(NegotiationIssue::UnsupportedSchema(n.schema))
    } else {
        match candidates_issue(n.candidates, 0) {
            Some(issue) => Some(issue),
            None => selection_issue(n.candidates, n.selection),
        }
    }
}

/// The receipt issue of the first candidate whose receipt is structurally invalid, among
/// `candidates[index..]`.
pub open spec fn first_receipt_issue(candidates: Seq<NegotiationCandidateV1>, index: nat) -> Option<
    NegotiationIssue,
>
    decreases candidates.len() - index,
{
    if index >= candidates.len() {
        None
    } else {
        match receipt_issue(candidates[index as int].receipt) {
            Some(issue) => Some(
                NegotiationIssue::InvalidReceipt(candidates[index as int].preference, issue),
            ),
            None => first_receipt_issue(candidates, index + 1),
        }
    }
}

fn preference_from_index(index: usize) -> (p: u64)
    ensures
        p == index,
{
    index as u64
}

/// Return whether a probe receipt establishes every condition required for actuation.
pub fn receipt_is_eligible(receipt: &ProbeReceiptV1) -> (r: bool)
    ensures
        r == receipt_eligible(*receipt),
{
    receipt.assessment.availability == Availability::Available
        && receipt.assessment.conformance == Conformance::Conformant && (
    receipt.context.transport.readiness == TransportReadiness::NotRequired
        || receipt.context.transport.readiness == TransportReadiness::Ready)
}

impl CapabilityNegotiationV1 {
    #[verifier::type_invariant]
    spec fn derived_fields_agree(&self) -> bool {
        &&& candidates_canonical(self.candidates@)
        &&& selection_canonical(self.candidates@, self.selection)
        &&& self.schema@ == CAPABILITY_NEGOTIATION_SCHEMA_V1@
    }

    /// Stable schema identity retained in this receipt.
    pub fn schema(&self) -> (r: &str)
        ensures
            r@ == self@.schema,
    {
        self.schema.as_str()
    }

    /// Ordered candidate evidence.
    pub fn candidates(&self) -> (r: &[NegotiationCandidateV1])
        ensures
            r@ == self@.candidates,
    {
        self.candidates.as_slice()
    }

    /// Deterministic selection derived from the ordered candidates.
    pub fn selection(&self) -> (r: &NegotiationSelectionV1)
        ensures
            *r == self@.selection,
    {
        &self.selection
    }

    /// Every derived field of any negotiation value agrees with its embedded evidence: a value
    /// can only be built from consistent parts.
    pub fn check_derived_fields(&self)
        ensures
            negotiation_canonical(self@),
    {
        proof {
            use_type_invariant(self);
        }
    }
}

impl Clone for CapabilityNegotiationV1 {
    /// A copy built again from copies of the candidate receipts, in the same order: the
    /// schema, the preferences, the dispositions and the selection are derived anew, so the
    /// copy is as consistent as the value it copies.
    fn clone(&self) -> (c: Self)
        ensures
            c@.schema == self@.schema,
            c@.candidates.len() == self@.candidates.len(),
            forall|i: int|
                0 <= i < self@.candidates.len() ==> (#[trigger] c@.candidates[i]).preference
                    == self@.candidates[i].preference,
    {
        proof {
            use_type_invariant(self);
        }
        let mut receipts: Vec<ProbeReceiptV1> = Vec::new();
        let mut index: usize = 0;
        while index < self.candidates.len()
            invariant
                index <= self.candidates@.len(),
                receipts@.len() == index,
            decreases self.candidates@.len() - index,
        {
            receipts.push(self.candidates[index].receipt.clone());
            index = index + 1;
        }
        negotiate_capabilities_v1(receipts)
    }
}

/// Select the first eligible capability while preserving every supplied receipt.
///
/// Input order is the complete preference policy. The function does not infer terminal identity,
/// reorder candidates, or introduce a fallback that was not supplied by the caller.
pub fn negotiate_capabilities_v1(receipts: Vec<ProbeReceiptV1>) -> (n: CapabilityNegotiationV1)
    ensures
        n@.schema == CAPABILITY_NEGOTIATION_SCHEMA_V1@,
        n@.candidates.len() == receipts@.len(),
        forall|i: int|
            0 <= i < receipts@.len() ==> {
                &&& (#[trigger] n@.candidates[i]).preference == i
                &&& n@.candidates[i].receipt == receipts@[i]
                &&& n@.candidates[i].disposition == disposition_for(receipts@[i])
            },
        match n@.selection {
            NegotiationSelectionV1::NoEligibleCandidate => forall|i: int|
                0 <= i < receipts@.len() ==> !receipt_eligible(#[trigger] receipts@[i]),
            NegotiationSelectionV1::Selected { preference, capability, adapter } => {
                &&& is_first_eligible(n@.candidates, preference as int)
                &&& capability == receipts@[preference as int].capability
                &&& adapter == receipts@[preference as int].adapter
            },
        },
        negotiation_canonical(n@),
{
    broadcast use vstd::std_specs::vec::axiom_spec_into_iter;

    let ghost input = receipts@;
    let count = receipts.len();
    let mut selection = NegotiationSelectionV1::NoEligibleCandidate;
    let mut candidates: Vec<NegotiationCandidateV1> = Vec::new();
    let mut index: usize = 0;
    for receipt in it: receipts.into_iter()
        invariant
            it.seq() == input,
            index == it.index(),
            index <= input.len(),
            input.len() == count,
            candidates@.len() == index,
            forall|i: int|
                0 <= i < index ==> {
                    &&& (#[trigger] candidates@[i]).preference == i
                    &&& candidates@[i].receipt == input[i]
                    &&& candidates@[i].disposition == disposition_for(input[i])
                },
            match selection {
                NegotiationSelectionV1::NoEligibleCandidate => forall|i: int|
                    0 <= i < index ==> !receipt_eligible(#[trigger] input[i]),
                NegotiationSelectionV1::Selected { preference, capability, adapter } => {
                    &&& preference < index
                    &&& is_first_eligible(candidates@, preference as int)
                    &&& capability == input[preference as int].capability
                    &&& adapter == input[preference as int].adapter
                },
            },
    {
        let preference = preference_from_index(index);
        let eligible = receipt_is_eligible(&receipt);
        let disposition = if eligible {
            if let NegotiationSelectionV1::NoEligibleCandidate = selection {
                selection = NegotiationSelectionV1::Selected {
                    preference,
                    capability: receipt.capability.clone(),
                    adapter: receipt.adapter.clone(),
                };
            }
            CandidateDisposition::Eligible
        } else {
            CandidateDisposition::Ineligible
        };
        let ghost before = candidates@;
        candidates.push(NegotiationCandidateV1 { preference, disposition, receipt });
        assert(forall|j: int| 0 <= j < index ==> candidates@[j] == before[j]);
        index = index + 1;
    }
    proof {
        assert(candidates_canonical(candidates@));
        if selection is NoEligibleCandidate {
            assert forall|i: int| 0 <= i < candidates@.len() implies !receipt_eligible(
                #[trigger] candidates@[i].receipt,
            ) by {
                assert(candidates@[i].receipt == input[i]);
            }
        }
    }
    CapabilityNegotiationV1 {
        schema: String::from_str(CAPABILITY_NEGOTIATION_SCHEMA_V1),
        candidates,
        selection,
    }
}

/// The record of a negotiation with the given parts.
pub open spec fn negotiation_record(
    schema: Seq<char>,
    candidates: Seq<NegotiationCandidateV1>,
    selection: NegotiationSelectionV1,
) -> NegotiationRecord {
    NegotiationRecord { schema, candidates, selection }
}

fn check_negotiation(
    schema: &String,
    candidates: &Vec<NegotiationCandidateV1>,
    selection: &NegotiationSelectionV1,
) -> (r: Result<(), NegotiationValidationError>)
    ensures
        match r {
            Ok(()) => negotiation_issue(negotiation_record(schema@, candidates@, *selection)) is None,
            Err(e) => negotiation_issue(negotiation_record(schema@, candidates@, *selection))
                == Some(e@),
        },
{
    if !text_eq(schema.as_str(), CAPABILITY_NEGOTIATION_SCHEMA_V1) {
        return Err(NegotiationValidationError::UnsupportedSchema(schema.clone()));
    }
    let mut first: Option<usize> = None;
    let mut index: usize = 0;
    while index < candidates.len()
        invariant
            index <= candidates@.len(),
            schema@ == CAPABILITY_NEGOTIATION_SCHEMA_V1@,
            candidates_issue(candidates@, 0) == candidates_issue(candidates@, index as nat),
            match first {
                None => first_eligible_disposition(candidates@, 0) == first_eligible_disposition(
                    candidates@,
                    index as nat,
                ),
                Some(k) => k < index && first_eligible_disposition(candidates@, 0) == Some(
                    k as nat,
                ),
            },
        decreases candidates@.len() - index,
    {
        let candidate = &candidates[index];
        let expected = preference_from_index(index);
        if candidate.preference != expected {
            return Err(
                NegotiationValidationError::NoncanonicalPreference {
                    expected,
                    actual: candidate.preference,
                },
            );
        }
        match candidate.receipt.validate() {
            Ok(()) => {},
            Err(source) => {
                return Err(
                    NegotiationValidationError::InvalidReceipt {
                        preference: candidate.preference,
                        source,
                    },
                );
            },
        }
        let expected_disposition = if receipt_is_eligible(&candidate.receipt) {
            CandidateDisposition::Eligible
        } else {
            CandidateDisposition::Ineligible
        };
        if candidate.disposition != expected_disposition {
            return Err(
                NegotiationValidationError::DispositionMismatch {
                    preference: candidate.preference,
                },
            );
        }
        if first.is_none() && candidate.disposition == CandidateDisposition::Eligible {
            first = Some(index);
        }
        index = index + 1;
    }
    match selection {
        NegotiationSelectionV1::NoEligibleCandidate => {
            if first.is_none() {
                Ok(())
            } else {
                Err(NegotiationValidationError::SelectionMismatch)
            }
        },
        NegotiationSelectionV1::Selected { preference, capability, adapter } => {
            match first {
                None => Err(NegotiationValidationError::SelectionMismatch),
                Some(k) => {
                    let chosen = &candidates[k];
                    if *preference != chosen.preference {
                        Err(NegotiationValidationError::SelectionMismatch)
                    } else if !capability.same_as(&chosen.receipt.capability) || !adapter.same_as(
                        &chosen.receipt.adapter,
                    ) {
                        Err(
                            NegotiationValidationError::SelectedIdentityMismatch {
                                preference: *preference,
                            },
                        )
                    } else {
                        Ok(())
                    }
                },
            }
        },
    }
}

proof fn lemma_first_eligible_disposition(candidates: Seq<NegotiationCandidateV1>, index: nat)
    ensures
        match first_eligible_disposition(candidates, index) {
            Some(k) => {
                &&& index <= k < candidates.len()
                &&& candidates[k as int].disposition == CandidateDisposition::Eligible
                &&& forall|j: int|
                    index <= j < k ==> (#[trigger] candidates[j]).disposition
                        != CandidateDisposition::Eligible
            },
            None => forall|j: int|
                index <= j < candidates.len() ==> (#[trigger] candidates[j]).disposition
                    != CandidateDisposition::Eligible,
        },
    decreases candidates.len() - index,
{
    if index < candidates.len() {
        lemma_first_eligible_disposition(candidates, index + 1);
    }
}

proof fn lemma_no_candidate_issue(candidates: Seq<NegotiationCandidateV1>, index: nat)
    requires
        candidates_issue(candidates, index) is None,
    ensures
        forall|i: int|
            index <= i < candidates.len() ==> candidate_issue(#[trigger] candidates[i], i as nat)
                is None,
    decreases candidates.len() - index,
{
    if index < candidates.len() {
        lemma_no_candidate_issue(candidates, index + 1);
    }
}

proof fn lemma_canonical_candidates_issue(candidates: Seq<NegotiationCandidateV1>, index: nat)
    requires
        candidates_canonical(candidates),
    ensures
        candidates_issue(candidates, index) == first_receipt_issue(candidates, index),
    decreases candidates.len() - index,
{
    if index < candidates.len() {
        let c = candidates[index as int];
        assert(c.preference == index);
        lemma_canonical_candidates_issue(candidates, index + 1);
    }
}

/// A negotiation whose validation finds nothing has consistent derived fields.
proof fn lemma_valid_negotiation_is_canonical(n: NegotiationRecord)
    requires
        negotiation_issue(n) is None,
    ensures
        negotiation_canonical(n),
{
    let c = n.candidates;
    lemma_no_candidate_issue(c, 0);
    assert forall|i: int| 0 <= i < c.len() implies {
        &&& (#[trigger] c[i]).preference == i
        &&& c[i].disposition == disposition_for(c[i].receipt)
    } by {
        assert(candidate_issue(c[i], i as nat) is None);
    }
    lemma_first_eligible_disposition(c, 0);
    match n.selection {
        NegotiationSelectionV1::NoEligibleCandidate => {
            assert forall|i: int| 0 <= i < c.len() implies !receipt_eligible(
                #[trigger] c[i].receipt,
            ) by {
                assert(c[i].disposition == disposition_for(c[i].receipt));
            }
        },
        NegotiationSelectionV1::Selected { preference, capability, adapter } => {
            let k = first_eligible_disposition(c, 0).unwrap();
            assert(c[k as int].preference == k);
            assert forall|j: int| 0 <= j < preference implies !receipt_eligible(
                #[trigger] c[j].receipt,
            ) by {
                assert(c[j].disposition == disposition_for(c[j].receipt));
            }
            assert(c[k as int].disposition == disposition_for(c[k as int].receipt));
        },
    }
}

/// Revalidating a negotiation whose derived fields are consistent can only report a
/// structurally invalid embedded receipt: the first one, if any.
pub proof fn lemma_canonical_negotiation_issue(n: NegotiationRecord)
    requires
        negotiation_canonical(n),
    ensures
        negotiation_issue(n) == first_receipt_issue(n.candidates, 0),
{
    let c = n.candidates;
    lemma_canonical_candidates_issue(c, 0);
    if first_receipt_issue(c, 0) is None {
        lemma_first_eligible_disposition(c, 0);
        match n.selection {
            NegotiationSelectionV1::NoEligibleCandidate => {
                if first_eligible_disposition(c, 0) is Some {
                    let k = first_eligible_disposition(c, 0).unwrap();
                    assert(c[k as int].disposition == disposition_for(c[k as int].receipt));
                }
            },
            NegotiationSelectionV1::Selected { preference, capability, adapter } => {
                let p = preference as int;
                assert(c[p].disposition == disposition_for(c[p].receipt));
                if first_eligible_disposition(c, 0) is Some {
                    let k = first_eligible_disposition(c, 0).unwrap() as int;
                    assert(c[k].disposition == disposition_for(c[k].receipt));
                    assert(c[k].preference == k);
                    if k < p {
                        assert(!receipt_eligible(c[k].receipt));
                    } else if p < k {
                        assert(c[p].disposition != CandidateDisposition::Eligible);
                    }
                }
            },
        }
    }
}

proof fn lemma_first_receipt_issue_none(candidates: Seq<NegotiationCandidateV1>, index: nat)
    requires
        forall|i: int| 0 <= i < candidates.len() ==> receipt_issue(#[trigger] candidates[i].receipt) is None,
    ensures
        first_receipt_issue(candidates, index) is None,
    decreases candidates.len() - index,
{
    if index < candidates.len() {
        assert(receipt_issue(candidates[index as int].receipt) is None);
        lemma_first_receipt_issue_none(candidates, index + 1);
    }
}

/// A negotiation whose derived fields are consistent and whose embedded receipts are all
/// structurally valid passes validation: negotiating over valid receipts, as
/// [`negotiate_capabilities_v1`] does, yields a record that validates.
pub proof fn lemma_negotiation_of_valid_receipts(n: NegotiationRecord)
    requires
        negotiation_canonical(n),
        forall|i: int| 0 <= i < n.candidates.len() ==> receipt_issue(#[trigger] n.candidates[i].receipt) is None,
    ensures
        negotiation_issue(n) is None,
{
    lemma_canonical_negotiation_issue(n);
    lemma_first_receipt_issue_none(n.candidates, 0);
}

impl CapabilityNegotiationV1 {
    /// Validate every derived field against the embedded evidence.
    pub fn validate(&self) -> (r: Result<(), NegotiationValidationError>)
        ensures
            match r {
                Ok(()) => negotiation_issue(self@) is None,
                Err(e) => negotiation_issue(self@) == Some(e@),
            },
            r is Ok <==> first_receipt_issue(self@.candidates, 0) is None,
    {
        proof {
            use_type_invariant(self);
            lemma_canonical_negotiation_issue(self@);
        }
        check_negotiation(&self.schema, &self.candidates, &self.selection)
    }

    /// Rebuild a negotiation from its serialized parts, failing closed unless every derived
    /// field agrees with the embedded evidence.
    pub fn from_parts(
        schema: String,
        candidates: Vec<NegotiationCandidateV1>,
        selection: NegotiationSelectionV1,
    ) -> (r: Result<CapabilityNegotiationV1, NegotiationValidationError>)
        ensures
            match r {
                Ok(n) => {
                    &&& n@.schema == schema@
                    &&& n@.candidates == candidates@
                    &&& n@.selection == selection
                    &&& negotiation_issue(n@) is None
                },
                Err(e) => negotiation_issue(negotiation_record(schema@, candidates@, selection))
                    == Some(e@),
            },
    {
        match check_negotiation(&schema, &candidates, &selection) {
            Ok(()) => {
                proof {
                    lemma_valid_negotiation_is_canonical(
                        negotiation_record(schema@, candidates@, selection),
                    );
                }
                Ok(CapabilityNegotiationV1 { schema, candidates, selection })
            },
            Err(e) => Err(e),
        }
    }
}

// ---------------------------------------------------------------------------------------------
// Laws of receipt validation and eligibility
// ---------------------------------------------------------------------------------------------

/// Every encoded field of an exchange is standard Base64, and its events are numbered by
/// position, each with standard Base64 raw bytes.
pub open spec fn exchange_sound(x: WireExchange) -> bool {
    &&& is_base64(x.logical_request_base64@)
    &&& is_base64(x.wire_request_base64@)
    &&& is_base64(x.response_base64@)
    &&& forall|j: int|
        0 <= j < x.events@.len() ==> {
            &&& (#[trigger] x.events@[j]).sequence == expected_sequence(j as nat)
            &&& is_base64(x.events@[j].raw_base64@)
        }
}

proof fn lemma_events_issue_none(path: Seq<char>, events: Seq<WireEvent>, k: nat)
    requires
        k <= events.len(),
    ensures
        (events_issue(path, events, k) is None) == (forall|j: int|
            k <= j < events.len() ==> {
                &&& (#[trigger] events[j]).sequence == expected_sequence(j as nat)
                &&& is_base64(events[j].raw_base64@)
            }),
    decreases events.len() - k,
{
    if k < events.len() {
        lemma_events_issue_none(path, events, k + 1);
    }
}

proof fn lemma_exchange_issue_none(path: Seq<char>, x: WireExchange)
    ensures
        (exchange_issue(path, x) is None) == exchange_sound(x),
{
    lemma_events_issue_none(path, x.events@, 0);
}

proof fn lemma_preparation_issue_none(xs: Seq<WireExchange>, k: nat)
    requires
        k <= xs.len(),
    ensures
        (preparation_issue(xs, k) is None) == (forall|i: int|
            k <= i < xs.len() ==> exchange_sound(#[trigger] xs[i])),
    decreases xs.len() - k,
{
    if k < xs.len() {
        lemma_exchange_issue_none(preparation_path(k), xs[k as int]);
        lemma_preparation_issue_none(xs, k + 1);
    }
}

proof fn lemma_preparation_issue_first(xs: Seq<WireExchange>, k: nat, i: nat)
    requires
        k <= i < xs.len(),
        forall|j: int| k <= j < i ==> exchange_sound(#[trigger] xs[j]),
        !exchange_sound(xs[i as int]),
    ensures
        preparation_issue(xs, k) == exchange_issue(preparation_path(i), xs[i as int]),
        preparation_issue(xs, k) is Some,
    decreases i - k,
{
    lemma_exchange_issue_none(preparation_path(k), xs[k as int]);
    if k < i {
        lemma_preparation_issue_first(xs, k + 1, i);
    }
}

/// Receipt validation checks everything it promises, the preparation exchanges included: a
/// receipt is valid exactly when it carries the v1 schema, every transport preparation exchange
/// and the probe exchange have standard Base64 in each encoded field, and their events are
/// numbered by position with standard Base64 raw bytes. When the schema is right and the
/// preparation exchange at `i` is the first unsound one, the failure reported is that
/// exchange's, located under `context.transport.preparation_exchanges[i]`.
pub proof fn lemma_receipt_validation_complete(receipt: ProbeReceiptV1, i: nat)
    ensures
        (receipt_issue(receipt) is None) == {
            &&& receipt.schema@ == PROBE_RECEIPT_SCHEMA_V1@
            &&& forall|k: int|
                0 <= k < receipt.context.transport.preparation_exchanges@.len() ==> exchange_sound(
                    #[trigger] receipt.context.transport.preparation_exchanges@[k],
                )
            &&& exchange_sound(receipt.exchange)
        },
        ({
            let xs = receipt.context.transport.preparation_exchanges@;
            receipt.schema@ == PROBE_RECEIPT_SCHEMA_V1@ && i < xs.len() && (forall|k: int|
                0 <= k < i ==> exchange_sound(#[trigger] xs[k])) && !exchange_sound(xs[i as int])
                ==> {
                &&& receipt_issue(receipt) is Some
                &&& receipt_issue(receipt) == exchange_issue(preparation_path(i), xs[i as int])
            }
        }),
{
    let xs = receipt.context.transport.preparation_exchanges@;
    lemma_preparation_issue_none(xs, 0);
    lemma_exchange_issue_none("exchange"@, receipt.exchange);
    if receipt.schema@ == PROBE_RECEIPT_SCHEMA_V1@ && i < xs.len() && (forall|k: int|
        0 <= k < i ==> exchange_sound(#[trigger] xs[k])) && !exchange_sound(xs[i as int]) {
        lemma_preparation_issue_first(xs, 0, i);
    }
}

/// The v1 eligibility rule, stated on the receipt's own fields: a receipt is eligible exactly
/// when its capability is available, its profile conformant, and its transport ready or in no
/// need of preparation. A transport whose readiness is unknown is never eligible, whatever the
/// rest of the receipt says.
pub proof fn lemma_eligibility_rule(receipt: ProbeReceiptV1)
    ensures
        receipt.context.transport.readiness == TransportReadiness::Unknown ==> !receipt_eligible(
            receipt,
        ),
        receipt.assessment.availability != Availability::Available ==> !receipt_eligible(receipt),
        receipt.assessment.conformance != Conformance::Conformant ==> !receipt_eligible(receipt),
        (receipt.assessment.availability == Availability::Available
            && receipt.assessment.conformance == Conformance::Conformant && (
        receipt.context.transport.readiness == TransportReadiness::Ready
            || receipt.context.transport.readiness == TransportReadiness::NotRequired))
            ==> receipt_eligible(receipt),
        receipt_eligible(receipt) == (disposition_for(receipt) == CandidateDisposition::Eligible),
{
}

/// A negotiation never selects what the rule excludes: in any consistent negotiation, every
/// candidate whose transport readiness is unknown, or whose capability is not available and
/// conformant, is ineligible; a selected candidate is available, conformant and on a ready or
/// preparation-free transport, and no earlier candidate is; and when some candidate meets the
/// rule, one at or before it is selected.
pub proof fn lemma_negotiation_respects_eligibility(n: NegotiationRecord)
    requires
        negotiation_canonical(n),
    ensures
        forall|i: int|
            0 <= i < n.candidates.len() && !(n.candidates[i].receipt.assessment.availability
                == Availability::Available && n.candidates[i].receipt.assessment.conformance
                == Conformance::Conformant && (n.candidates[i].receipt.context.transport.readiness
                == TransportReadiness::Ready || n.candidates[i].receipt.context.transport.readiness
                == TransportReadiness::NotRequired)) ==> (#[trigger] n.candidates[i]).disposition
                == CandidateDisposition::Ineligible,
        n.selection matches NegotiationSelectionV1::Selected { preference, .. } ==> {
            let r = n.candidates[preference as int].receipt;
            &&& 0 <= preference < n.candidates.len()
            &&& r.assessment.availability == Availability::Available
            &&& r.assessment.conformance == Conformance::Conformant
            &&& (r.context.transport.readiness == TransportReadiness::Ready
                || r.context.transport.readiness == TransportReadiness::NotRequired)
            &&& forall|j: int|
                0 <= j < preference ==> (#[trigger] n.candidates[j]).disposition
                    == CandidateDisposition::Ineligible
        },
        forall|i: int|
            0 <= i < n.candidates.len() && (#[trigger] n.candidates[i]).receipt.assessment.availability
                == Availability::Available && n.candidates[i].receipt.assessment.conformance
                == Conformance::Conformant && (n.candidates[i].receipt.context.transport.readiness
                == TransportReadiness::Ready || n.candidates[i].receipt.context.transport.readiness
                == TransportReadiness::NotRequired) ==> (n.selection matches NegotiationSelectionV1::Selected {
                preference,
                ..
            } && preference <= i),
{
    assert forall|i: int|
        0 <= i < n.candidates.len() && (#[trigger] n.candidates[i]).receipt.assessment.availability
            == Availability::Available && n.candidates[i].receipt.assessment.conformance
            == Conformance::Conformant && (n.candidates[i].receipt.context.transport.readiness
            == TransportReadiness::Ready || n.candidates[i].receipt.context.transport.readiness
            == TransportReadiness::NotRequired) implies (n.selection matches NegotiationSelectionV1::Selected {
        preference,
        ..
    } && preference <= i) by {
        assert(receipt_eligible(n.candidates[i].receipt));
        match n.selection {
            NegotiationSelectionV1::NoEligibleCandidate => {},
            NegotiationSelectionV1::Selected { preference, .. } => {
                if preference > i {
                    assert(!receipt_eligible(n.candidates[i].receipt));
                }
            },
        }
    }
    match n.selection {
        NegotiationSelectionV1::NoEligibleCandidate => {},
        NegotiationSelectionV1::Selected { preference, .. } => {
            assert forall|j: int| 0 <= j < preference implies (#[trigger] n.candidates[j]).disposition
                == CandidateDisposition::Ineligible by {
                assert(!receipt_eligible(n.candidates[j].receipt));
            }
        },
    }
}

} // verus!
