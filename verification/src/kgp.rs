//! Kitty Graphics Protocol adapter for terminal interoperability probes.

use crate::codec::{
    base64_decoding, base64_encode, base64_encoding, utf8_lossy, utf8_lossy_string, Base64Profile,
};
use crate::da1::copy_range;
use crate::evidence::{
    assertion_view, av, expected_sequence, field_map, insert_field, keys_sorted, AdapterIdentity,
    AssertionOutcome, AssertionResult, AssertionView, Assessment, Availability, CapabilityId,
    Conformance, EventField, ProtocolId, WireEvent, WireEventRole,
};
use crate::text::{
    ascii_bytes, decimal_bytes, decimal_chars, decimal_string, find_byte, first_index,
    joined, lemma_find_byte_first, lemma_split_on_piece, lemma_split_on_separator, parse_unsigned,
    push_ascii, split_on, unsigned_accepts, unsigned_value,
};
use vstd::prelude::*;

verus! {

/// Adapter implementation version.
pub const ADAPTER_VERSION: &'static str = "0.1.0";

/// Error returned when a KGP probe cannot be constructed.
#[derive(Clone, Copy, Debug, PartialEq, Eq, Structural)]
pub enum ProbeBuildError {
    /// KGP reserves image identifier zero.
    ZeroCorrelationId,
}

impl ProbeBuildError {
    /// Human-readable description.
    pub fn message(&self) -> (s: String)
        ensures
            s@ == "KGP correlation id must be non-zero"@,
    {
        String::from_str("KGP correlation id must be non-zero")
    }
}

/// Parsed response and its profile assessment.
#[derive(Clone, Debug, PartialEq, Eq)]
pub struct ParsedExchange {
    /// Recognized events in wire order.
    pub events: Vec<WireEvent>,
    /// Evidence-backed interpretation of the query profile.
    pub assessment: Assessment,
    /// Whether the correlated KGP reply was observed.
    pub correlated_reply_seen: bool,
    /// Whether the primary-device-attributes barrier reply was observed.
    pub barrier_seen: bool,
}

/// Protocol identity for the first KGP interoperability profile.
pub fn protocol_id() -> (p: ProtocolId)
    ensures
        is_kgp_protocol(p),
{
    ProtocolId {
        namespace: String::from_str("org.kitty"),
        name: String::from_str("terminal-graphics-protocol"),
        revision: String::from_str("query-direct-rgb-v1"),
    }
}

/// The KGP query profile identity.
pub open spec fn is_kgp_protocol(p: ProtocolId) -> bool {
    &&& p.namespace@ == "org.kitty"@
    &&& p.name@ == "terminal-graphics-protocol"@
    &&& p.revision@ == "query-direct-rgb-v1"@
}

/// Capability identity established by the query probe.
pub fn capability_id() -> (c: CapabilityId)
    ensures
        is_kgp_protocol(c.protocol),
        c.name@ == "direct-rgb-query"@,
{
    CapabilityId { protocol: protocol_id(), name: String::from_str("direct-rgb-query") }
}

/// Identity of this adapter implementation.
pub fn adapter_identity() -> (a: AdapterIdentity)
    ensures
        a.name@ == "terminal-interop-kgp"@,
        a.version@ == ADAPTER_VERSION@,
{
    AdapterIdentity {
        name: String::from_str("terminal-interop-kgp"),
        version: String::from_str(ADAPTER_VERSION),
    }
}

/// The one-pixel direct-RGB KGP query for image id `id`, followed by a DA1 ordering barrier.
pub open spec fn query_bytes(id: u32) -> Seq<u8> {
    ascii_bytes("\x1b_Gi="@) + ascii_bytes(decimal_chars(id as nat)) + ascii_bytes(
        ",s=1,v=1,a=q,t=d,f=24;AAAA\x1b\\"@,
    ) + ascii_bytes("\x1b[c"@)
}

/// Build the official one-pixel KGP query followed by a DA1 ordering barrier.
pub fn build_query(correlation_id: u32) -> (r: Result<Vec<u8>, ProbeBuildError>)
    ensures
        match r {
            Ok(q) => correlation_id != 0 && q@ == query_bytes(correlation_id),
            Err(e) => correlation_id == 0 && e == ProbeBuildError::ZeroCorrelationId,
        },
{
    if correlation_id == 0 {
        return Err(ProbeBuildError::ZeroCorrelationId);
    }
    let mut request: Vec<u8> = Vec::new();
    push_ascii(&mut request, "\x1b_Gi=");
    let digits = decimal_bytes(correlation_id as u64);
    let mut i: usize = 0;
    let ghost start = request@;
    while i < digits.len()
        invariant
            i <= digits@.len(),
            request@ == start + digits@.take(i as int),
        decreases digits@.len() - i,
    {
        request.push(digits[i]);
        assert(digits@.take(i + 1) == digits@.take(i as int).push(digits@[i as int]));
        i = i + 1;
    }
    assert(digits@.take(digits@.len() as int) =~= digits@);
    push_ascii(&mut request, ",s=1,v=1,a=q,t=d,f=24;AAAA\x1b\\");
    push_ascii(&mut request, "\x1b[c");
    Ok(request)
}

// ---------------------------------------------------------------------------------------------
// Wire grammar
// ---------------------------------------------------------------------------------------------
/// Position of the first string terminator `ESC \` starting at or after `from`.
pub open spec fn find_st_spec(input: Seq<u8>, from: int) -> Option<int>
    decreases input.len() - from,
{
    if from < 0 || from + 1 >= input.len() {
        None
    } else if input[from] == 27 && input[from + 1] == 92 {
        Some(from)
    } else {
        find_st_spec(input, from + 1)
    }
}

/// Position of the first CSI final byte (`0x40..=0x7e`) at or after `from`.
pub open spec fn csi_final_spec(input: Seq<u8>, from: int) -> Option<int>
    decreases input.len() - from,
{
    if from < 0 || from >= input.len() {
        None
    } else if 64 <= input[from] <= 126 {
        Some(from)
    } else {
        csi_final_spec(input, from + 1)
    }
}

/// Position of the terminator of a KGP reply `ESC _ G ... ESC \` that starts at `offset`.
pub open spec fn apc_st(input: Seq<u8>, offset: int) -> Option<int> {
    if offset < 0 || offset + 3 > input.len() {
        None
    } else if input[offset] != 27 || input[offset + 1] != 95 || input[offset + 2] != 71 {
        None
    } else {
        find_st_spec(input, offset + 3)
    }
}

/// Position of the final `c` of a CSI reply `ESC [ ... c` that starts at `offset`, taken as the
/// DA1 barrier reply.
pub open spec fn barrier_final(input: Seq<u8>, offset: int) -> Option<int> {
    if offset < 0 || offset + 2 > input.len() {
        None
    } else if input[offset] != 27 || input[offset + 1] != 91 {
        None
    } else {
        match csi_final_spec(input, offset + 2) {
            Some(f) => if input[f] == 99 {
                Some(f)
            } else {
                None
            },
            None => None,
        }
    }
}

/// The extent of one recognized event: `input[start..end]`, a KGP reply or a barrier reply.
pub struct KgpSpan {
    pub start: int,
    pub end: int,
    pub reply: bool,
}

/// The event recognized at `offset`, a KGP reply taking precedence over a barrier reply.
pub open spec fn kgp_span_at(input: Seq<u8>, offset: int) -> Option<KgpSpan> {
    match apc_st(input, offset) {
        Some(st) => Some(KgpSpan { start: offset, end: st + 2, reply: true }),
        None => match barrier_final(input, offset) {
            Some(f) => Some(KgpSpan { start: offset, end: f + 1, reply: false }),
            None => None,
        },
    }
}

/// Events recognized by scanning from `from`: a recognized event is taken whole, otherwise the
/// scan moves one byte on.
pub open spec fn kgp_spans(input: Seq<u8>, from: nat) -> Seq<KgpSpan>
    decreases input.len() - from,
{
    if from >= input.len() {
        Seq::empty()
    } else {
        match kgp_span_at(input, from as int) {
            Some(span) => if from < span.end <= input.len() {
                seq![span] + kgp_spans(input, span.end as nat)
            } else {
                Seq::empty()
            },
            None => kgp_spans(input, from + 1),
        }
    }
}

/// Bytes between `ESC _ G` and `ESC \` of a reply.
pub open spec fn reply_body(input: Seq<u8>, span: KgpSpan) -> Seq<u8> {
    input.subrange(span.start + 3, span.end - 2)
}

/// The control data of a reply: its body up to the first `;`.
pub open spec fn reply_control(input: Seq<u8>, span: KgpSpan) -> Seq<u8> {
    let body = reply_body(input, span);
    match first_index(body, 59, 0) {
        Some(k) => body.subrange(0, k),
        None => body,
    }
}

/// The status of a reply: its body after the first `;`, when there is one.
pub open spec fn reply_status(input: Seq<u8>, span: KgpSpan) -> Option<Seq<u8>> {
    let body = reply_body(input, span);
    match first_index(body, 59, 0) {
        Some(k) => Some(body.subrange(k + 1, body.len() as int)),
        None => None,
    }
}

/// A `key=value` control field: split at the first `=`, with a non-empty key.
pub open spec fn piece_entry(piece: Seq<u8>) -> Option<(Seq<u8>, Seq<u8>)> {
    match first_index(piece, 61, 0) {
        Some(q) => if q > 0 {
            Some((piece.subrange(0, q), piece.subrange(q + 1, piece.len() as int)))
        } else {
            None
        },
        None => None,
    }
}

/// The control fields as text, a later field replacing an earlier one with the same key.
pub open spec fn entries_map(pieces: Seq<Seq<u8>>) -> Map<Seq<char>, Seq<char>>
    decreases pieces.len(),
{
    if pieces.len() == 0 {
        Map::empty()
    } else {
        let previous = entries_map(pieces.drop_last());
        match piece_entry(pieces.last()) {
            Some((key, value)) => previous.insert(utf8_lossy(key), utf8_lossy(value)),
            None => previous,
        }
    }
}

/// The value of the last `i=` control field.
pub open spec fn correlation_value(pieces: Seq<Seq<u8>>) -> Option<Seq<u8>>
    decreases pieces.len(),
{
    if pieces.len() == 0 {
        None
    } else {
        match piece_entry(pieces.last()) {
            Some((key, value)) => if key == seq![105u8] {
                Some(value)
            } else {
                correlation_value(pieces.drop_last())
            },
            None => correlation_value(pieces.drop_last()),
        }
    }
}

/// Image id a reply carries: its `i` control field as an unsigned 32-bit decimal.
pub open spec fn reply_correlation(input: Seq<u8>, span: KgpSpan) -> Option<u32> {
    match correlation_value(split_on(reply_control(input, span), 44)) {
        Some(value) => if unsigned_accepts(value, u32::MAX as nat) {
            Some(unsigned_value(value) as u32)
        } else {
            None
        },
        None => None,
    }
}

/// The status of a reply is exactly `OK`.
pub open spec fn reply_status_ok(input: Seq<u8>, span: KgpSpan) -> bool {
    reply_status(input, span) == Some(seq![79u8, 75u8])
}

/// `e` is the wire event, numbered `sequence`, for the recognized `span`.
pub open spec fn kgp_event_matches(input: Seq<u8>, span: KgpSpan, sequence: u32, e: WireEvent) -> bool {
    &&& e.sequence == sequence
    &&& e.raw_base64@ == base64_encoding(Base64Profile::Standard, input.subrange(span.start, span.end))
    &&& base64_decoding(Base64Profile::Standard, e.raw_base64@) == Some(
        input.subrange(span.start, span.end),
    )
    &&& if span.reply {
        &&& e.role == WireEventRole::CapabilityReply
        &&& (e.protocol matches Some(p) && is_kgp_protocol(p))
        &&& match reply_correlation(input, span) {
            Some(c) => e.correlation matches Some(t) && t@ == decimal_chars(c as nat),
            None => e.correlation is None,
        }
        &&& match reply_status(input, span) {
            Some(st) => e.status matches Some(t) && t@ == utf8_lossy(st),
            None => e.status is None,
        }
        &&& keys_sorted(e.fields@)
        &&& field_map(e.fields@) == entries_map(split_on(reply_control(input, span), 44))
    } else {
        &&& e.role == WireEventRole::BarrierReply
        &&& e.protocol is None
        &&& e.correlation is None
        &&& e.status is None
        &&& e.fields@.len() == 1
        &&& e.fields@[0].key@ == "parameters"@
        &&& e.fields@[0].value@ == utf8_lossy(input.subrange(span.start + 2, span.end - 1))
    }
}

// ---------------------------------------------------------------------------------------------
// Assessment
// ---------------------------------------------------------------------------------------------
/// Position of the first reply at or after `from` that carries image id `id`.
pub open spec fn first_matching_reply(input: Seq<u8>, spans: Seq<KgpSpan>, id: u32, from: nat) -> Option<
    nat,
>
    decreases spans.len() - from,
{
    if from >= spans.len() {
        None
    } else if spans[from as int].reply && reply_correlation(input, spans[from as int]) == Some(id) {
        Some(from)
    } else {
        first_matching_reply(input, spans, id, from + 1)
    }
}

/// Position of the first reply at or after `from`.
pub open spec fn first_reply(spans: Seq<KgpSpan>, from: nat) -> Option<nat>
    decreases spans.len() - from,
{
    if from >= spans.len() {
        None
    } else if spans[from as int].reply {
        Some(from)
    } else {
        first_reply(spans, from + 1)
    }
}

/// Position of the first barrier reply at or after `from`.
pub open spec fn first_barrier(spans: Seq<KgpSpan>, from: nat) -> Option<nat>
    decreases spans.len() - from,
{
    if from >= spans.len() {
        None
    } else if !spans[from as int].reply {
        Some(from)
    } else {
        first_barrier(spans, from + 1)
    }
}

/// `Option<u32>` as its `Debug` rendering.
pub open spec fn debug_option_u32(value: Option<u32>) -> Seq<char> {
    match value {
        Some(v) => "Some("@ + decimal_chars(v as nat) + ")"@,
        None => "None"@,
    }
}

/// Assessment of a correlated reply at span `m`, with the first barrier `b` if any.
pub open spec fn matching_assessment(
    input: Seq<u8>,
    spans: Seq<KgpSpan>,
    m: nat,
    b: Option<nat>,
    id: u32,
) -> (Availability, Conformance, Seq<AssertionView>) {
    let reply = spans[m as int];
    let status_ok = reply_status_ok(input, reply);
    let ordered = match b {
        None => true,
        Some(k) => reply.start < spans[k as int].start,
    };
    let assertions = seq![
        av("kgp.query.correlated-reply"@, AssertionOutcome::Pass, "received reply for image id "@ + decimal_chars(id as nat)),
        av(
            "kgp.query.reply-before-da1-barrier"@,
            if b is None {
                AssertionOutcome::Unknown
            } else if ordered {
                AssertionOutcome::Pass
            } else {
                AssertionOutcome::Fail
            },
            if b is None {
                "DA1 barrier was not observed"@
            } else if ordered {
                "KGP reply preceded the DA1 barrier"@
            } else {
                "KGP reply arrived after the DA1 barrier"@
            },
        ),
        av(
            "kgp.query.direct-rgb-load"@,
            if status_ok {
                AssertionOutcome::Pass
            } else {
                AssertionOutcome::Fail
            },
            match reply_status(input, reply) {
                None => "KGP reply did not contain a status"@,
                Some(st) => "KGP status was "@ + utf8_lossy(st),
            },
        ),
        av(
            "kgp.query.da1-barrier"@,
            if b is Some {
                AssertionOutcome::Pass
            } else {
                AssertionOutcome::Unknown
            },
            if b is Some {
                "DA1 barrier reply was observed"@
            } else {
                "DA1 barrier reply was not observed"@
            },
        ),
    ];
    let conformance = if b is None {
        Conformance::Inconclusive
    } else if status_ok && ordered {
        Conformance::Conformant
    } else {
        Conformance::Nonconformant
    };
    (Availability::Available, conformance, assertions)
}

/// The assessment the query profile derives from the recognized events.
pub open spec fn kgp_assessment(input: Seq<u8>, id: u32) -> (
    Availability,
    Conformance,
    Seq<AssertionView>,
) {
    let spans = kgp_spans(input, 0);
    let barrier = first_barrier(spans, 0);
    match first_matching_reply(input, spans, id, 0) {
        Some(m) => matching_assessment(input, spans, m, barrier, id),
        None => match first_reply(spans, 0) {
            Some(u) => (
                Availability::Available,
                Conformance::Nonconformant,
                seq![
                    av(
                        "kgp.query.correlated-reply"@,
                        AssertionOutcome::Fail,
                        "received KGP reply for "@ + debug_option_u32(
                            reply_correlation(input, spans[u as int]),
                        ) + ", expected "@ + decimal_chars(id as nat),
                    ),
                    av(
                        "kgp.query.da1-barrier"@,
                        if barrier is Some {
                            AssertionOutcome::Pass
                        } else {
                            AssertionOutcome::Unknown
                        },
                        "barrier state retained independently of the malformed correlation"@,
                    ),
                ],
            ),
            None => if barrier is Some {
                (
                    Availability::Unavailable,
                    Conformance::NotApplicable,
                    seq![
                        av("kgp.query.correlated-reply"@, AssertionOutcome::NotApplicable, "DA1 barrier arrived without a KGP reply"@),
                        av("kgp.query.da1-barrier"@, AssertionOutcome::Pass, "DA1 barrier established the end of the ordered query window"@),
                    ],
                )
            } else {
                (
                    Availability::Unknown,
                    Conformance::Inconclusive,
                    seq![
                        av("kgp.query.correlated-reply"@, AssertionOutcome::Unknown, "no correlated KGP reply was observed"@),
                        av("kgp.query.da1-barrier"@, AssertionOutcome::Unknown, "no DA1 barrier reply was observed"@),
                    ],
                )
            },
        },
    }
}

/// `a` is the assessment the query profile derives for image id `id` from `input`.
pub open spec fn kgp_assessment_matches(input: Seq<u8>, id: u32, a: Assessment) -> bool {
    let (availability, conformance, assertions) = kgp_assessment(input, id);
    &&& a.availability == availability
    &&& a.conformance == conformance
    &&& a.assertions@.map_values(|x: AssertionResult| assertion_view(x)) == assertions
}

// ---------------------------------------------------------------------------------------------
// Parsing
// ---------------------------------------------------------------------------------------------
struct ObservedEvent {
    offset: usize,
    end: usize,
    reply: bool,
    correlation_id: Option<u32>,
    status_ok: bool,
    event: WireEvent,
}

spec fn observed_matches(input: Seq<u8>, span: KgpSpan, sequence: u32, o: ObservedEvent) -> bool {
    &&& o.offset == span.start
    &&& o.end == span.end
    &&& o.reply == span.reply
    &&& (span.reply ==> o.correlation_id == reply_correlation(input, span) && o.status_ok
        == reply_status_ok(input, span))
    &&& (!span.reply ==> o.correlation_id is None)
    &&& kgp_event_matches(input, span, sequence, o.event)
}

proof fn lemma_find_st_bounds(input: Seq<u8>, from: int)
    ensures
        find_st_spec(input, from) matches Some(p) ==> from <= p && p + 1 < input.len()
            && input[p] == 27 && input[p + 1] == 92,
    decreases input.len() - from,
{
    if 0 <= from && from + 1 < input.len() && !(input[from] == 27 && input[from + 1] == 92) {
        lemma_find_st_bounds(input, from + 1);
    }
}

proof fn lemma_csi_final_bounds(input: Seq<u8>, from: int)
    ensures
        csi_final_spec(input, from) matches Some(p) ==> from <= p < input.len(),
    decreases input.len() - from,
{
    if 0 <= from < input.len() && !(64 <= input[from] <= 126) {
        lemma_csi_final_bounds(input, from + 1);
    }
}

fn find_st(input: &[u8], from: usize) -> (r: Option<usize>)
    ensures
        match r {
            Some(p) => find_st_spec(input@, from as int) == Some(p as int),
            None => find_st_spec(input@, from as int) is None,
        },
{
    let mut p = from;
    while p < input.len() && input.len() - p >= 2
        invariant
            from <= p,
            find_st_spec(input@, from as int) == find_st_spec(input@, p as int),
        decreases input@.len() - p,
    {
        if input[p] == 27u8 && input[p + 1] == 92u8 {
            return Some(p);
        }
        p = p + 1;
    }
    None
}

fn csi_final(input: &[u8], from: usize) -> (r: Option<usize>)
    ensures
        match r {
            Some(p) => csi_final_spec(input@, from as int) == Some(p as int),
            None => csi_final_spec(input@, from as int) is None,
        },
{
    let mut p = from;
    while p < input.len()
        invariant
            from <= p,
            csi_final_spec(input@, from as int) == csi_final_spec(input@, p as int),
        decreases input@.len() - p,
    {
        if input[p] >= 64u8 && input[p] <= 126u8 {
            return Some(p);
        }
        p = p + 1;
    }
    None
}

fn lossy_range(input: &[u8], start: usize, end: usize) -> (s: String)
    requires
        start <= end <= input@.len(),
    ensures
        s@ == utf8_lossy(input@.subrange(start as int, end as int)),
{
    let bytes = copy_range(input, start, end);
    utf8_lossy_string(bytes.as_slice())
}

/// The correlation a control field list yields: the last `i=` value as a 32-bit decimal.
spec fn control_correlation(control: Seq<u8>) -> Option<u32> {
    match correlation_value(split_on(control, 44)) {
        Some(value) => if unsigned_accepts(value, u32::MAX as nat) {
            Some(unsigned_value(value) as u32)
        } else {
            None
        },
        None => None,
    }
}

fn parse_control_fields(input: &[u8], start: usize, end: usize) -> (r: (Vec<EventField>, Option<u32>))
    requires
        start <= end <= input@.len(),
    ensures
        keys_sorted(r.0@),
        field_map(r.0@) == entries_map(split_on(input@.subrange(start as int, end as int), 44)),
        r.1 == control_correlation(input@.subrange(start as int, end as int)),
{
    let ghost control = input@.subrange(start as int, end as int);
    let mut fields: Vec<EventField> = Vec::new();
    let mut last_i: Option<(usize, usize)> = None;
    let mut piece_start = start;
    proof {
        assert(control.take(0) =~= Seq::<u8>::empty());
        assert(split_on(control.take(0), 44).drop_last() =~= Seq::<Seq<u8>>::empty());
    }
    loop
        invariant
            start <= piece_start <= end <= input@.len(),
            control == input@.subrange(start as int, end as int),
            piece_start == start || control[piece_start - start - 1] == 44,
            keys_sorted(fields@),
            field_map(fields@) == entries_map(
                split_on(control.take(piece_start - start), 44).drop_last(),
            ),
            match last_i {
                Some((a, b)) => start <= a <= b <= end && correlation_value(
                    split_on(control.take(piece_start - start), 44).drop_last(),
                ) == Some(input@.subrange(a as int, b as int)),
                None => correlation_value(
                    split_on(control.take(piece_start - start), 44).drop_last(),
                ) is None,
            },
        decreases end - piece_start,
    {
        let j = find_byte(input, piece_start, end, 44u8);
        let ghost k = piece_start - start;
        let ghost m = j - start;
        let ghost done = split_on(control.take(k), 44).drop_last();
        let ghost piece = control.subrange(k, m);
        proof {
            assert(piece =~= input@.subrange(piece_start as int, j as int));
            lemma_split_on_piece(control, 44, k, m);
            assert(split_on(control.take(m), 44) == done.push(piece));
            assert(done.push(piece).drop_last() =~= done);
            assert(done.push(piece).last() == piece);
        }
        let q = find_byte(input, piece_start, j, 61u8);
        proof {
            lemma_find_byte_first(input@, piece_start as int, j as int, 61u8, q as int);
        }
        if q < j && q > piece_start {
            let key = lossy_range(input, piece_start, q);
            let value = lossy_range(input, q + 1, j);
            proof {
                assert(piece.subrange(0, q - piece_start) =~= input@.subrange(
                    piece_start as int,
                    q as int,
                ));
                assert(piece.subrange(q - piece_start + 1, piece.len() as int) =~= input@.subrange(
                    q + 1,
                    j as int,
                ));
            }
            if q == piece_start + 1 && input[piece_start] == 105u8 {
                proof {
                    assert(input@.subrange(piece_start as int, q as int) =~= seq![105u8]);
                }
                last_i = Some((q + 1, j));
            } else {
                proof {
                    if input@.subrange(piece_start as int, q as int) == seq![105u8] {
                        assert(input@.subrange(piece_start as int, q as int).len() == 1);
                        assert(input@[piece_start as int] == input@.subrange(
                            piece_start as int,
                            q as int,
                        )[0]);
                    }
                }
            }
            insert_field(&mut fields, key, value);
        }
        if j == end {
            proof {
                assert(control.take(m) =~= control);
            }
            let correlation = match last_i {
                Some((a, b)) => parse_unsigned(input, a, b, u32::MAX as u64),
                None => None,
            };
            let id: Option<u32> = match correlation {
                Some(v) => Some(v as u32),
                None => None,
            };
            return (fields, id);
        }
        proof {
            lemma_split_on_separator(control.take(m), 44);
            assert(control.take(m + 1) =~= control.take(m).push(44));
            assert(split_on(control.take(m + 1), 44).drop_last() =~= split_on(control.take(m), 44));
        }
        piece_start = j + 1;
    }
}

/// Parses a KGP reply `ESC _ G control ; status ESC \` at `offset`.
fn parse_apc_event(input: &[u8], offset: usize, sequence: u32) -> (r: Option<(ObservedEvent, usize)>)
    ensures
        match r {
            Some((o, next)) => apc_st(input@, offset as int) matches Some(st) && next == st + 2
                && observed_matches(
                input@,
                KgpSpan { start: offset as int, end: st + 2, reply: true },
                sequence,
                o,
            ),
            None => apc_st(input@, offset as int) is None,
        },
{
    if offset > input.len() || input.len() - offset < 3 {
        return None;
    }
    if input[offset] != 27u8 || input[offset + 1] != 95u8 || input[offset + 2] != 71u8 {
        return None;
    }
    let prefix_end = offset + 3;
    let st = match find_st(input, prefix_end) {
        Some(st) => st,
        None => {
            return None;
        },
    };
    proof {
        lemma_find_st_bounds(input@, prefix_end as int);
    }
    let ghost span = KgpSpan { start: offset as int, end: st + 2, reply: true };
    let ghost body = reply_body(input@, span);
    assert(body =~= input@.subrange(prefix_end as int, st as int));
    let separator = find_byte(input, prefix_end, st, 59u8);
    proof {
        lemma_find_byte_first(input@, prefix_end as int, st as int, 59u8, separator as int);
        assert(body.subrange(0, separator - prefix_end) =~= input@.subrange(
            prefix_end as int,
            separator as int,
        ));
        if separator < st {
            assert(body.subrange(separator - prefix_end + 1, body.len() as int) =~= input@.subrange(
                separator + 1,
                st as int,
            ));
        }
    }
    let (fields, correlation_id) = parse_control_fields(input, prefix_end, separator);
    let status = if separator < st {
        Some(lossy_range(input, separator + 1, st))
    } else {
        None
    };
    let status_ok = separator < st && st - separator == 3 && input[separator + 1] == 79u8
        && input[separator + 2] == 75u8;
    proof {
        if separator < st {
            let st_bytes = input@.subrange(separator + 1, st as int);
            if st_bytes == seq![79u8, 75u8] {
                assert(st_bytes.len() == 2);
                assert(input@[separator + 1] == st_bytes[0]);
                assert(input@[separator + 2] == st_bytes[1]);
            }
            if status_ok {
                assert(st_bytes =~= seq![79u8, 75u8]);
            }
        }
    }
    let correlation = match correlation_id {
        Some(id) => Some(decimal_string(id as u64)),
        None => None,
    };
    let raw = copy_range(input, offset, st + 2);
    let event = WireEvent {
        sequence,
        role: WireEventRole::CapabilityReply,
        protocol: Some(protocol_id()),
        correlation,
        status,
        fields,
        raw_base64: base64_encode(Base64Profile::Standard, raw.as_slice()),
    };
    Some(
        (
            ObservedEvent {
                offset,
                end: st + 2,
                reply: true,
                correlation_id,
                status_ok,
                event,
            },
            st + 2,
        ),
    )
}

/// Parses a CSI reply `ESC [ parameters c` at `offset`, taken as the DA1 barrier reply.
fn parse_da1_event(input: &[u8], offset: usize, sequence: u32) -> (r: Option<(ObservedEvent, usize)>)
    ensures
        match r {
            Some((o, next)) => barrier_final(input@, offset as int) matches Some(f) && next == f + 1
                && observed_matches(
                input@,
                KgpSpan { start: offset as int, end: f + 1, reply: false },
                sequence,
                o,
            ),
            None => barrier_final(input@, offset as int) is None,
        },
{
    if offset > input.len() || input.len() - offset < 2 {
        return None;
    }
    if input[offset] != 27u8 || input[offset + 1] != 91u8 {
        return None;
    }
    let f = match csi_final(input, offset + 2) {
        Some(f) => f,
        None => {
            return None;
        },
    };
    proof {
        lemma_csi_final_bounds(input@, offset + 2);
    }
    if input[f] != 99u8 {
        return None;
    }
    let mut fields: Vec<EventField> = Vec::new();
    fields.push(
        EventField {
            key: String::from_str("parameters"),
            value: lossy_range(input, offset + 2, f),
        },
    );
    let raw = copy_range(input, offset, f + 1);
    let event = WireEvent {
        sequence,
        role: WireEventRole::BarrierReply,
        protocol: None,
        correlation: None,
        status: None,
        fields,
        raw_base64: base64_encode(Base64Profile::Standard, raw.as_slice()),
    };
    Some(
        (
            ObservedEvent {
                offset,
                end: f + 1,
                reply: false,
                correlation_id: None,
                status_ok: false,
                event,
            },
            f + 1,
        ),
    )
}

fn scan_events(input: &[u8]) -> (r: Vec<ObservedEvent>)
    ensures
        r@.len() == kgp_spans(input@, 0).len(),
        forall|i: int|
            0 <= i < r@.len() ==> observed_matches(
                input@,
                kgp_spans(input@, 0)[i],
                expected_sequence(i as nat),
                #[trigger] r@[i],
            ),
{
    let mut observed: Vec<ObservedEvent> = Vec::new();
    let ghost mut done: Seq<KgpSpan> = Seq::empty();
    let mut offset: usize = 0;
    let mut sequence: u32 = 0;
    while offset < input.len()
        invariant
            offset <= input@.len(),
            kgp_spans(input@, 0) == done + kgp_spans(input@, offset as nat),
            observed@.len() == done.len(),
            sequence == expected_sequence(observed@.len()),
            forall|i: int|
                0 <= i < observed@.len() ==> observed_matches(
                    input@,
                    done[i],
                    expected_sequence(i as nat),
                    #[trigger] observed@[i],
                ),
        decreases input@.len() - offset,
    {
        let found = match parse_apc_event(input, offset, sequence) {
            Some(found) => Some(found),
            None => parse_da1_event(input, offset, sequence),
        };
        match found {
            Some((event, next)) => {
                proof {
                    lemma_find_st_bounds(input@, offset + 3);
                    lemma_csi_final_bounds(input@, offset + 2);
                    let span = kgp_span_at(input@, offset as int).unwrap();
                    assert(span.end == next);
                    assert(done + kgp_spans(input@, offset as nat) =~= done.push(span)
                        + kgp_spans(input@, next as nat));
                    done = done.push(span);
                }
                offset = next;
                observed.push(event);
                sequence = if sequence < u32::MAX {
                    sequence + 1
                } else {
                    sequence
                };
            },
            None => {
                offset = offset + 1;
            },
        }
    }
    assert(done + kgp_spans(input@, offset as nat) =~= done);
    observed
}

fn assertion(id: &str, outcome: AssertionOutcome, detail: String) -> (a: AssertionResult)
    ensures
        assertion_view(a) == av(id@, outcome, detail@),
{
    AssertionResult { id: String::from_str(id), outcome, detail }
}

fn text(s: &str) -> (r: String)
    ensures
        r@ == s@,
{
    String::from_str(s)
}

fn debug_option_text(value: Option<u32>) -> (s: String)
    ensures
        s@ == debug_option_u32(value),
{
    match value {
        Some(v) => {
            let mut s = text("Some(");
            let digits = decimal_string(v as u64);
            s.append(digits.as_str());
            s.append(")");
            s
        },
        None => text("None"),
    }
}

fn assess_matching_reply(
    reply: &ObservedEvent,
    barrier: Option<&ObservedEvent>,
    correlation_id: u32,
    Ghost(input): Ghost<Seq<u8>>,
    Ghost(spans): Ghost<Seq<KgpSpan>>,
    Ghost(m): Ghost<nat>,
    Ghost(b): Ghost<Option<nat>>,
) -> (a: Assessment)
    requires
        m < spans.len(),
        spans[m as int].reply,
        observed_matches(input, spans[m as int], reply.event.sequence, *reply),
        match b {
            Some(k) => k < spans.len() && (barrier matches Some(o) && o.offset == spans[k as int].start),
            None => barrier is None,
        },
    ensures
        (a.availability, a.conformance, a.assertions@.map_values(
            |x: AssertionResult| assertion_view(x),
        )) == matching_assessment(input, spans, m, b, correlation_id),
{
    let status_ok = reply.status_ok;
    let ordered = match barrier {
        None => true,
        Some(o) => reply.offset < o.offset,
    };
    let mut assertions: Vec<AssertionResult> = Vec::new();
    let mut detail = text("received reply for image id ");
    let digits = decimal_string(correlation_id as u64);
    detail.append(digits.as_str());
    assertions.push(assertion("kgp.query.correlated-reply", AssertionOutcome::Pass, detail));
    let (outcome, detail) = if barrier.is_none() {
        (AssertionOutcome::Unknown, text("DA1 barrier was not observed"))
    } else if ordered {
        (AssertionOutcome::Pass, text("KGP reply preceded the DA1 barrier"))
    } else {
        (AssertionOutcome::Fail, text("KGP reply arrived after the DA1 barrier"))
    };
    assertions.push(assertion("kgp.query.reply-before-da1-barrier", outcome, detail));
    let detail = match &reply.event.status {
        None => text("KGP reply did not contain a status"),
        Some(status) => joined("KGP status was ", status.as_str()),
    };
    let outcome = if status_ok {
        AssertionOutcome::Pass
    } else {
        AssertionOutcome::Fail
    };
    assertions.push(assertion("kgp.query.direct-rgb-load", outcome, detail));
    let (outcome, detail) = if barrier.is_some() {
        (AssertionOutcome::Pass, text("DA1 barrier reply was observed"))
    } else {
        (AssertionOutcome::Unknown, text("DA1 barrier reply was not observed"))
    };
    assertions.push(assertion("kgp.query.da1-barrier", outcome, detail));
    let conformance = if barrier.is_none() {
        Conformance::Inconclusive
    } else if status_ok && ordered {
        Conformance::Conformant
    } else {
        Conformance::Nonconformant
    };
    let a = Assessment { availability: Availability::Available, conformance, assertions };
    assert(a.assertions@.map_values(|x: AssertionResult| assertion_view(x))
        =~= matching_assessment(input, spans, m, b, correlation_id).2);
    a
}

proof fn lemma_first_positions(input: Seq<u8>, spans: Seq<KgpSpan>, id: u32, from: nat)
    ensures
        first_matching_reply(input, spans, id, from) matches Some(k) ==> from <= k < spans.len()
            && spans[k as int].reply && reply_correlation(input, spans[k as int]) == Some(id),
        first_reply(spans, from) matches Some(k) ==> from <= k < spans.len()
            && spans[k as int].reply,
        first_barrier(spans, from) matches Some(k) ==> from <= k < spans.len()
            && !spans[k as int].reply,
    decreases spans.len() - from,
{
    if from < spans.len() {
        lemma_first_positions(input, spans, id, from + 1);
    }
}

proof fn lemma_matching_reply_is_reply(input: Seq<u8>, spans: Seq<KgpSpan>, id: u32, from: nat)
    ensures
        first_matching_reply(input, spans, id, from) is Some ==> first_reply(spans, from) is Some,
    decreases spans.len() - from,
{
    if from < spans.len() && !spans[from as int].reply {
        lemma_matching_reply_is_reply(input, spans, id, from + 1);
    }
}

/// Silence is never support: the capability is available exactly when a KGP reply was seen,
/// unavailable exactly when the DA1 barrier arrived without any reply, and unknown otherwise;
/// the exchange is conformant only when the correlated reply reported `OK` before the barrier.
pub proof fn lemma_kgp_availability(input: Seq<u8>, id: u32)
    ensures
        (kgp_assessment(input, id).0 == Availability::Available) == (first_reply(
            kgp_spans(input, 0),
            0,
        ) is Some),
        (kgp_assessment(input, id).0 == Availability::Unavailable) == (first_reply(
            kgp_spans(input, 0),
            0,
        ) is None && first_barrier(kgp_spans(input, 0), 0) is Some),
        (kgp_assessment(input, id).0 == Availability::Unknown) == (first_reply(
            kgp_spans(input, 0),
            0,
        ) is None && first_barrier(kgp_spans(input, 0), 0) is None),
        kgp_assessment(input, id).1 == Conformance::Conformant ==> {
            &&& first_matching_reply(input, kgp_spans(input, 0), id, 0) matches Some(m)
            &&& first_barrier(kgp_spans(input, 0), 0) matches Some(b)
            &&& reply_status_ok(input, kgp_spans(input, 0)[m as int])
            &&& kgp_spans(input, 0)[m as int].start < kgp_spans(input, 0)[b as int].start
        },
{
    lemma_matching_reply_is_reply(input, kgp_spans(input, 0), id, 0);
}

/// Timeout and nonconformance are distinct states: once the correlated reply was seen, the
/// exchange is inconclusive exactly when no DA1 barrier arrived; nonconformant exactly when the
/// barrier arrived and the reply either did not report `OK` or came after the barrier; and
/// conformant exactly when the reply reported `OK` before the barrier.
pub proof fn lemma_kgp_conformance(input: Seq<u8>, id: u32)
    ensures
        first_matching_reply(input, kgp_spans(input, 0), id, 0) is Some ==> {
            &&& (kgp_assessment(input, id).1 == Conformance::Inconclusive) == (first_barrier(
                kgp_spans(input, 0),
                0,
            ) is None)
            &&& (kgp_assessment(input, id).1 == Conformance::Nonconformant) == (first_barrier(
                kgp_spans(input, 0),
                0,
            ) matches Some(b) && first_matching_reply(input, kgp_spans(input, 0), id, 0) matches Some(
                m,
            ) && !(reply_status_ok(input, kgp_spans(input, 0)[m as int]) && kgp_spans(
                input,
                0,
            )[m as int].start < kgp_spans(input, 0)[b as int].start))
            &&& (kgp_assessment(input, id).1 == Conformance::Conformant) == (first_barrier(
                kgp_spans(input, 0),
                0,
            ) matches Some(b) && first_matching_reply(input, kgp_spans(input, 0), id, 0) matches Some(
                m,
            ) && reply_status_ok(input, kgp_spans(input, 0)[m as int]) && kgp_spans(input, 0)[m as int].start
                < kgp_spans(input, 0)[b as int].start)
        },
{
}

fn assess(input: &[u8], observed: &Vec<ObservedEvent>, correlation_id: u32) -> (a: Assessment)
    requires
        observed@.len() == kgp_spans(input@, 0).len(),
        forall|i: int|
            0 <= i < observed@.len() ==> observed_matches(
                input@,
                kgp_spans(input@, 0)[i],
                expected_sequence(i as nat),
                #[trigger] observed@[i],
            ),
    ensures
        kgp_assessment_matches(input@, correlation_id, a),
{
    let ghost spans = kgp_spans(input@, 0);
    let mut matching: Option<usize> = None;
    let mut first_kgp: Option<usize> = None;
    let mut barrier: Option<usize> = None;
    let mut i: usize = 0;
    while i < observed.len()
        invariant
            i <= observed@.len() == spans.len(),
            spans == kgp_spans(input@, 0),
            forall|j: int|
                0 <= j < observed@.len() ==> observed_matches(
                    input@,
                    spans[j],
                    expected_sequence(j as nat),
                    #[trigger] observed@[j],
                ),
            match matching {
                Some(k) => k < i && first_matching_reply(input@, spans, correlation_id, 0) == Some(
                    k as nat,
                ),
                None => first_matching_reply(input@, spans, correlation_id, 0)
                    == first_matching_reply(input@, spans, correlation_id, i as nat),
            },
            match first_kgp {
                Some(k) => k < i && first_reply(spans, 0) == Some(k as nat),
                None => first_reply(spans, 0) == first_reply(spans, i as nat),
            },
            match barrier {
                Some(k) => k < i && first_barrier(spans, 0) == Some(k as nat),
                None => first_barrier(spans, 0) == first_barrier(spans, i as nat),
            },
        decreases observed@.len() - i,
    {
        let o = &observed[i];
        assert(observed_matches(input@, spans[i as int], expected_sequence(i as nat), *o));
        if o.reply {
            if matching.is_none() && o.correlation_id == Some(correlation_id) {
                matching = Some(i);
            }
            if first_kgp.is_none() {
                first_kgp = Some(i);
            }
        } else if barrier.is_none() {
            barrier = Some(i);
        }
        i = i + 1;
    }
    let barrier_event: Option<&ObservedEvent> = match barrier {
        Some(k) => Some(&observed[k]),
        None => None,
    };
    let ghost b: Option<nat> = match barrier {
        Some(k) => Some(k as nat),
        None => None,
    };
    proof {
        lemma_first_positions(input@, spans, correlation_id, 0);
        if barrier is Some {
            let kb = barrier.unwrap() as int;
            assert(observed_matches(input@, spans[kb], expected_sequence(kb as nat), observed@[kb]));
        }
    }
    if let Some(k) = matching {
        proof {
            assert(observed_matches(input@, spans[k as int], expected_sequence(k as nat), observed@[k as int]));
        }
        let a = assess_matching_reply(
            &observed[k],
            barrier_event,
            correlation_id,
            Ghost(input@),
            Ghost(spans),
            Ghost(k as nat),
            Ghost(b),
        );
        return a;
    }
    if let Some(k) = first_kgp {
        proof {
            assert(observed_matches(input@, spans[k as int], expected_sequence(k as nat), observed@[k as int]));
        }
        let mut assertions: Vec<AssertionResult> = Vec::new();
        let mut detail = text("received KGP reply for ");
        let rendered = debug_option_text(observed[k].correlation_id);
        detail.append(rendered.as_str());
        detail.append(", expected ");
        let digits = decimal_string(correlation_id as u64);
        detail.append(digits.as_str());
        assertions.push(assertion("kgp.query.correlated-reply", AssertionOutcome::Fail, detail));
        let outcome = if barrier.is_some() {
            AssertionOutcome::Pass
        } else {
            AssertionOutcome::Unknown
        };
        assertions.push(
            assertion(
                "kgp.query.da1-barrier",
                outcome,
                text("barrier state retained independently of the malformed correlation"),
            ),
        );
        let a = Assessment {
            availability: Availability::Available,
            conformance: Conformance::Nonconformant,
            assertions,
        };
        assert(a.assertions@.map_values(|x: AssertionResult| assertion_view(x))
            =~= kgp_assessment(input@, correlation_id).2);
        return a;
    }
    if barrier.is_some() {
        let mut assertions: Vec<AssertionResult> = Vec::new();
        assertions.push(
            assertion(
                "kgp.query.correlated-reply",
                AssertionOutcome::NotApplicable,
                text("DA1 barrier arrived without a KGP reply"),
            ),
        );
        assertions.push(
            assertion(
                "kgp.query.da1-barrier",
                AssertionOutcome::Pass,
                text("DA1 barrier established the end of the ordered query window"),
            ),
        );
        let a = Assessment {
            availability: Availability::Unavailable,
            conformance: Conformance::NotApplicable,
            assertions,
        };
        assert(a.assertions@.map_values(|x: AssertionResult| assertion_view(x))
            =~= kgp_assessment(input@, correlation_id).2);
        return a;
    }
    let mut assertions: Vec<AssertionResult> = Vec::new();
    assertions.push(
        assertion(
            "kgp.query.correlated-reply",
            AssertionOutcome::Unknown,
            text("no correlated KGP reply was observed"),
        ),
    );
    assertions.push(
        assertion(
            "kgp.query.da1-barrier",
            AssertionOutcome::Unknown,
            text("no DA1 barrier reply was observed"),
        ),
    );
    let a = Assessment {
        availability: Availability::Unknown,
        conformance: Conformance::Inconclusive,
        assertions,
    };
    assert(a.assertions@.map_values(|x: AssertionResult| assertion_view(x))
        =~= kgp_assessment(input@, correlation_id).2);
    a
}

/// Parse KGP and DA1 replies while preserving their order and exact bytes.
///
/// Events are the replies recognized by [`kgp_spans`], numbered in wire order; the assessment
/// is [`kgp_assessment`].
pub fn parse_exchange(input: &[u8], correlation_id: u32) -> (p: ParsedExchange)
    ensures
        p.events@.len() == kgp_spans(input@, 0).len(),
        forall|i: int|
            0 <= i < p.events@.len() ==> kgp_event_matches(
                input@,
                kgp_spans(input@, 0)[i],
                expected_sequence(i as nat),
                #[trigger] p.events@[i],
            ),
        kgp_assessment_matches(input@, correlation_id, p.assessment),
        p.correlated_reply_seen == first_matching_reply(
            input@,
            kgp_spans(input@, 0),
            correlation_id,
            0,
        ) is Some,
        p.barrier_seen == first_barrier(kgp_spans(input@, 0), 0) is Some,
{
    broadcast use vstd::std_specs::vec::axiom_spec_into_iter;

    let observed = scan_events(input);
    let ghost spans = kgp_spans(input@, 0);
    let assessment = assess(input, &observed, correlation_id);
    let mut correlated_reply_seen = false;
    let mut barrier_seen = false;
    let mut i: usize = 0;
    while i < observed.len()
        invariant
            i <= observed@.len() == spans.len(),
            spans == kgp_spans(input@, 0),
            forall|j: int|
                0 <= j < observed@.len() ==> observed_matches(
                    input@,
                    spans[j],
                    expected_sequence(j as nat),
                    #[trigger] observed@[j],
                ),
            !correlated_reply_seen ==> first_matching_reply(input@, spans, correlation_id, 0)
                == first_matching_reply(input@, spans, correlation_id, i as nat),
            correlated_reply_seen ==> first_matching_reply(input@, spans, correlation_id, 0) is Some,
            !barrier_seen ==> first_barrier(spans, 0) == first_barrier(spans, i as nat),
            barrier_seen ==> first_barrier(spans, 0) is Some,
        decreases observed@.len() - i,
    {
        let o = &observed[i];
        assert(observed_matches(input@, spans[i as int], expected_sequence(i as nat), *o));
        if o.reply && o.correlation_id == Some(correlation_id) {
            correlated_reply_seen = true;
        }
        if !o.reply {
            barrier_seen = true;
        }
        i = i + 1;
    }
    let mut events: Vec<WireEvent> = Vec::new();
    let ghost all = observed@;
    for o in it: observed.into_iter()
        invariant
            it.seq() == all,
            all.len() == spans.len(),
            spans == kgp_spans(input@, 0),
            events@.len() == it.index(),
            forall|j: int|
                0 <= j < all.len() ==> observed_matches(
                    input@,
                    spans[j],
                    expected_sequence(j as nat),
                    #[trigger] all[j],
                ),
            forall|j: int| 0 <= j < events@.len() ==> #[trigger] events@[j] == all[j].event,
    {
        events.push(o.event);
    }
    assert forall|j: int| 0 <= j < events@.len() implies kgp_event_matches(
        input@,
        spans[j],
        expected_sequence(j as nat),
        #[trigger] events@[j],
    ) by {
        assert(observed_matches(input@, spans[j], expected_sequence(j as nat), all[j]));
    }
    ParsedExchange { events, assessment, correlated_reply_seen, barrier_seen }
}

} // verus!
