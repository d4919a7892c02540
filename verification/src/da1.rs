//! ANSI/DEC primary device attributes (DA1) parsing and event mapping.

use crate::codec::{ascii_chars, base64_decoding, base64_encode, base64_encoding, Base64Profile};
use crate::evidence::{keys_sorted, EventField, ProtocolId, WireEvent, WireEventRole};
use crate::text::{
    decimal_chars, decimal_string, is_digit_byte, nonempty_pieces, parse_unsigned_pieces,
    pieces_accepted, push_char, text_less, unsigned_value,
};
use vstd::prelude::*;

verus! {

/// One parsed private DA1 response with exact wire offsets.
#[derive(Clone, Debug, PartialEq, Eq)]
pub struct Da1Response {
    /// Byte offset of the response in the input stream.
    pub offset: usize,
    /// Exclusive byte offset after the response.
    pub end_offset: usize,
    /// Device level followed by advertised extension identifiers.
    pub parameters: Vec<u16>,
    /// Exact parameter text, including the DEC private marker.
    pub parameter_text: String,
    /// Exact response bytes encoded with standard Base64.
    pub raw_base64: String,
}

/// A byte allowed inside a DA1 parameter list: an ASCII digit or `;`.
pub open spec fn is_parameter_byte(b: u8) -> bool {
    is_digit_byte(b) || b == 59
}

/// Position of the `c` that ends a parameter list starting at `from`: the first byte at or
/// after `from` that is not a digit or `;`, when that byte is `c`.
pub open spec fn da1_final(input: Seq<u8>, from: int) -> Option<int>
    decreases input.len() - from,
{
    if from < 0 || from >= input.len() {
        None
    } else if is_parameter_byte(input[from]) {
        da1_final(input, from + 1)
    } else if input[from] == 99 {
        Some(from)
    } else {
        None
    }
}

/// The values of the non-empty `;`-separated pieces of a parameter list.
pub open spec fn piece_values_u16(pieces: Seq<Seq<u8>>) -> Seq<u16> {
    pieces.map_values(|piece: Seq<u8>| unsigned_value(piece) as u16)
}

/// The response that starts at `offset`, if one does: `ESC [ ?`, a parameter list of digits
/// and `;` with at least one non-empty piece and every piece at most 65535, then `c`.
/// The result is the position of the final `c` and the parameter values.
pub open spec fn da1_response_spec(input: Seq<u8>, offset: int) -> Option<(int, Seq<u16>)> {
    if offset < 0 || offset + 3 > input.len() {
        None
    } else if input[offset] != 27 || input[offset + 1] != 91 || input[offset + 2] != 63 {
        None
    } else {
        match da1_final(input, offset + 3) {
            None => None,
            Some(end) => {
                let body = input.subrange(offset + 3, end);
                if pieces_accepted(body, 59, 65535) && nonempty_pieces(body, 59).len() > 0 {
                    Some((end, piece_values_u16(nonempty_pieces(body, 59))))
                } else {
                    None
                }
            },
        }
    }
}

/// `r` is the response parsed at `offset`: its fields follow from the exact bytes.
pub open spec fn da1_response_matches(input: Seq<u8>, offset: int, r: Da1Response) -> bool {
    match da1_response_spec(input, offset) {
        None => false,
        Some((end, parameters)) => {
            &&& r.offset == offset
            &&& r.end_offset == end + 1
            &&& r.parameters@ == parameters
            &&& r.parameter_text@ == seq!['?'] + ascii_chars(input.subrange(offset + 3, end))
            &&& r.raw_base64@ == base64_encoding(
                Base64Profile::Standard,
                input.subrange(offset, end + 1),
            )
            &&& base64_decoding(Base64Profile::Standard, r.raw_base64@) == Some(
                input.subrange(offset, end + 1),
            )
        },
    }
}

/// Offsets of the responses found by scanning `input` from `from`: at each position a complete
/// response is taken whole, otherwise the scan moves one byte on.
pub open spec fn da1_response_offsets(input: Seq<u8>, from: nat) -> Seq<nat>
    decreases input.len() - from,
{
    if from >= input.len() {
        Seq::empty()
    } else {
        match da1_response_spec(input, from as int) {
            Some((end, _)) => if from < end + 1 <= input.len() {
                seq![from] + da1_response_offsets(input, (end + 1) as nat)
            } else {
                Seq::empty()
            },
            None => da1_response_offsets(input, from + 1),
        }
    }
}

proof fn lemma_da1_final_bounds(input: Seq<u8>, from: int)
    ensures
        da1_final(input, from) matches Some(end) ==> {
            &&& from <= end < input.len()
            &&& input[end] == 99
            &&& forall|i: int| from <= i < end ==> is_parameter_byte(#[trigger] input[i])
        },
    decreases input.len() - from,
{
    if 0 <= from < input.len() && is_parameter_byte(input[from]) {
        lemma_da1_final_bounds(input, from + 1);
    }
}

/// Protocol identity for the DA1 query and response exchange.
pub fn protocol_id() -> (p: ProtocolId)
    ensures
        p.namespace@ == "org.ecma"@,
        p.name@ == "ansi-dec-primary-device-attributes"@,
        p.revision@ == "csi-c-da1-v1"@,
{
    ProtocolId {
        namespace: String::from_str("org.ecma"),
        name: String::from_str("ansi-dec-primary-device-attributes"),
        revision: String::from_str("csi-c-da1-v1"),
    }
}

/// Build a primary device attributes query: `ESC [ c`.
pub fn build_query() -> (q: Vec<u8>)
    ensures
        q@ == seq![27u8, 91u8, 99u8],
{
    let mut q: Vec<u8> = Vec::new();
    q.push(27u8);
    q.push(91u8);
    q.push(99u8);
    q
}

fn ascii_string(input: &[u8], start: usize, end: usize, prefix: char) -> (s: String)
    requires
        start <= end <= input@.len(),
    ensures
        s@ == seq![prefix] + ascii_chars(input@.subrange(start as int, end as int)),
{
    let mut s = String::new();
    push_char(&mut s, prefix);
    let mut i = start;
    while i < end
        invariant
            start <= i <= end <= input@.len(),
            s@ == seq![prefix] + ascii_chars(input@.subrange(start as int, i as int)),
        decreases end - i,
    {
        push_char(&mut s, input[i] as char);
        assert(ascii_chars(input@.subrange(start as int, i + 1)) =~= ascii_chars(
            input@.subrange(start as int, i as int),
        ).push(input@[i as int] as char));
        i = i + 1;
    }
    s
}

/// Copies `input[start..end]`.
pub fn copy_range(input: &[u8], start: usize, end: usize) -> (v: Vec<u8>)
    requires
        start <= end <= input@.len(),
    ensures
        v@ == input@.subrange(start as int, end as int),
{
    let mut v: Vec<u8> = Vec::new();
    let mut i = start;
    while i < end
        invariant
            start <= i <= end <= input@.len(),
            v@ == input@.subrange(start as int, i as int),
        decreases end - i,
    {
        v.push(input[i]);
        i = i + 1;
    }
    v
}

/// Parse one complete private DA1 response at an exact byte offset.
pub fn parse_response_at(input: &[u8], offset: usize) -> (r: Option<Da1Response>)
    ensures
        match r {
            Some(response) => da1_response_matches(input@, offset as int, response),
            None => da1_response_spec(input@, offset as int) is None,
        },
{
    if offset > input.len() || input.len() - offset < 3 {
        return None;
    }
    if input[offset] != 27u8 || input[offset + 1] != 91u8 || input[offset + 2] != 63u8 {
        return None;
    }
    let prefix_end = offset + 3;
    let mut end = prefix_end;
    while end < input.len() && (input[end] == 59u8 || (input[end] >= 48u8 && input[end] <= 57u8))
        invariant
            prefix_end <= end <= input@.len(),
            da1_final(input@, prefix_end as int) == da1_final(input@, end as int),
        decreases input@.len() - end,
    {
        end = end + 1;
    }
    if end >= input.len() || input[end] != 99u8 {
        return None;
    }
    proof {
        lemma_da1_final_bounds(input@, prefix_end as int);
    }
    let parsed = parse_unsigned_pieces(input, prefix_end, end, 59u8, 65535);
    let ghost body = input@.subrange(prefix_end as int, end as int);
    let values = match parsed {
        None => {
            return None;
        },
        Some(values) => values,
    };
    if values.len() == 0 {
        return None;
    }
    let mut parameters: Vec<u16> = Vec::new();
    let mut i: usize = 0;
    while i < values.len()
        invariant
            i <= values@.len(),
            values@.len() == nonempty_pieces(body, 59).len(),
            pieces_accepted(body, 59, 65535),
            forall|j: int|
                0 <= j < values@.len() ==> values@[j] == unsigned_value(
                    #[trigger] nonempty_pieces(body, 59)[j],
                ),
            parameters@ == piece_values_u16(nonempty_pieces(body, 59)).take(i as int),
        decreases values@.len() - i,
    {
        assert(values@[i as int] <= 65535) by {
            assert(crate::text::unsigned_accepts(nonempty_pieces(body, 59)[i as int], 65535));
        }
        parameters.push(values[i] as u16);
        assert(parameters@ =~= piece_values_u16(nonempty_pieces(body, 59)).take(i + 1));
        i = i + 1;
    }
    assert(parameters@ =~= piece_values_u16(nonempty_pieces(body, 59)));
    let end_offset = end + 1;
    let raw = copy_range(input, offset, end_offset);
    Some(
        Da1Response {
            offset,
            end_offset,
            parameters,
            parameter_text: ascii_string(input, prefix_end, end, '?'),
            raw_base64: base64_encode(Base64Profile::Standard, raw.as_slice()),
        },
    )
}

/// Parse all complete private DA1 responses from an arbitrary byte stream.
pub fn parse_responses(input: &[u8]) -> (r: Vec<Da1Response>)
    ensures
        r@.len() == da1_response_offsets(input@, 0).len(),
        forall|i: int|
            0 <= i < r@.len() ==> da1_response_matches(
                input@,
                da1_response_offsets(input@, 0)[i] as int,
                #[trigger] r@[i],
            ),
{
    let mut responses: Vec<Da1Response> = Vec::new();
    let ghost mut found: Seq<nat> = Seq::empty();
    let mut offset: usize = 0;
    while offset < input.len()
        invariant
            offset <= input@.len(),
            da1_response_offsets(input@, 0) == found + da1_response_offsets(input@, offset as nat),
            responses@.len() == found.len(),
            forall|i: int|
                0 <= i < responses@.len() ==> da1_response_matches(
                    input@,
                    found[i] as int,
                    #[trigger] responses@[i],
                ),
        decreases input@.len() - offset,
    {
        match parse_response_at(input, offset) {
            Some(response) => {
                proof {
                    lemma_da1_final_bounds(input@, offset + 3);
                    assert(found + da1_response_offsets(input@, offset as nat) =~= found.push(
                        offset as nat,
                    ) + da1_response_offsets(input@, response.end_offset as nat));
                    found = found.push(offset as nat);
                }
                offset = response.end_offset;
                responses.push(response);
            },
            None => {
                offset = offset + 1;
            },
        }
    }
    assert(found + da1_response_offsets(input@, offset as nat) =~= found);
    responses
}

/// The parameters after the device level.
pub open spec fn extension_values(parameters: Seq<u16>) -> Seq<u16> {
    if parameters.len() > 0 {
        parameters.skip(1)
    } else {
        Seq::empty()
    }
}

/// Decimal parameters joined by `,`.
pub open spec fn comma_joined(values: Seq<u16>) -> Seq<char>
    decreases values.len(),
{
    if values.len() == 0 {
        Seq::empty()
    } else if values.len() == 1 {
        decimal_chars(values[0] as nat)
    } else {
        comma_joined(values.drop_last()) + seq![','] + decimal_chars(values.last() as nat)
    }
}

impl Da1Response {
    /// The first DA1 parameter, representing the device level.
    pub fn device_level(&self) -> (r: Option<u16>)
        ensures
            r == (if self.parameters@.len() > 0 {
                Some(self.parameters@[0])
            } else {
                None
            }),
    {
        if self.parameters.len() > 0 {
            Some(self.parameters[0])
        } else {
            None
        }
    }

    /// Whether the response advertises one extension identifier: any parameter after the
    /// device level equals it.
    pub fn advertises(&self, extension: u16) -> (r: bool)
        ensures
            r == exists|i: int| 1 <= i < self.parameters@.len() && self.parameters@[i] == extension,
    {
        let mut i: usize = 1;
        while i < self.parameters.len()
            invariant
                1 <= i,
                forall|j: int| 1 <= j < i && j < self.parameters@.len() ==> self.parameters@[j] != extension,
            decreases self.parameters@.len() - i,
        {
            if self.parameters[i] == extension {
                return true;
            }
            i = i + 1;
        }
        false
    }

    /// Extension identifiers after the device level, joined by `,`.
    fn extensions_text(&self) -> (s: String)
        ensures
            s@ == comma_joined(extension_values(self.parameters@)),
    {
        let mut s = String::new();
        if self.parameters.len() == 0 {
            return s;
        }
        let mut i: usize = 1;
        while i < self.parameters.len()
            invariant
                1 <= i <= self.parameters@.len(),
                s@ == comma_joined(self.parameters@.subrange(1, i as int)),
            decreases self.parameters@.len() - i,
        {
            let ghost before = s@;
            if i > 1 {
                push_char(&mut s, ',');
            }
            let digits = decimal_string(self.parameters[i] as u64);
            s.append(digits.as_str());
            let ghost done = self.parameters@.subrange(1, i + 1);
            assert(done.drop_last() =~= self.parameters@.subrange(1, i as int));
            if i == 1 {
                assert(before == Seq::<char>::empty());
                assert(s@ =~= decimal_chars(done[0] as nat));
            } else {
                assert(s@ =~= before + seq![','] + decimal_chars(done.last() as nat));
            }
            i = i + 1;
        }
        assert(self.parameters@.subrange(1, i as int) =~= self.parameters@.skip(1));
        s
    }

    /// Convert this response into a protocol-neutral wire event with fields `device_level`
    /// (when there is one), `extensions` and `parameters`, in key order.
    pub fn wire_event(&self, sequence: u32, role: WireEventRole) -> (e: WireEvent)
        ensures
            e.sequence == sequence,
            e.role == role,
            e.protocol matches Some(p) && p.namespace@ == "org.ecma"@ && p.name@
                == "ansi-dec-primary-device-attributes"@ && p.revision@ == "csi-c-da1-v1"@,
            e.correlation is None,
            e.status is None,
            e.raw_base64@ == self.raw_base64@,
            da1_fields_are(
                e.fields@,
                self.parameter_text@,
                if self.parameters@.len() > 0 {
                    Some(self.parameters@[0])
                } else {
                    None::<u16>
                },
                comma_joined(extension_values(self.parameters@)),
            ),
    {
        proof {
            reveal_strlit("device_level");
            reveal_strlit("extensions");
            reveal_strlit("parameters");
        }
        let mut fields: Vec<EventField> = Vec::new();
        if let Some(level) = self.device_level() {
            fields.push(
                EventField {
                    key: String::from_str("device_level"),
                    value: decimal_string(level as u64),
                },
            );
        }
        fields.push(
            EventField { key: String::from_str("extensions"), value: self.extensions_text() },
        );
        fields.push(
            EventField {
                key: String::from_str("parameters"),
                value: self.parameter_text.clone(),
            },
        );
        assert(text_less("device_level"@, "extensions"@));
        assert(text_less("extensions"@, "parameters"@));
        assert(text_less("device_level"@, "parameters"@));
        WireEvent {
            sequence,
            role,
            protocol: Some(protocol_id()),
            correlation: None,
            status: None,
            fields,
            raw_base64: self.raw_base64.clone(),
        }
    }
}

/// The fields of a DA1 event, in key order: `device_level` (the decimal level, when there is
/// one), `extensions` (the extension identifiers joined by `,`), and `parameters` (the exact
/// parameter text).
pub open spec fn da1_fields_are(
    fields: Seq<EventField>,
    parameter_text: Seq<char>,
    level: Option<u16>,
    extensions: Seq<char>,
) -> bool {
    &&& keys_sorted(fields)
    &&& fields.len() == if level is Some { 3int } else { 2int }
    &&& level matches Some(l) ==> fields[0].key@ == "device_level"@ && fields[0].value@
        == decimal_chars(l as nat)
    &&& fields[fields.len() - 2].key@ == "extensions"@
    &&& fields[fields.len() - 2].value@ == extensions
    &&& fields.last().key@ == "parameters"@
    &&& fields.last().value@ == parameter_text
}

/// `e` is the wire event, numbered `sequence` with `role`, for the response at `offset`.
pub open spec fn da1_event_matches(
    input: Seq<u8>,
    offset: int,
    sequence: u32,
    role: WireEventRole,
    e: WireEvent,
) -> bool {
    match da1_response_spec(input, offset) {
        None => false,
        Some((end, parameters)) => {
            &&& e.sequence == sequence
            &&& e.role == role
            &&& (e.protocol matches Some(p) && p.namespace@ == "org.ecma"@ && p.name@
                == "ansi-dec-primary-device-attributes"@ && p.revision@ == "csi-c-da1-v1"@)
            &&& e.correlation is None
            &&& e.status is None
            &&& e.raw_base64@ == base64_encoding(
                Base64Profile::Standard,
                input.subrange(offset, end + 1),
            )
            &&& base64_decoding(Base64Profile::Standard, e.raw_base64@) == Some(
                input.subrange(offset, end + 1),
            )
            &&& da1_fields_are(
                e.fields@,
                seq!['?'] + ascii_chars(input.subrange(offset + 3, end)),
                Some(parameters[0]),
                comma_joined(extension_values(parameters)),
            )
        },
    }
}

/// The event a parsed response yields is the event its bytes determine.
pub proof fn lemma_wire_event_of_response(
    input: Seq<u8>,
    offset: int,
    r: Da1Response,
    sequence: u32,
    role: WireEventRole,
    e: WireEvent,
)
    requires
        da1_response_matches(input, offset, r),
        e.sequence == sequence,
        e.role == role,
        e.protocol matches Some(p) && p.namespace@ == "org.ecma"@ && p.name@
            == "ansi-dec-primary-device-attributes"@ && p.revision@ == "csi-c-da1-v1"@,
        e.correlation is None,
        e.status is None,
        e.raw_base64@ == r.raw_base64@,
        da1_fields_are(
            e.fields@,
            r.parameter_text@,
            if r.parameters@.len() > 0 {
                Some(r.parameters@[0])
            } else {
                None::<u16>
            },
            comma_joined(extension_values(r.parameters@)),
        ),
    ensures
        da1_event_matches(input, offset, sequence, role, e),
{
    let (end, parameters) = da1_response_spec(input, offset).unwrap();
    let body = input.subrange(offset + 3, end);
    assert(parameters.len() == nonempty_pieces(body, 59).len());
}

/// Exclusive end of the response that starts at `offset`, or `offset` when none does.
pub open spec fn response_end(input: Seq<u8>, offset: int) -> int {
    match da1_response_spec(input, offset) {
        Some((end, _)) => end + 1,
        None => offset,
    }
}

/// `o` lies strictly inside one of the responses found at `offsets`.
pub open spec fn inside_found(input: Seq<u8>, offsets: Seq<nat>, o: int) -> bool {
    exists|j: int|
        0 <= j < offsets.len() && offsets[j] < o < response_end(input, #[trigger] offsets[j] as int)
}

proof fn lemma_scan_from(input: Seq<u8>, from: nat)
    ensures
        forall|i: int|
            0 <= i < da1_response_offsets(input, from).len() ==> {
                let o = #[trigger] da1_response_offsets(input, from)[i] as int;
                &&& from <= o
                &&& da1_response_spec(input, o) is Some
                &&& o < response_end(input, o) <= input.len()
            },
        forall|i: int|
            0 <= i < da1_response_offsets(input, from).len() - 1 ==> response_end(
                input,
                #[trigger] da1_response_offsets(input, from)[i] as int,
            ) <= da1_response_offsets(input, from)[i + 1],
        forall|o: int|
            from <= o < input.len() && #[trigger] da1_response_spec(input, o) is Some && !inside_found(
                input,
                da1_response_offsets(input, from),
                o,
            ) ==> da1_response_offsets(input, from).contains(o as nat),
    decreases input.len() - from,
{
    let offsets = da1_response_offsets(input, from);
    if from < input.len() {
        match da1_response_spec(input, from as int) {
            Some((end, _)) => {
                lemma_da1_final_bounds(input, from as int + 3);
                let next = (end + 1) as nat;
                lemma_scan_from(input, next);
                let rest = da1_response_offsets(input, next);
                assert(offsets == seq![from] + rest);
                assert forall|i: int| 0 <= i < offsets.len() - 1 implies response_end(
                    input,
                    #[trigger] offsets[i] as int,
                ) <= offsets[i + 1] by {
                    if i > 0 {
                        assert(offsets[i] == rest[i - 1]);
                        assert(offsets[i + 1] == rest[i]);
                    } else {
                        assert(offsets[1] == rest[0]);
                    }
                }
                assert forall|i: int| 0 <= i < offsets.len() implies {
                    let o = #[trigger] offsets[i] as int;
                    &&& from <= o
                    &&& da1_response_spec(input, o) is Some
                    &&& o < response_end(input, o) <= input.len()
                } by {
                    if i > 0 {
                        assert(offsets[i] == rest[i - 1]);
                    }
                }
                assert forall|o: int|
                    from <= o < input.len() && #[trigger] da1_response_spec(input, o) is Some
                        && !inside_found(input, offsets, o) implies offsets.contains(o as nat) by {
                    if o == from {
                        assert(offsets[0] == from);
                    } else if o < end + 1 {
                        assert(offsets[0] < o < response_end(input, offsets[0] as int));
                    } else {
                        if inside_found(input, rest, o) {
                            let j = choose|j: int|
                                0 <= j < rest.len() && rest[j] < o < response_end(
                                    input,
                                    #[trigger] rest[j] as int,
                                );
                            assert(offsets[j + 1] == rest[j]);
                        }
                        let k = choose|k: int| 0 <= k < rest.len() && rest[k] == o as nat;
                        assert(offsets[k + 1] == rest[k]);
                    }
                }
            },
            None => {
                lemma_scan_from(input, from + 1);
            },
        }
    }
}

/// The scan finds every response whole, in order, and misses none: [`parse_responses`] yields
/// at each of these offsets exactly what [`parse_response_at`] finds there (both are
/// [`da1_response_matches`]); the responses do not overlap; and every position where a response
/// starts, unless it lies inside a response already found, is among the offsets.
pub proof fn lemma_da1_scan(input: Seq<u8>)
    ensures
        forall|i: int|
            0 <= i < da1_response_offsets(input, 0).len() ==> {
                let o = #[trigger] da1_response_offsets(input, 0)[i] as int;
                &&& da1_response_spec(input, o) is Some
                &&& o < response_end(input, o) <= input.len()
            },
        forall|i: int|
            0 <= i < da1_response_offsets(input, 0).len() - 1 ==> response_end(
                input,
                #[trigger] da1_response_offsets(input, 0)[i] as int,
            ) <= da1_response_offsets(input, 0)[i + 1],
        forall|o: int|
            0 <= o < input.len() && #[trigger] da1_response_spec(input, o) is Some && !inside_found(
                input,
                da1_response_offsets(input, 0),
                o,
            ) ==> da1_response_offsets(input, 0).contains(o as nat),
{
    lemma_scan_from(input, 0);
}

} // verus!
