//! Terminal pixel-geometry inquiry and bounded response parsing.

use crate::codec::{base64_encode, base64_encoding, Base64Profile};
use crate::da1::copy_range;
use crate::text::{find_byte, free_of, parse_unsigned, unsigned_accepts, unsigned_value};
use vstd::prelude::*;

verus! {

/// One exact response to the CSI 14 t window-area pixel inquiry.
#[derive(Clone, Debug, PartialEq, Eq)]
pub struct WindowPixels {
    /// Byte offset of the response in the input stream.
    pub offset: usize,
    /// Exclusive byte offset after the response.
    pub end_offset: usize,
    /// Reported text-area width in pixels.
    pub width: u32,
    /// Reported text-area height in pixels.
    pub height: u32,
    /// Exact response bytes encoded with standard Base64.
    pub raw_base64: String,
}

/// One exact response to the CSI 18 t text-area cell inquiry.
#[derive(Clone, Debug, PartialEq, Eq)]
pub struct WindowCells {
    /// Byte offset of the response in the input stream.
    pub offset: usize,
    /// Exclusive byte offset after the response.
    pub end_offset: usize,
    /// Reported text-area width in terminal cells.
    pub columns: u16,
    /// Reported text-area height in terminal cells.
    pub rows: u16,
    /// Exact response bytes encoded with standard Base64.
    pub raw_base64: String,
}

/// Build the standard window-area size query in pixels: `CSI 14 t`.
pub fn build_window_pixels_query() -> (q: Vec<u8>)
    ensures
        q@ == seq![27u8, 91u8, 49u8, 52u8, 116u8],
{
    let mut q: Vec<u8> = Vec::new();
    q.push(27u8);
    q.push(91u8);
    q.push(49u8);
    q.push(52u8);
    q.push(116u8);
    q
}

/// Build paired pixel and cell inquiries for one coordinate-surface check:
/// `CSI 14 t CSI 18 t`.
pub fn build_geometry_query() -> (q: Vec<u8>)
    ensures
        q@ == seq![27u8, 91u8, 49u8, 52u8, 116u8, 27u8, 91u8, 49u8, 56u8, 116u8],
{
    let mut q = build_window_pixels_query();
    q.push(27u8);
    q.push(91u8);
    q.push(49u8);
    q.push(56u8);
    q.push(116u8);
    q
}

/// Position of the first `t` at or after `from`.
pub open spec fn first_t(input: Seq<u8>, from: int) -> Option<int>
    decreases input.len() - from,
{
    if from < 0 || from >= input.len() {
        None
    } else if input[from] == 116 {
        Some(from)
    } else {
        first_t(input, from + 1)
    }
}

/// Position of the first `;` in `body`.
pub open spec fn first_semicolon(body: Seq<u8>, from: int) -> Option<int>
    decreases body.len() - from,
{
    if from < 0 || from >= body.len() {
        None
    } else if body[from] == 59 {
        Some(from)
    } else {
        first_semicolon(body, from + 1)
    }
}

/// A window report `ESC [ kind ; first ; second t` at `offset`: the body between `kind ;` and
/// the first following `t` is split at its first `;`, and both sides must be accepted unsigned
/// integers in `1..=max`. The result is the position of `t` and the two values.
pub open spec fn window_report_spec(input: Seq<u8>, offset: int, kind: u8, max: nat) -> Option<
    (int, nat, nat),
> {
    if offset < 0 || offset + 4 > input.len() {
        None
    } else if input[offset] != 27 || input[offset + 1] != 91 || input[offset + 2] != kind
        || input[offset + 3] != 59 {
        None
    } else {
        match first_t(input, offset + 4) {
            None => None,
            Some(end) => {
                let body = input.subrange(offset + 4, end);
                match first_semicolon(body, 0) {
                    None => None,
                    Some(p) => {
                        let first = body.subrange(0, p);
                        let second = body.subrange(p + 1, body.len() as int);
                        if unsigned_accepts(first, max) && unsigned_accepts(second, max)
                            && unsigned_value(first) > 0 && unsigned_value(second) > 0 {
                            Some((end, unsigned_value(first), unsigned_value(second)))
                        } else {
                            None
                        }
                    },
                }
            },
        }
    }
}

/// Offsets of the reports found by scanning `input` from `from`.
pub open spec fn window_report_offsets(input: Seq<u8>, from: nat, kind: u8, max: nat) -> Seq<nat>
    decreases input.len() - from,
{
    if from >= input.len() {
        Seq::empty()
    } else {
        match window_report_spec(input, from as int, kind, max) {
            Some((end, _, _)) => if from < end + 1 <= input.len() {
                seq![from] + window_report_offsets(input, (end + 1) as nat, kind, max)
            } else {
                Seq::empty()
            },
            None => window_report_offsets(input, from + 1, kind, max),
        }
    }
}

proof fn lemma_first_t(input: Seq<u8>, from: int)
    ensures
        first_t(input, from) matches Some(end) ==> from <= end < input.len() && input[end] == 116,
    decreases input.len() - from,
{
    if 0 <= from < input.len() && input[from] != 116 {
        lemma_first_t(input, from + 1);
    }
}

proof fn lemma_window_report_bounds(input: Seq<u8>, offset: int, kind: u8, max: nat)
    ensures
        window_report_spec(input, offset, kind, max) matches Some((end, _, _)) ==> 0 <= offset
            && offset + 4 <= end < input.len(),
{
    lemma_first_t(input, offset + 4);
}

/// `p` is the pixel report parsed at `offset`.
pub open spec fn window_pixels_matches(input: Seq<u8>, offset: int, p: WindowPixels) -> bool {
    match window_report_spec(input, offset, 52, u32::MAX as nat) {
        None => false,
        Some((end, height, width)) => {
            &&& p.offset == offset
            &&& p.end_offset == end + 1
            &&& p.height == height
            &&& p.width == width
            &&& p.raw_base64@ == base64_encoding(
                Base64Profile::Standard,
                input.subrange(offset, end + 1),
            )
        },
    }
}

/// `c` is the cell report parsed at `offset`.
pub open spec fn window_cells_matches(input: Seq<u8>, offset: int, c: WindowCells) -> bool {
    match window_report_spec(input, offset, 56, u16::MAX as nat) {
        None => false,
        Some((end, rows, columns)) => {
            &&& c.offset == offset
            &&& c.end_offset == end + 1
            &&& c.rows == rows
            &&& c.columns == columns
            &&& c.raw_base64@ == base64_encoding(
                Base64Profile::Standard,
                input.subrange(offset, end + 1),
            )
        },
    }
}

proof fn lemma_first_found(s: Seq<u8>, from: int, j: int, b: u8)
    requires
        0 <= from <= j <= s.len(),
        free_of(s.subrange(from, j), b),
    ensures
        j < s.len() && s[j] == b ==> (if b == 116 {
            first_t(s, from) == Some(j)
        } else {
            true
        }),
        j < s.len() && s[j] == b ==> (if b == 59 {
            first_semicolon(s, from) == Some(j)
        } else {
            true
        }),
        j == s.len() ==> (if b == 116 {
            first_t(s, from) is None
        } else {
            true
        }),
        j == s.len() ==> (if b == 59 {
            first_semicolon(s, from) is None
        } else {
            true
        }),
    decreases j - from,
{
    if from < j {
        assert(s[from] == s.subrange(from, j)[0]);
        assert(free_of(s.subrange(from + 1, j), b)) by {
            assert forall|i: int| 0 <= i < j - from - 1 implies #[trigger] s.subrange(
                from + 1,
                j,
            )[i] != b by {
                assert(s.subrange(from + 1, j)[i] == s.subrange(from, j)[i + 1]);
            }
        }
        lemma_first_found(s, from + 1, j, b);
    }
}

/// Parses one window report of the given kind at `offset`.
fn parse_window_report_at(input: &[u8], offset: usize, kind: u8, max: u64) -> (r: Option<
    (usize, u64, u64),
>)
    ensures
        match r {
            Some((end, first, second)) => window_report_spec(input@, offset as int, kind, max as nat)
                == Some((end as int, first as nat, second as nat)) && offset + 4 <= end
                < input@.len() && first <= max && second <= max,
            None => window_report_spec(input@, offset as int, kind, max as nat) is None,
        },
{
    if offset > input.len() || input.len() - offset < 4 {
        return None;
    }
    if input[offset] != 27u8 || input[offset + 1] != 91u8 || input[offset + 2] != kind
        || input[offset + 3] != 59u8 {
        return None;
    }
    let body_start = offset + 4;
    let end = find_byte(input, body_start, input.len(), 116u8);
    proof {
        lemma_first_found(input@, body_start as int, end as int, 116u8);
    }
    if end == input.len() {
        return None;
    }
    let ghost body = input@.subrange(body_start as int, end as int);
    let split = find_byte(input, body_start, end, 59u8);
    proof {
        assert(body.subrange(0, split - body_start) =~= input@.subrange(
            body_start as int,
            split as int,
        ));
        lemma_first_found(body, 0, split - body_start, 59u8);
    }
    if split == end {
        return None;
    }
    let first = parse_unsigned(input, body_start, split, max);
    let second = parse_unsigned(input, split + 1, end, max);
    proof {
        assert(body.subrange(0, split - body_start) =~= input@.subrange(
            body_start as int,
            split as int,
        ));
        assert(body.subrange(split - body_start + 1, body.len() as int) =~= input@.subrange(
            split + 1,
            end as int,
        ));
    }
    match (first, second) {
        (Some(a), Some(b)) => {
            if a == 0 || b == 0 {
                None
            } else {
                Some((end, a, b))
            }
        },
        _ => None,
    }
}

/// Parse one complete `CSI 4 ; height ; width t` response at an exact offset.
pub fn parse_window_pixels_at(input: &[u8], offset: usize) -> (r: Option<WindowPixels>)
    ensures
        match r {
            Some(p) => window_pixels_matches(input@, offset as int, p),
            None => window_report_spec(input@, offset as int, 52, u32::MAX as nat) is None,
        },
{
    match parse_window_report_at(input, offset, 52u8, u32::MAX as u64) {
        None => None,
        Some((end, height, width)) => {
            proof {
                lemma_window_report_bounds(input@, offset as int, 52, u32::MAX as nat);
                lemma_window_report_bounds(input@, offset as int, 56, u16::MAX as nat);
            }
            let total = input.len();
            assert(end < total);
            let end_offset = end + 1;
            let raw = copy_range(input, offset, end_offset);
            Some(
                WindowPixels {
                    offset,
                    end_offset,
                    width: width as u32,
                    height: height as u32,
                    raw_base64: base64_encode(Base64Profile::Standard, raw.as_slice()),
                },
            )
        },
    }
}

/// Parse one complete `CSI 8 ; rows ; columns t` response at an exact offset.
pub fn parse_window_cells_at(input: &[u8], offset: usize) -> (r: Option<WindowCells>)
    ensures
        match r {
            Some(c) => window_cells_matches(input@, offset as int, c),
            None => window_report_spec(input@, offset as int, 56, u16::MAX as nat) is None,
        },
{
    match parse_window_report_at(input, offset, 56u8, u16::MAX as u64) {
        None => None,
        Some((end, rows, columns)) => {
            proof {
                lemma_window_report_bounds(input@, offset as int, 52, u32::MAX as nat);
                lemma_window_report_bounds(input@, offset as int, 56, u16::MAX as nat);
            }
            let total = input.len();
            assert(end < total);
            let end_offset = end + 1;
            let raw = copy_range(input, offset, end_offset);
            Some(
                WindowCells {
                    offset,
                    end_offset,
                    columns: columns as u16,
                    rows: rows as u16,
                    raw_base64: base64_encode(Base64Profile::Standard, raw.as_slice()),
                },
            )
        },
    }
}

/// Parse all complete window-area pixel responses from an arbitrary byte stream.
pub fn parse_window_pixels(input: &[u8]) -> (r: Vec<WindowPixels>)
    ensures
        r@.len() == window_report_offsets(input@, 0, 52, u32::MAX as nat).len(),
        forall|i: int|
            0 <= i < r@.len() ==> window_pixels_matches(
                input@,
                window_report_offsets(input@, 0, 52, u32::MAX as nat)[i] as int,
                #[trigger] r@[i],
            ),
{
    let mut responses: Vec<WindowPixels> = Vec::new();
    let ghost mut found: Seq<nat> = Seq::empty();
    let mut offset: usize = 0;
    while offset < input.len()
        invariant
            offset <= input@.len(),
            window_report_offsets(input@, 0, 52, u32::MAX as nat) == found
                + window_report_offsets(input@, offset as nat, 52, u32::MAX as nat),
            responses@.len() == found.len(),
            forall|i: int|
                0 <= i < responses@.len() ==> window_pixels_matches(
                    input@,
                    found[i] as int,
                    #[trigger] responses@[i],
                ),
        decreases input@.len() - offset,
    {
        match parse_window_pixels_at(input, offset) {
            Some(response) => {
                proof {
                    lemma_window_report_bounds(input@, offset as int, 52, u32::MAX as nat);
                    lemma_window_report_bounds(input@, offset as int, 56, u16::MAX as nat);
                    assert(found + window_report_offsets(input@, offset as nat, 52, u32::MAX as nat)
                        =~= found.push(offset as nat) + window_report_offsets(
                        input@,
                        response.end_offset as nat,
                        52,
                        u32::MAX as nat,
                    ));
                    found = found.push(offset as nat);
                }
                offset = response.end_offset;
                responses.push(response);
            },
            None => {
                offset = offset + 1;
            },
        }
    }
    assert(found + window_report_offsets(input@, offset as nat, 52, u32::MAX as nat) =~= found);
    responses
}

/// Parse all complete window-area cell responses from an arbitrary byte stream.
pub fn parse_window_cells(input: &[u8]) -> (r: Vec<WindowCells>)
    ensures
        r@.len() == window_report_offsets(input@, 0, 56, u16::MAX as nat).len(),
        forall|i: int|
            0 <= i < r@.len() ==> window_cells_matches(
                input@,
                window_report_offsets(input@, 0, 56, u16::MAX as nat)[i] as int,
                #[trigger] r@[i],
            ),
{
    let mut responses: Vec<WindowCells> = Vec::new();
    let ghost mut found: Seq<nat> = Seq::empty();
    let mut offset: usize = 0;
    while offset < input.len()
        invariant
            offset <= input@.len(),
            window_report_offsets(input@, 0, 56, u16::MAX as nat) == found
                + window_report_offsets(input@, offset as nat, 56, u16::MAX as nat),
            responses@.len() == found.len(),
            forall|i: int|
                0 <= i < responses@.len() ==> window_cells_matches(
                    input@,
                    found[i] as int,
                    #[trigger] responses@[i],
                ),
        decreases input@.len() - offset,
    {
        match parse_window_cells_at(input, offset) {
            Some(response) => {
                proof {
                    lemma_window_report_bounds(input@, offset as int, 52, u32::MAX as nat);
                    lemma_window_report_bounds(input@, offset as int, 56, u16::MAX as nat);
                    assert(found + window_report_offsets(input@, offset as nat, 56, u16::MAX as nat)
                        =~= found.push(offset as nat) + window_report_offsets(
                        input@,
                        response.end_offset as nat,
                        56,
                        u16::MAX as nat,
                    ));
                    found = found.push(offset as nat);
                }
                offset = response.end_offset;
                responses.push(response);
            },
            None => {
                offset = offset + 1;
            },
        }
    }
    assert(found + window_report_offsets(input@, offset as nat, 56, u16::MAX as nat) =~= found);
    responses
}

} // verus!
