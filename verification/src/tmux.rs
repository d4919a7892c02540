//! Transport adapter for tmux DCS passthrough.

use crate::evidence::AdapterIdentity;
use vstd::prelude::*;

verus! {

/// Adapter implementation version shared by the adapters of this library.
pub const ADAPTER_VERSION: &'static str = "0.1.0";

/// The payload with every ESC byte doubled, as tmux passthrough requires.
pub open spec fn doubled_esc(payload: Seq<u8>) -> Seq<u8>
    decreases payload.len(),
{
    if payload.len() == 0 {
        Seq::empty()
    } else if payload.last() == 27 {
        doubled_esc(payload.drop_last()) + seq![27u8, 27u8]
    } else {
        doubled_esc(payload.drop_last()).push(payload.last())
    }
}

/// Undoes [`doubled_esc`]: each pair of ESC bytes becomes one.
pub open spec fn undoubled_esc(framed: Seq<u8>) -> Seq<u8>
    decreases framed.len(),
{
    if framed.len() == 0 {
        Seq::empty()
    } else if framed.len() >= 2 && framed.last() == 27 && framed[framed.len() - 2] == 27 {
        undoubled_esc(framed.subrange(0, framed.len() - 2)).push(27u8)
    } else {
        undoubled_esc(framed.drop_last()).push(framed.last())
    }
}

/// The tmux passthrough frame: `ESC P tmux ;`, the escaped payload, then `ESC \`.
pub open spec fn passthrough_frame(payload: Seq<u8>) -> Seq<u8> {
    seq![27u8, 80u8, 116u8, 109u8, 117u8, 120u8, 59u8] + doubled_esc(payload) + seq![27u8, 92u8]
}

/// Identity of the tmux transport adapter.
pub fn adapter_identity() -> (a: AdapterIdentity)
    ensures
        a.name@ == "tmux-dcs-passthrough"@,
        a.version@ == ADAPTER_VERSION@,
{
    AdapterIdentity {
        name: String::from_str("tmux-dcs-passthrough"),
        version: String::from_str(ADAPTER_VERSION),
    }
}

/// Wrap arbitrary terminal-protocol bytes in tmux DCS passthrough framing.
///
/// Every ESC byte in the payload is doubled as required by tmux passthrough.
pub fn wrap_passthrough(payload: &[u8]) -> (output: Vec<u8>)
    ensures
        output@ == passthrough_frame(payload@),
{
    let mut output: Vec<u8> = Vec::new();
    output.push(27u8);
    output.push(80u8);
    output.push(116u8);
    output.push(109u8);
    output.push(117u8);
    output.push(120u8);
    output.push(59u8);
    let ghost header = output@;
    assert(header == seq![27u8, 80u8, 116u8, 109u8, 117u8, 120u8, 59u8]);
    let mut i: usize = 0;
    while i < payload.len()
        invariant
            i <= payload@.len(),
            output@ == header + doubled_esc(payload@.take(i as int)),
        decreases payload@.len() - i,
    {
        let byte = payload[i];
        assert(payload@.take(i + 1).drop_last() =~= payload@.take(i as int));
        if byte == 27u8 {
            output.push(27u8);
        }
        output.push(byte);
        assert(output@ =~= header + doubled_esc(payload@.take(i + 1)));
        i = i + 1;
    }
    assert(payload@.take(payload@.len() as int) =~= payload@);
    output.push(27u8);
    output.push(92u8);
    assert(output@ =~= passthrough_frame(payload@));
    output
}

/// Build a tmux-passthrough primary-device-attributes readiness query.
pub fn build_readiness_query() -> (q: Vec<u8>)
    ensures
        q@ == passthrough_frame(seq![27u8, 91u8, 99u8]),
{
    let query = crate::da1::build_query();
    wrap_passthrough(query.as_slice())
}

/// Doubling is undone by collapsing pairs: the passthrough payload is recovered exactly from
/// the bytes between the frame header and terminator.
pub proof fn lemma_passthrough_payload_recoverable(payload: Seq<u8>)
    ensures
        undoubled_esc(doubled_esc(payload)) == payload,
    decreases payload.len(),
{
    if payload.len() > 0 {
        let rest = payload.drop_last();
        lemma_passthrough_payload_recoverable(rest);
        let d = doubled_esc(rest);
        if payload.last() == 27 {
            let framed = d + seq![27u8, 27u8];
            assert(framed.subrange(0, framed.len() - 2) =~= d);
        } else {
            let framed = d.push(payload.last());
            assert(framed.drop_last() =~= d);
            if framed.len() >= 2 && framed.last() == 27 {
                assert(false);
            }
        }
        assert(rest.push(payload.last()) =~= payload);
    } else {
        assert(payload =~= Seq::<u8>::empty());
    }
}

} // verus!
