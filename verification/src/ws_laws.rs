//! What holds of WebSocket frames and messages as a whole.

use crate::bytes;
use crate::ws;
use crate::ws::{FrameView, ParsedView, RecvView, StreamView, WsError};
use vstd::prelude::*;

verus! {

/// The unmasked start of a frame from a server.
pub open spec fn server_head(fin: bool, opcode: u8, size: nat) -> Seq<u8> {
    let b0 = if fin {
        (128 + opcode) as u8
    } else {
        opcode
    };
    if size < 126 {
        seq![b0, size as u8]
    } else if size <= 0xFFFF {
        seq![b0, 126u8] + bytes::be_bytes(size, 2)
    } else {
        seq![b0, 127u8] + bytes::be_bytes(size, 8)
    }
}

/// An unmasked frame from a server.
pub open spec fn server_frame(fin: bool, opcode: u8, payload: Seq<u8>) -> Seq<u8> {
    server_head(fin, opcode, payload.len()) + payload
}

/// The parts one after the other.
pub open spec fn joined(parts: Seq<Seq<u8>>) -> Seq<u8>
    decreases parts.len(),
{
    if parts.len() == 0 {
        seq![]
    } else {
        parts[0] + joined(parts.drop_first())
    }
}

/// Continuation frames, the last one final.
pub open spec fn continuation_wire(parts: Seq<Seq<u8>>) -> Seq<u8>
    decreases parts.len(),
{
    if parts.len() == 0 {
        seq![]
    } else {
        server_frame(parts.len() == 1, 0, parts[0]) + continuation_wire(parts.drop_first())
    }
}

/// A message in one or more frames.
pub open spec fn message_wire(opcode: u8, parts: Seq<Seq<u8>>) -> Seq<u8> {
    server_frame(parts.len() == 1, opcode, parts[0]) + continuation_wire(parts.drop_first())
}

/// The payload size that a head gives, where its extended length is that of `size`.
proof fn lemma_extended_size(wire: Seq<u8>, size: nat, k: nat)
    requires
        k == 2 || k == 8,
        size < bytes::pow256(k),
        wire.len() >= 2 + k,
        wire.subrange(2, 2 + k as int) == bytes::be_bytes(size, k),
        ws::length_size(wire[1]) == k,
    ensures
        ws::payload_size(wire) == size,
{
    bytes::law_be_roundtrip(size, k);
}

/// A binary frame is read back whole, whatever follows it.
pub proof fn law_binary_roundtrip(payload: Seq<u8>, mask: Seq<u8>, rest: Seq<u8>)
    requires
        mask.len() == 4,
        payload.len() <= ws::MAX_FRAME_SIZE,
    ensures
        ws::parsed(ws::binary_frame(payload, mask) + rest) == (ParsedView::Frame {
            frame: FrameView { fin: true, opcode: 2, payload },
            used: ws::binary_frame(payload, mask).len(),
        }),
{
    let size = payload.len();
    let head = ws::binary_head(size);
    let wire = ws::binary_frame(payload, mask) + rest;
    bytes::lemma_be_bytes_len(size, 2);
    bytes::lemma_be_bytes_len(size, 8);
    bytes::lemma_pow256_values();
    let k = ws::length_size(wire[1]);
    assert(wire[0] == 0x82 && head.len() == 2 + k);
    assert(ws::payload_size(wire) == size) by {
        if k > 0 {
            assert(wire.subrange(2, 2 + k as int) =~= bytes::be_bytes(size, k));
            lemma_extended_size(wire, size, k);
        }
    }
    let h = head.len() as int;
    assert(wire.subrange(h, h + 4) =~= mask);
    assert(wire.subrange(h + 4, h + 4 + size) =~= bytes::masked(payload, mask));
    bytes::law_mask_involution(payload, mask);
}

/// A control frame is read back whole, whatever follows it.
pub proof fn law_control_roundtrip(opcode: u8, payload: Seq<u8>, mask: Seq<u8>, rest: Seq<u8>)
    requires
        opcode < 16,
        mask.len() == 4,
        payload.len() <= ws::MAX_CONTROL_SIZE,
    ensures
        ws::parsed(ws::control_frame(opcode, payload, mask) + rest) == (ParsedView::Frame {
            frame: FrameView { fin: true, opcode, payload },
            used: ws::control_frame(opcode, payload, mask).len(),
        }),
{
    let size = payload.len();
    let wire = ws::control_frame(opcode, payload, mask) + rest;
    let b0 = 0x80u8 | opcode;
    assert(b0 >= 128 && b0 % 16 == opcode) by (bit_vector)
        requires
            b0 == 0x80u8 | opcode,
            opcode < 16,
    ;
    assert(wire[0] == b0);
    assert(wire.subrange(2, 6) =~= mask);
    assert(wire.subrange(6, 6 + size as int) =~= bytes::masked(payload, mask));
    bytes::law_mask_involution(payload, mask);
}

/// A frame from a server is read back whole, whatever follows it.
pub proof fn law_server_frame_roundtrip(fin: bool, opcode: u8, payload: Seq<u8>, rest: Seq<u8>)
    requires
        opcode < 16,
        payload.len() <= ws::MAX_FRAME_SIZE,
        opcode >= 8 ==> fin && payload.len() <= ws::MAX_CONTROL_SIZE,
    ensures
        ws::parsed(server_frame(fin, opcode, payload) + rest) == (ParsedView::Frame {
            frame: FrameView { fin, opcode, payload },
            used: server_frame(fin, opcode, payload).len(),
        }),
{
    let size = payload.len();
    let head = server_head(fin, opcode, size);
    let wire = server_frame(fin, opcode, payload) + rest;
    bytes::lemma_be_bytes_len(size, 2);
    bytes::lemma_be_bytes_len(size, 8);
    bytes::lemma_pow256_values();
    let k = ws::length_size(wire[1]);
    assert(head.len() == 2 + k);
    assert(ws::payload_size(wire) == size) by {
        if k > 0 {
            assert(wire.subrange(2, 2 + k as int) =~= bytes::be_bytes(size, k));
            lemma_extended_size(wire, size, k);
        }
    }
    let h = head.len() as int;
    assert(wire.subrange(h, h + size) =~= payload);
}

/// A frame or an error is settled by the bytes that show it: bytes that follow
/// change nothing.
pub proof fn law_parse_is_settled(wire: Seq<u8>, more: Seq<u8>)
    requires
        !(ws::parsed(wire) is Need),
    ensures
        ws::parsed(wire + more) == ws::parsed(wire),
{
    let longer = wire + more;
    assert(longer[0] == wire[0] && longer[1] == wire[1]);
    let head = 2 + ws::length_size(wire[1]) as int;
    assert(longer.subrange(2, head) =~= wire.subrange(2, head));
    if let ParsedView::Frame { frame, used } = ws::parsed(wire) {
        let body = head + ws::mask_size(wire[1]);
        assert(longer.subrange(head, body) =~= wire.subrange(head, body));
        assert(longer.subrange(body, used as int) =~= wire.subrange(body, used as int));
    }
}

/// The bytes that are asked for are never more than the frame has: with fewer
/// of them the same part is still incomplete, by the difference.
pub proof fn law_need_is_exact(wire: Seq<u8>, more: Seq<u8>)
    requires
        ws::parsed(wire) is Need,
        more.len() < ws::parsed(wire)->missing,
    ensures
        ws::parsed(wire + more) == (ParsedView::Need {
            part: ws::parsed(wire)->part,
            missing: (ws::parsed(wire)->missing - more.len()) as nat,
        }),
{
    let longer = wire + more;
    if more.len() == 0 {
        assert(longer =~= wire);
    } else if wire.len() >= 2 {
        assert(longer[0] == wire[0] && longer[1] == wire[1]);
        let head = 2 + ws::length_size(wire[1]) as int;
        if wire.len() >= head {
            assert(longer.subrange(2, head) =~= wire.subrange(2, head));
        }
    }
}

/// What is asked for is at least one byte.
pub proof fn law_need_is_positive(wire: Seq<u8>)
    requires
        ws::parsed(wire) is Need,
    ensures
        ws::parsed(wire)->missing > 0,
{
}

/// The state with `more` at the end of the wire.
pub open spec fn supplied(s: StreamView, more: Seq<u8>) -> StreamView {
    StreamView { wire: s.wire + more, fragments: s.fragments, opcode: s.opcode }
}

/// It does not matter how the bytes of a connection are cut: a round that ran
/// out of bytes and goes on with more ends as one that had them all at once.
pub proof fn law_chunking(s: StreamView, more: Seq<u8>)
    requires
        ws::received(s).0 is Read,
    ensures
        ws::received(supplied(s, more)) == ws::received(supplied(ws::received(s).1, more)),
    decreases s.wire.len(),
{
    if let ParsedView::Frame { frame, used } = ws::parsed(s.wire) {
        law_parse_is_settled(s.wire, more);
        let rest = ws::after_bytes(s, used);
        let (_, next) = ws::absorbed(rest, frame);
        let long = ws::after_bytes(supplied(s, more), used);
        assert(long =~= supplied(rest, more));
        let (_, long_next) = ws::absorbed(long, frame);
        assert(long_next =~= supplied(next, more));
        law_chunking(next, more);
    }
}

/// A round that ended otherwise than by running out of bytes is not changed by
/// bytes that follow: they stay on the wire.
pub proof fn law_round_is_settled(s: StreamView, more: Seq<u8>)
    requires
        !(ws::received(s).0 is Read),
    ensures
        ws::received(supplied(s, more)) == (
            ws::received(s).0,
            supplied(ws::received(s).1, more),
        ),
    decreases s.wire.len(),
{
    law_parse_is_settled(s.wire, more);
    if let ParsedView::Bad { error, used } = ws::parsed(s.wire) {
        assert(ws::after_bytes(supplied(s, more), used) =~= supplied(
            ws::after_bytes(s, used),
            more,
        ));
    }
    if let ParsedView::Frame { frame, used } = ws::parsed(s.wire) {
        let rest = ws::after_bytes(s, used);
        let (end, next) = ws::absorbed(rest, frame);
        let long = ws::after_bytes(supplied(s, more), used);
        assert(long =~= supplied(rest, more));
        let (long_end, long_next) = ws::absorbed(long, frame);
        assert(long_next =~= supplied(next, more));
        if end is None {
            law_round_is_settled(next, more);
        }
    }
}

/// Receiving keeps the state well formed.
pub proof fn law_receiving_keeps_well_formed(s: StreamView)
    requires
        s.well_formed(),
    ensures
        ws::received(s).1.well_formed(),
    decreases s.wire.len(),
{
    if let ParsedView::Frame { frame, used } = ws::parsed(s.wire) {
        let (end, next) = ws::absorbed(ws::after_bytes(s, used), frame);
        if end is None {
            law_receiving_keeps_well_formed(next);
        }
    }
}

/// The wire after the frame that it starts with.
proof fn lemma_after_frame(s: StreamView, fin: bool, opcode: u8, payload: Seq<u8>, rest: Seq<u8>)
    requires
        opcode < 16,
        payload.len() <= ws::MAX_FRAME_SIZE,
        opcode >= 8 ==> fin && payload.len() <= ws::MAX_CONTROL_SIZE,
        s.wire == server_frame(fin, opcode, payload) + rest,
    ensures
        ws::parsed(s.wire) == (ParsedView::Frame {
            frame: FrameView { fin, opcode, payload },
            used: server_frame(fin, opcode, payload).len(),
        }),
        ws::after_bytes(s, server_frame(fin, opcode, payload).len()) == (StreamView {
            wire: rest,
            ..s
        }),
{
    law_server_frame_roundtrip(fin, opcode, payload, rest);
    assert(s.wire.skip(server_frame(fin, opcode, payload).len() as int) =~= rest);
}

proof fn lemma_continuation(s: StreamView, parts: Seq<Seq<u8>>, rest: Seq<u8>)
    requires
        parts.len() > 0,
        forall|i: int| 0 <= i < parts.len() ==> (#[trigger] parts[i]).len() <= ws::MAX_FRAME_SIZE,
        s.opcode is Some,
        s.wire == continuation_wire(parts) + rest,
    ensures
        ws::received(s) == (
            RecvView::Message(s.fragments + joined(parts)),
            StreamView { wire: rest, fragments: seq![], opcode: None },
        ),
    decreases parts.len(),
{
    let tail = parts.drop_first();
    let fin = parts.len() == 1;
    let after = continuation_wire(tail) + rest;
    assert(s.wire =~= server_frame(fin, 0, parts[0]) + after);
    lemma_after_frame(s, fin, 0, parts[0], after);
    if fin {
        assert(after =~= rest);
        assert(s.fragments + joined(parts) =~= s.fragments + parts[0]);
    } else {
        assert forall|i: int| 0 <= i < tail.len() implies (#[trigger] tail[i]).len()
            <= ws::MAX_FRAME_SIZE by {
            assert(tail[i] == parts[i + 1]);
        }
        let next = StreamView {
            wire: after,
            fragments: s.fragments + parts[0],
            opcode: s.opcode,
        };
        lemma_continuation(next, tail, rest);
        assert(s.fragments + joined(parts) =~= next.fragments + joined(tail));
    }
}

/// A text or binary message comes out as its parts joined, however many frames
/// it was cut into, and what follows it stays on the wire.
pub proof fn law_reassembly(opcode: u8, parts: Seq<Seq<u8>>, rest: Seq<u8>)
    requires
        opcode == 1 || opcode == 2,
        parts.len() > 0,
        forall|i: int| 0 <= i < parts.len() ==> (#[trigger] parts[i]).len() <= ws::MAX_FRAME_SIZE,
    ensures
        ws::received(
            StreamView { wire: message_wire(opcode, parts) + rest, fragments: seq![], opcode: None },
        ) == (
            RecvView::Message(joined(parts)),
            StreamView { wire: rest, fragments: seq![], opcode: None },
        ),
{
    let s = StreamView {
        wire: message_wire(opcode, parts) + rest,
        fragments: seq![],
        opcode: None,
    };
    let tail = parts.drop_first();
    let fin = parts.len() == 1;
    let after = continuation_wire(tail) + rest;
    assert(s.wire =~= server_frame(fin, opcode, parts[0]) + after);
    lemma_after_frame(s, fin, opcode, parts[0], after);
    if fin {
        assert(after =~= rest);
        assert(joined(parts) =~= parts[0]);
    } else {
        assert forall|i: int| 0 <= i < tail.len() implies (#[trigger] tail[i]).len()
            <= ws::MAX_FRAME_SIZE by {
            assert(tail[i] == parts[i + 1]);
        }
        let next = StreamView { wire: after, fragments: parts[0], opcode: Some(opcode) };
        lemma_continuation(next, tail, rest);
        assert(joined(parts) =~= next.fragments + joined(tail));
    }
}

/// Whether two states differ at most in whether the message that is being
/// received is text or binary.
pub open spec fn alike(a: StreamView, b: StreamView) -> bool {
    &&& a.wire == b.wire
    &&& a.fragments == b.fragments
    &&& a.opcode is Some <==> b.opcode is Some
}

proof fn lemma_alike(a: StreamView, b: StreamView)
    requires
        alike(a, b),
    ensures
        ws::received(a).0 == ws::received(b).0,
        alike(ws::received(a).1, ws::received(b).1),
    decreases a.wire.len(),
{
    if let ParsedView::Frame { frame, used } = ws::parsed(a.wire) {
        let (end, next_a) = ws::absorbed(ws::after_bytes(a, used), frame);
        let (_, next_b) = ws::absorbed(ws::after_bytes(b, used), frame);
        if end is None {
            lemma_alike(next_a, next_b);
        }
    }
}

/// Text and binary frames are treated alike: the same payload comes out, however
/// the message goes on.
pub proof fn law_text_and_binary_are_alike(s: StreamView, fin: bool, payload: Seq<u8>, rest: Seq<u8>)
    requires
        payload.len() <= ws::MAX_FRAME_SIZE,
    ensures
        ({
            let text = StreamView { wire: server_frame(fin, 1, payload) + rest, ..s };
            let binary = StreamView { wire: server_frame(fin, 2, payload) + rest, ..s };
            &&& ws::received(text).0 == ws::received(binary).0
            &&& alike(ws::received(text).1, ws::received(binary).1)
        }),
{
    let text = StreamView { wire: server_frame(fin, 1, payload) + rest, ..s };
    let binary = StreamView { wire: server_frame(fin, 2, payload) + rest, ..s };
    lemma_after_frame(text, fin, 1, payload, rest);
    lemma_after_frame(binary, fin, 2, payload, rest);
    if s.opcode is None && !fin {
        lemma_alike(
            StreamView { wire: rest, fragments: payload, opcode: Some(1) },
            StreamView { wire: rest, fragments: payload, opcode: Some(2) },
        );
    }
}

/// A pong is passed over, between messages and inside one.
pub proof fn law_pong_is_ignored(s: StreamView, payload: Seq<u8>, rest: Seq<u8>)
    requires
        payload.len() <= ws::MAX_CONTROL_SIZE,
        s.wire == server_frame(true, 10, payload) + rest,
    ensures
        ws::received(s) == ws::received(StreamView { wire: rest, ..s }),
{
    lemma_after_frame(s, true, 10, payload, rest);
}

/// A ping asks for a pong with the same payload and leaves a message that is
/// being received as it is.
pub proof fn law_ping_is_answered(s: StreamView, payload: Seq<u8>, rest: Seq<u8>)
    requires
        payload.len() <= ws::MAX_CONTROL_SIZE,
        s.wire == server_frame(true, 9, payload) + rest,
    ensures
        ws::received(s) == (RecvView::Pong(payload), StreamView { wire: rest, ..s }),
{
    lemma_after_frame(s, true, 9, payload, rest);
}

/// A close frame ends the connection.
pub proof fn law_close_ends(s: StreamView, payload: Seq<u8>, rest: Seq<u8>)
    requires
        payload.len() <= ws::MAX_CONTROL_SIZE,
        s.wire == server_frame(true, 8, payload) + rest,
    ensures
        ws::received(s).0 is Closed,
{
    lemma_after_frame(s, true, 8, payload, rest);
}

/// A data frame inside a fragmented message, and a continuation outside one,
/// are refused.
pub proof fn law_fragments_do_not_nest(
    s: StreamView,
    fin: bool,
    opcode: u8,
    payload: Seq<u8>,
    rest: Seq<u8>,
)
    requires
        opcode <= 2,
        payload.len() <= ws::MAX_FRAME_SIZE,
        s.wire == server_frame(fin, opcode, payload) + rest,
        (opcode == 0) <==> (s.opcode is None),
    ensures
        ws::received(s).0 == RecvView::Fail(
            if opcode == 0 {
                WsError::OrphanContinuation
            } else {
                WsError::NestedData
            },
        ),
{
    lemma_after_frame(s, fin, opcode, payload, rest);
}

/// No frame of more than `MAX_FRAME_SIZE` bytes is accepted: the head is enough
/// to refuse it.
pub proof fn law_oversized_is_refused(wire: Seq<u8>)
    requires
        wire.len() >= 2,
        wire.len() >= 2 + ws::length_size(wire[1]),
        ws::payload_size(wire) > ws::MAX_FRAME_SIZE,
    ensures
        ws::parsed(wire) is Bad,
{
}

} // verus!
