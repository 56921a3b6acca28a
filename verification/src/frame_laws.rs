//! What WebSocket frames are, byte by byte, and what each frame does.

use crate::bytes;
use crate::text;
use crate::ws;
use crate::ws::{Parsed, ParsedView, Part, Recv, RecvView, StreamView, WsError, WsFrame};
use vstd::prelude::*;

verus! {

// ---------------------------------------------------------------- writing

/// A binary frame from a client: `0x82`, the length with the mask bit in one,
/// three or nine bytes, the mask, and the payload with the four bytes of the
/// mask taking turns.
pub proof fn law_binary_frame_bytes(payload: Seq<u8>, mask: Seq<u8>, i: int)
    requires
        mask.len() == 4,
        payload.len() <= u64::MAX,
        0 <= i < payload.len(),
    ensures
        ({
            let f = ws::binary_frame(payload, mask);
            let n = payload.len();
            let head: int = if n < 126 {
                2
            } else if n < 0x1_0000 {
                4
            } else {
                10
            };
            &&& f.len() == head + 4 + n
            &&& f[0] == 0x82
            &&& n < 126 ==> f[1] == 128 + n
            &&& 126 <= n < 0x1_0000 ==> f[1] == 254 && bytes::number2(f, 2) == n
            &&& n >= 0x1_0000 ==> f[1] == 255 && bytes::number8(f, 2) == n
            &&& f.subrange(head, head + 4) == mask
            &&& f[head + 4 + i] == payload[i] ^ mask[i % 4]
        }),
{
    law_binary_head_bytes(payload, mask);
    bytes::law_masked_bytes(payload, mask, i);
}

/// The same of the start of a binary frame, for an empty payload too.
pub proof fn law_binary_head_bytes(payload: Seq<u8>, mask: Seq<u8>)
    requires
        mask.len() == 4,
        payload.len() <= u64::MAX,
    ensures
        ({
            let f = ws::binary_frame(payload, mask);
            let n = payload.len();
            let head: int = if n < 126 {
                2
            } else if n < 0x1_0000 {
                4
            } else {
                10
            };
            &&& ws::binary_head(n).len() == head
            &&& f == ws::binary_head(n) + mask + bytes::masked(payload, mask)
            &&& f.len() == head + 4 + n
            &&& f[0] == 0x82
            &&& n < 126 ==> f[1] == 128 + n
            &&& 126 <= n < 0x1_0000 ==> f[1] == 254 && bytes::number2(f, 2) == n
            &&& n >= 0x1_0000 ==> f[1] == 255 && bytes::number8(f, 2) == n
            &&& f.subrange(head, head + 4) == mask
        }),
{
    let f = ws::binary_frame(payload, mask);
    let n = payload.len();
    bytes::law_be_bytes_digits(n);
    let h = ws::binary_head(n);
    if n >= 0x1_0000 {
        let b = bytes::be_bytes(n, 8);
        assert(forall|j: int| 0 <= j < 8 ==> f[2 + j] == #[trigger] b[j]);
    } else if n >= 126 {
        let b = bytes::be_bytes(n, 2);
        assert(forall|j: int| 0 <= j < 2 ==> f[2 + j] == #[trigger] b[j]);
    }
    let k = h.len() as int;
    assert(f.subrange(k, k + 4) =~= mask);
}

/// A control frame from a client: the opcode with the final bit, the length with
/// the mask bit, the mask, and the payload with the four bytes of the mask
/// taking turns.
pub proof fn law_control_frame_bytes(opcode: u8, payload: Seq<u8>, mask: Seq<u8>)
    requires
        opcode < 16,
        mask.len() == 4,
        payload.len() <= 125,
    ensures
        ({
            let f = ws::control_frame(opcode, payload, mask);
            &&& f.len() == 6 + payload.len()
            &&& f[0] == 128 + opcode
            &&& f[1] == 128 + payload.len()
            &&& f.subrange(2, 6) == mask
            &&& forall|i: int|
                0 <= i < payload.len() ==> f[6 + i] == #[trigger] payload[i] ^ mask[i % 4]
        }),
{
    let f = ws::control_frame(opcode, payload, mask);
    assert(0x80u8 | opcode == 128 + opcode) by (bit_vector)
        requires
            opcode < 16,
    ;
    assert(f.subrange(2, 6) =~= mask);
    assert forall|i: int| 0 <= i < payload.len() implies f[6 + i] == #[trigger] payload[i] ^ mask[i
        % 4] by {
        bytes::law_masked_bytes(payload, mask, i);
    }
}

// ---------------------------------------------------------------- reading

/// Where the mask or the payload of a frame starts: after two bytes, or after
/// two or eight more with the length.
pub open spec fn head_size(wire: Seq<u8>) -> int {
    if wire[1] % 128 == 126 {
        4
    } else if wire[1] % 128 == 127 {
        10
    } else {
        2
    }
}

/// The length of the payload that the start of a frame states.
pub open spec fn stated_size(wire: Seq<u8>) -> int {
    if wire[1] % 128 == 126 {
        bytes::number2(wire, 2)
    } else if wire[1] % 128 == 127 {
        bytes::number8(wire, 2)
    } else {
        (wire[1] % 128) as int
    }
}

/// Where the payload of a frame starts.
pub open spec fn body_at(wire: Seq<u8>) -> int {
    head_size(wire) + if wire[1] >= 128 {
        4int
    } else {
        0
    }
}

/// Whether a control frame is fragmented or has more than 125 bytes.
pub open spec fn is_bad_control(wire: Seq<u8>) -> bool {
    wire[0] % 16 >= 8 && (wire[0] < 128 || stated_size(wire) > 125)
}

proof fn lemma_stated_size(wire: Seq<u8>)
    requires
        wire.len() >= 2,
        wire.len() >= head_size(wire),
    ensures
        ws::payload_size(wire) == stated_size(wire),
        2 + ws::length_size(wire[1]) == head_size(wire),
        stated_size(wire) >= 0,
{
    bytes::law_be_value_digits(wire, 2);
}

/// A frame that is there whole is read as its bits say: the first bit of the
/// first byte, its last four bits, and as many bytes as the length states, each
/// combined with its byte of the mask where there is one.
pub proof fn law_whole_frame_is_read(wire: Seq<u8>)
    requires
        wire.len() >= 2,
        wire.len() >= head_size(wire),
        !is_bad_control(wire),
        stated_size(wire) <= 16_777_216,
        wire.len() >= body_at(wire) + stated_size(wire),
    ensures
        ({
            let at = body_at(wire);
            let n = stated_size(wire);
            &&& ws::parsed(wire) is Frame
            &&& ws::parsed(wire)->frame.fin == (wire[0] >= 128)
            &&& ws::parsed(wire)->frame.opcode == wire[0] % 16
            &&& ws::parsed(wire)->frame.payload.len() == n
            &&& ws::parsed(wire)->Frame_used == at + n
            &&& forall|i: int|
                0 <= i < n ==> #[trigger] ws::parsed(wire)->frame.payload[i] == if wire[1] >= 128 {
                    wire[at + i] ^ wire[at - 4 + i % 4]
                } else {
                    wire[at + i]
                }
        }),
{
    lemma_stated_size(wire);
}

/// A control frame that is fragmented or too long, and a frame of more than 16
/// MiB, are refused by their head, which is as long as the length field makes it.
pub proof fn law_bad_head_is_refused(wire: Seq<u8>)
    requires
        wire.len() >= 2,
        wire.len() >= head_size(wire),
    ensures
        is_bad_control(wire) ==> ws::parsed(wire) == (ParsedView::Bad {
            error: WsError::BadControl,
            used: head_size(wire) as nat,
        }),
        !is_bad_control(wire) && stated_size(wire) > 16_777_216 ==> ws::parsed(wire) == (
        ParsedView::Bad {
            error: WsError::TooLarge(stated_size(wire) as u64),
            used: head_size(wire) as nat,
        }),
        ws::parsed(wire) is Bad ==> is_bad_control(wire) || stated_size(wire) > 16_777_216,
{
    lemma_stated_size(wire);
}

/// Of a frame that is not there whole, the first part that is incomplete is
/// asked for, with exactly the bytes that it lacks.
pub proof fn law_incomplete_frame_is_asked_for(wire: Seq<u8>)
    ensures
        wire.len() == 0 ==> ws::parsed(wire) == (ParsedView::Need { part: Part::First, missing: 1 }),
        wire.len() == 1 ==> ws::parsed(wire) == (ParsedView::Need {
            part: Part::Second,
            missing: 1,
        }),
        2 <= wire.len() < head_size(wire) ==> ws::parsed(wire) == (ParsedView::Need {
            part: Part::Length,
            missing: (head_size(wire) - wire.len()) as nat,
        }),
        wire.len() >= 2 && head_size(wire) <= wire.len() < body_at(wire) && !is_bad_control(wire)
            && stated_size(wire) <= 16_777_216 ==> ws::parsed(wire) == (ParsedView::Need {
            part: Part::Mask,
            missing: (body_at(wire) - wire.len()) as nat,
        }),
        wire.len() >= 2 && body_at(wire) <= wire.len() < body_at(wire) + stated_size(wire)
            && !is_bad_control(wire) && stated_size(wire) <= 16_777_216 ==> ws::parsed(wire) == (
        ParsedView::Need {
            part: Part::Payload,
            missing: (body_at(wire) + stated_size(wire) - wire.len()) as nat,
        }),
{
    if wire.len() >= 2 && wire.len() >= head_size(wire) {
        lemma_stated_size(wire);
    }
}

// ---------------------------------------------------------------- the effect of a frame

/// The state once the frame at the start of the wire has been taken.
pub open spec fn rest_of(s: StreamView) -> Seq<u8> {
    s.wire.skip(ws::parsed(s.wire)->Frame_used as int)
}

/// A whole message in one frame comes out as it is, and nothing else changes.
pub proof fn law_single_frame_is_the_message(s: StreamView)
    requires
        ws::parsed(s.wire) is Frame,
        ws::parsed(s.wire)->frame.fin,
        ws::parsed(s.wire)->frame.opcode == 1 || ws::parsed(s.wire)->frame.opcode == 2,
        s.opcode is None,
    ensures
        ws::received(s).0 == RecvView::Message(ws::parsed(s.wire)->frame.payload),
        ws::received(s).1.wire == rest_of(s),
        ws::received(s).1.fragments == s.fragments,
        ws::received(s).1.opcode is None,
{
}

/// The first fragment of a message is kept, and receiving goes on with what
/// follows it.
pub proof fn law_first_fragment_is_kept(s: StreamView)
    requires
        ws::parsed(s.wire) is Frame,
        !ws::parsed(s.wire)->frame.fin,
        ws::parsed(s.wire)->frame.opcode == 1 || ws::parsed(s.wire)->frame.opcode == 2,
        s.opcode is None,
    ensures
        ws::received(s) == ws::received(
            StreamView {
                wire: rest_of(s),
                fragments: ws::parsed(s.wire)->frame.payload,
                opcode: Some(ws::parsed(s.wire)->frame.opcode),
            },
        ),
{
}

/// A further fragment is put behind those before it; the last one completes the
/// message.
pub proof fn law_next_fragment_is_appended(s: StreamView)
    requires
        ws::parsed(s.wire) is Frame,
        ws::parsed(s.wire)->frame.opcode == 0,
        s.opcode is Some,
    ensures
        ws::parsed(s.wire)->frame.fin ==> {
            &&& ws::received(s).0 == RecvView::Message(
                s.fragments + ws::parsed(s.wire)->frame.payload,
            )
            &&& ws::received(s).1.wire == rest_of(s)
            &&& ws::received(s).1.fragments.len() == 0
            &&& ws::received(s).1.opcode is None
        },
        !ws::parsed(s.wire)->frame.fin ==> ws::received(s) == ws::received(
            StreamView {
                wire: rest_of(s),
                fragments: s.fragments + ws::parsed(s.wire)->frame.payload,
                opcode: s.opcode,
            },
        ),
{
}

/// Control frames do not touch the message that is being received: a close ends
/// the round, a ping asks for a pong with its payload, a pong is passed over.
pub proof fn law_control_frames_leave_the_message(s: StreamView)
    requires
        ws::parsed(s.wire) is Frame,
    ensures
        ({
            let f = ws::parsed(s.wire)->frame;
            let next = StreamView { wire: rest_of(s), fragments: s.fragments, opcode: s.opcode };
            &&& f.opcode == 8 ==> ws::received(s) == (RecvView::Closed, next)
            &&& f.opcode == 9 ==> ws::received(s) == (RecvView::Pong(f.payload), next)
            &&& f.opcode == 10 ==> ws::received(s) == ws::received(next)
        }),
{
}

/// A frame that is out of place or has an opcode without a meaning is refused.
pub proof fn law_misplaced_frames_are_refused(s: StreamView)
    requires
        ws::parsed(s.wire) is Frame,
    ensures
        ({
            let op = ws::parsed(s.wire)->frame.opcode;
            &&& op == 0 && s.opcode is None ==> ws::received(s).0 == RecvView::Fail(
                WsError::OrphanContinuation,
            )
            &&& (op == 1 || op == 2) && s.opcode is Some ==> ws::received(s).0 == RecvView::Fail(
                WsError::NestedData,
            )
            &&& 3 <= op <= 7 || op >= 11 ==> ws::received(s).0 == RecvView::Fail(
                WsError::UnknownOpcode(op),
            )
            &&& ws::received(s).0 is Fail && (op == 0 && s.opcode is None || 1 <= op <= 2
                && s.opcode is Some || 3 <= op <= 7 || op >= 11) ==> ws::received(s).1 == (
            StreamView { wire: rest_of(s), fragments: s.fragments, opcode: s.opcode })
        }),
{
}

/// Without a whole frame at hand nothing changes but that a refused head is
/// taken off the wire.
pub proof fn law_no_frame_no_change(s: StreamView)
    ensures
        ws::parsed(s.wire) is Need ==> ws::received(s) == (
            RecvView::Read {
                part: ws::parsed(s.wire)->part,
                missing: ws::parsed(s.wire)->missing,
            },
            s,
        ),
        ws::parsed(s.wire) is Bad ==> ws::received(s) == (
            RecvView::Fail(ws::parsed(s.wire)->error),
            StreamView {
                wire: s.wire.skip(ws::parsed(s.wire)->Bad_used as int),
                fragments: s.fragments,
                opcode: s.opcode,
            },
        ),
{
}

/// What is stated of frames and outcomes is stated of the values themselves.
pub proof fn law_views_are_the_values(f: WsFrame, p: Parsed, r: Result<Recv, WsError>)
    ensures
        f@.fin == f.fin && f@.opcode == f.opcode && f@.payload == f.payload@,
        match p {
            Parsed::Need { part, missing } => p@ == (ParsedView::Need {
                part,
                missing: missing as nat,
            }),
            Parsed::Bad { error, used } => p@ == (ParsedView::Bad { error, used: used as nat }),
            Parsed::Frame { frame, used } => p@ is Frame && p@->Frame_used == used
                && p@->frame.fin == frame.fin && p@->frame.opcode == frame.opcode
                && p@->frame.payload == frame.payload@,
        },
        match r {
            Ok(Recv::Read { part, missing }) => ws::recv_view(r) == (RecvView::Read {
                part,
                missing: missing as nat,
            }),
            Ok(Recv::Pong(v)) => ws::recv_view(r) == RecvView::Pong(v@),
            Ok(Recv::Message(v)) => ws::recv_view(r) == RecvView::Message(v@),
            Ok(Recv::Closed) => ws::recv_view(r) == RecvView::Closed,
            Err(e) => ws::recv_view(r) == RecvView::Fail(e),
        },
{
}

/// The state of a connection is well formed where fragments are held only inside
/// a text or binary message.
pub proof fn law_well_formed_streams(s: StreamView)
    ensures
        s.opcode is None ==> (s.well_formed() <==> s.fragments.len() == 0),
        s.opcode is Some ==> (s.well_formed() <==> s.opcode == Some(1u8) || s.opcode == Some(2u8)),
{
}

/// What each error tells the reader of a log.
pub proof fn law_connection_error_texts(text: String, op: u8, n: u64)
    ensures
        ws::error_text(WsError::NotWss) == "仅支持 wss:// 地址"@,
        ws::error_text(WsError::BadPort) == "端口无效"@,
        ws::error_text(WsError::BadHost(text)) == "无效的主机名: "@ + text@,
        ws::error_text(WsError::HandshakeClosed) == "握手时连接关闭"@,
        ws::error_text(WsError::HandshakeTooLarge) == "握手响应过大"@,
        ws::error_text(WsError::Rejected(text)) == "WebSocket 握手失败: "@ + text@,
        ws::error_text(WsError::BadAccept)
            == "WebSocket 握手缺少有效的 Sec-WebSocket-Accept"@,
        ws::error_text(WsError::OrphanContinuation)
            == "收到没有起始帧的 continuation 帧"@,
        ws::error_text(WsError::NestedData) == "收到嵌套的 WebSocket 数据帧"@,
        ws::error_text(WsError::UnknownOpcode(op)) == "未知 WebSocket opcode: "@
            + text::decimal(op as nat),
        ws::error_text(WsError::ControlTooLarge) == "WebSocket 控制帧过大"@,
        ws::error_text(WsError::BadControl) == "非法 WebSocket 控制帧"@,
        ws::error_text(WsError::TooLarge(n)) == "WebSocket 帧过大: "@ + text::decimal(n as nat)
            + " 字节"@,
        ws::error_text(WsError::HeaderIncomplete) == "帧头不完整"@,
        ws::error_text(WsError::LengthIncomplete) == "帧长不完整"@,
        ws::error_text(WsError::MaskIncomplete) == "掩码不完整"@,
        ws::error_text(WsError::PayloadIncomplete) == "帧数据不完整"@,
{
}

} // verus!
