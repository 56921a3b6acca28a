//! WebSocket frames and messages.
//!
//! Text frames carry binary protocol headers here, so their payload is taken
//! as raw bytes like that of binary frames.

use crate::bytes;
use crate::outside::random_uuid;
use crate::text;
use vstd::prelude::*;
use vstd::slice::slice_subrange;
use vstd::string::*;

verus! {

/// The largest payload that is accepted in one frame.
pub const MAX_FRAME_SIZE: u64 = 16_777_216;

/// The largest payload of a control frame.
pub const MAX_CONTROL_SIZE: u64 = 125;

/// What can go wrong on a WebSocket connection.
#[derive(Debug, PartialEq, Eq)]
pub enum WsError {
    /// The address does not start with `wss://`.
    NotWss,
    /// The port of the address is not a number below 65536.
    BadPort,
    /// The host of the address is no server name.
    BadHost(String),
    /// The connection ended during the handshake.
    HandshakeClosed,
    /// The answer to the handshake is too long.
    HandshakeTooLarge,
    /// The server did not switch protocols; the start of its answer.
    Rejected(String),
    /// The server did not prove that it read the key.
    BadAccept,
    /// A continuation frame came without a frame to continue.
    OrphanContinuation,
    /// A data frame came inside a fragmented message.
    NestedData,
    /// A frame has an opcode without a meaning.
    UnknownOpcode(u8),
    /// A control frame to be sent is too long.
    ControlTooLarge,
    /// A received control frame is fragmented or too long.
    BadControl,
    /// A received frame is longer than `MAX_FRAME_SIZE`.
    TooLarge(u64),
    /// The stream ended after the first byte of a frame.
    HeaderIncomplete,
    /// The stream ended inside the extended length.
    LengthIncomplete,
    /// The stream ended inside the mask.
    MaskIncomplete,
    /// The stream ended inside the payload.
    PayloadIncomplete,
}

/// What an error tells the reader of a log.
pub open spec fn error_text(e: WsError) -> Seq<char> {
    match e {
        WsError::NotWss => "仅支持 wss:// 地址"@,
        WsError::BadPort => "端口无效"@,
        WsError::BadHost(host) => "无效的主机名: "@ + host@,
        WsError::HandshakeClosed => "握手时连接关闭"@,
        WsError::HandshakeTooLarge => "握手响应过大"@,
        WsError::Rejected(head) => "WebSocket 握手失败: "@ + head@,
        WsError::BadAccept => "WebSocket 握手缺少有效的 Sec-WebSocket-Accept"@,
        WsError::OrphanContinuation => "收到没有起始帧的 continuation 帧"@,
        WsError::NestedData => "收到嵌套的 WebSocket 数据帧"@,
        WsError::UnknownOpcode(op) => "未知 WebSocket opcode: "@ + text::decimal(op as nat),
        WsError::ControlTooLarge => "WebSocket 控制帧过大"@,
        WsError::BadControl => "非法 WebSocket 控制帧"@,
        WsError::TooLarge(n) => "WebSocket 帧过大: "@ + text::decimal(n as nat) + " 字节"@,
        WsError::HeaderIncomplete => "帧头不完整"@,
        WsError::LengthIncomplete => "帧长不完整"@,
        WsError::MaskIncomplete => "掩码不完整"@,
        WsError::PayloadIncomplete => "帧数据不完整"@,
    }
}

impl WsError {
    /// What the error tells the reader of a log.
    pub fn message(&self) -> (r: String)
        ensures
            r@ == error_text(*self),
    {
        let mut s: String = String::new();
        match self {
            WsError::NotWss => s.append("仅支持 wss:// 地址"),
            WsError::BadPort => s.append("端口无效"),
            WsError::BadHost(host) => {
                s.append("无效的主机名: ");
                s.append(host.as_str());
            },
            WsError::HandshakeClosed => s.append("握手时连接关闭"),
            WsError::HandshakeTooLarge => s.append("握手响应过大"),
            WsError::Rejected(head) => {
                s.append("WebSocket 握手失败: ");
                s.append(head.as_str());
            },
            WsError::BadAccept => s.append("WebSocket 握手缺少有效的 Sec-WebSocket-Accept"),
            WsError::OrphanContinuation => s.append("收到没有起始帧的 continuation 帧"),
            WsError::NestedData => s.append("收到嵌套的 WebSocket 数据帧"),
            WsError::UnknownOpcode(op) => {
                s.append("未知 WebSocket opcode: ");
                text::push_decimal(&mut s, *op as u64);
            },
            WsError::ControlTooLarge => s.append("WebSocket 控制帧过大"),
            WsError::BadControl => s.append("非法 WebSocket 控制帧"),
            WsError::TooLarge(n) => {
                s.append("WebSocket 帧过大: ");
                text::push_decimal(&mut s, *n);
                s.append(" 字节");
            },
            WsError::HeaderIncomplete => s.append("帧头不完整"),
            WsError::LengthIncomplete => s.append("帧长不完整"),
            WsError::MaskIncomplete => s.append("掩码不完整"),
            WsError::PayloadIncomplete => s.append("帧数据不完整"),
        }
        assert(s@ =~= error_text(*self));
        s
    }
}

/// A part of a frame on the wire.
#[derive(Debug, Clone, Copy, PartialEq, Eq, Structural)]
pub enum Part {
    First,
    Second,
    Length,
    Mask,
    Payload,
}

/// A frame, with its payload unmasked.
#[derive(Debug, PartialEq, Eq)]
pub struct WsFrame {
    pub fin: bool,
    pub opcode: u8,
    pub payload: Vec<u8>,
}

/// What a frame says.
pub struct FrameView {
    pub fin: bool,
    pub opcode: u8,
    pub payload: Seq<u8>,
}

impl View for WsFrame {
    type V = FrameView;

    open spec fn view(&self) -> FrameView {
        FrameView { fin: self.fin, opcode: self.opcode, payload: self.payload@ }
    }
}

/// What the bytes at hand amount to.
#[derive(Debug, PartialEq, Eq)]
pub enum Parsed {
    /// `missing` more bytes complete the named part.
    Need { part: Part, missing: usize },
    /// The first `used` bytes are a head that no frame may have.
    Bad { error: WsError, used: usize },
    /// The first `used` bytes are a frame.
    Frame { frame: WsFrame, used: usize },
}

/// What a byte sequence amounts to.
pub enum ParsedView {
    Need { part: Part, missing: nat },
    Bad { error: WsError, used: nat },
    Frame { frame: FrameView, used: nat },
}

impl View for Parsed {
    type V = ParsedView;

    open spec fn view(&self) -> ParsedView {
        match self {
            Parsed::Need { part, missing } => ParsedView::Need {
                part: *part,
                missing: *missing as nat,
            },
            Parsed::Bad { error, used } => ParsedView::Bad { error: *error, used: *used as nat },
            Parsed::Frame { frame, used } => ParsedView::Frame {
                frame: frame@,
                used: *used as nat,
            },
        }
    }
}

// ---------------------------------------------------------------- the format

/// How many bytes of extended length follow the second byte `b1`.
pub open spec fn length_size(b1: u8) -> nat {
    if b1 % 128 == 126 {
        2
    } else if b1 % 128 == 127 {
        8
    } else {
        0
    }
}

/// How many bytes of mask a frame with the second byte `b1` has.
pub open spec fn mask_size(b1: u8) -> nat {
    if b1 >= 128 {
        4
    } else {
        0
    }
}

/// The payload length that the start of a frame gives.
pub open spec fn payload_size(wire: Seq<u8>) -> nat {
    if length_size(wire[1]) == 0 {
        (wire[1] % 128) as nat
    } else {
        bytes::be_value(wire.subrange(2, 2 + length_size(wire[1]) as int))
    }
}

/// What `wire` starts with: a frame, an error, or the part of a frame that is
/// not complete yet.
pub open spec fn parsed(wire: Seq<u8>) -> ParsedView {
    if wire.len() < 1 {
        ParsedView::Need { part: Part::First, missing: 1 }
    } else if wire.len() < 2 {
        ParsedView::Need { part: Part::Second, missing: 1 }
    } else {
        let fin = wire[0] >= 128;
        let opcode = wire[0] % 16;
        let head = 2 + length_size(wire[1]);
        if wire.len() < head {
            ParsedView::Need { part: Part::Length, missing: (head - wire.len()) as nat }
        } else {
            let size = payload_size(wire);
            let body = head + mask_size(wire[1]);
            if opcode >= 8 && (!fin || size > MAX_CONTROL_SIZE) {
                ParsedView::Bad { error: WsError::BadControl, used: head }
            } else if size > MAX_FRAME_SIZE {
                ParsedView::Bad { error: WsError::TooLarge(size as u64), used: head }
            } else if wire.len() < body {
                ParsedView::Need { part: Part::Mask, missing: (body - wire.len()) as nat }
            } else if wire.len() < body + size {
                ParsedView::Need {
                    part: Part::Payload,
                    missing: (body + size - wire.len()) as nat,
                }
            } else {
                let raw = wire.subrange(body as int, (body + size) as int);
                let payload = if wire[1] >= 128 {
                    bytes::masked(raw, wire.subrange(head as int, body as int))
                } else {
                    raw
                };
                ParsedView::Frame { frame: FrameView { fin, opcode, payload }, used: body + size }
            }
        }
    }
}

/// The unmasked start of a final binary frame from a client.
pub open spec fn binary_head(size: nat) -> Seq<u8> {
    if size < 126 {
        seq![0x82u8, (128 + size) as u8]
    } else if size <= 0xFFFF {
        seq![0x82u8, 254u8] + bytes::be_bytes(size, 2)
    } else {
        seq![0x82u8, 255u8] + bytes::be_bytes(size, 8)
    }
}

/// A final binary frame from a client.
pub open spec fn binary_frame(payload: Seq<u8>, mask: Seq<u8>) -> Seq<u8> {
    binary_head(payload.len()) + mask + bytes::masked(payload, mask)
}

/// A control frame from a client.
pub open spec fn control_frame(opcode: u8, payload: Seq<u8>, mask: Seq<u8>) -> Seq<u8> {
    seq![0x80u8 | opcode, (128 + payload.len()) as u8] + mask + bytes::masked(payload, mask)
}

// ---------------------------------------------------------------- reading

/// Reads the frame that `wire` starts with.
pub fn parse_frame(wire: &[u8]) -> (r: Parsed)
    ensures
        r@ == parsed(wire@),
{
    let n: usize = wire.len();
    if n < 1 {
        return Parsed::Need { part: Part::First, missing: 1 };
    }
    if n < 2 {
        return Parsed::Need { part: Part::Second, missing: 1 };
    }
    let b0: u8 = wire[0];
    let b1: u8 = wire[1];
    let fin: bool = b0 >= 128;
    let opcode: u8 = b0 % 16;
    let short: u8 = b1 % 128;
    let head: usize = if short == 126 {
        4
    } else if short == 127 {
        10
    } else {
        2
    };
    if n < head {
        return Parsed::Need { part: Part::Length, missing: head - n };
    }
    let size: u64 = if head == 2 {
        short as u64
    } else {
        bytes::read_be(slice_subrange(wire, 2, head))
    };
    if opcode >= 8 && (!fin || size > MAX_CONTROL_SIZE) {
        return Parsed::Bad { error: WsError::BadControl, used: head };
    }
    if size > MAX_FRAME_SIZE {
        return Parsed::Bad { error: WsError::TooLarge(size), used: head };
    }
    let is_masked: bool = b1 >= 128;
    let body: usize = if is_masked {
        head + 4
    } else {
        head
    };
    if n < body {
        return Parsed::Need { part: Part::Mask, missing: body - n };
    }
    let end: usize = body + size as usize;
    if n < end {
        return Parsed::Need { part: Part::Payload, missing: end - n };
    }
    let payload: Vec<u8> = if is_masked {
        let mask: [u8; 4] = [wire[head], wire[head + 1], wire[head + 2], wire[head + 3]];
        proof {
            assert(mask@ =~= wire@.subrange(head as int, body as int));
        }
        bytes::apply_mask(slice_subrange(wire, body, end), &mask)
    } else {
        bytes::copy_range(wire, body, end)
    };
    Parsed::Frame { frame: WsFrame { fin, opcode, payload }, used: end }
}

// ---------------------------------------------------------------- writing

/// A mask for one frame, from the operating system's random source.
fn random_mask() -> (mask: [u8; 4]) {
    let id: [u8; 16] = random_uuid();
    mask_of(&id)
}

/// The mask that random bytes give: the first four of them.
pub fn mask_of(id: &[u8; 16]) -> (mask: [u8; 4])
    ensures
        mask@ == id@.take(4),
{
    let mask: [u8; 4] = [id[0], id[1], id[2], id[3]];
    assert(mask@ =~= id@.take(4));
    mask
}

/// A binary frame: its head with the mask, and its masked payload.
pub fn encode_binary(payload: &[u8], mask: &[u8; 4]) -> (r: (Vec<u8>, Vec<u8>))
    ensures
        r.0@ == binary_head(payload@.len()) + mask@,
        r.1@ == bytes::masked(payload@, mask@),
{
    let n: usize = payload.len();
    let mut head: Vec<u8> = Vec::new();
    head.push(0x82);
    if n < 126 {
        head.push(128 + n as u8);
    } else if n <= 0xFFFF {
        head.push(254);
        bytes::push_be(&mut head, n as u64, 2);
    } else {
        head.push(255);
        bytes::push_be(&mut head, n as u64, 8);
    }
    assert(head@ =~= binary_head(n as nat));
    bytes::append_bytes(&mut head, mask.as_slice());
    (head, bytes::apply_mask(payload, mask))
}

/// A control frame, unless the payload is too long.
pub fn encode_control(opcode: u8, payload: &[u8], mask: &[u8; 4]) -> (r: Result<Vec<u8>, WsError>)
    ensures
        payload@.len() > MAX_CONTROL_SIZE ==> r == Err::<Vec<u8>, WsError>(
            WsError::ControlTooLarge,
        ),
        payload@.len() <= MAX_CONTROL_SIZE ==> r is Ok && r->Ok_0@ == control_frame(
            opcode,
            payload@,
            mask@,
        ),
{
    if payload.len() > 125 {
        return Err(WsError::ControlTooLarge);
    }
    let mut frame: Vec<u8> = Vec::new();
    frame.push(0x80u8 | opcode);
    frame.push(128 + payload.len() as u8);
    bytes::append_bytes(&mut frame, mask.as_slice());
    let body: Vec<u8> = bytes::apply_mask(payload, mask);
    bytes::append_bytes(&mut frame, body.as_slice());
    assert(frame@ =~= control_frame(opcode, payload@, mask@));
    Ok(frame)
}

// ---------------------------------------------------------------- messages

/// What the reader of a connection does next.
#[derive(Debug, PartialEq, Eq)]
pub enum Recv {
    /// Read exactly `missing` more bytes, which belong to `part`.
    Read { part: Part, missing: usize },
    /// Answer a ping with this payload, then go on.
    Pong(Vec<u8>),
    /// A whole message.
    Message(Vec<u8>),
    /// The peer closed the connection.
    Closed,
}

/// How one round of receiving ends.
pub enum RecvView {
    Read { part: Part, missing: nat },
    Pong(Seq<u8>),
    Message(Seq<u8>),
    Closed,
    Fail(WsError),
}

/// The view of a result of `WsStream::recv`.
pub open spec fn recv_view(r: Result<Recv, WsError>) -> RecvView {
    match r {
        Ok(Recv::Read { part, missing }) => RecvView::Read { part, missing: missing as nat },
        Ok(Recv::Pong(p)) => RecvView::Pong(p@),
        Ok(Recv::Message(m)) => RecvView::Message(m@),
        Ok(Recv::Closed) => RecvView::Closed,
        Err(e) => RecvView::Fail(e),
    }
}

/// The receiving side of a connection.
#[derive(Debug)]
pub struct WsStream {
    /// Bytes that were read and do not belong to a processed frame.
    wire_buf: Vec<u8>,
    /// The fragments of the message that is being received.
    recv_buf: Vec<u8>,
    /// The opcode of the message that is being received.
    recv_opcode: Option<u8>,
}

/// The receiving side of a connection.
#[verifier::ext_equal]
pub struct StreamView {
    pub wire: Seq<u8>,
    pub fragments: Seq<u8>,
    pub opcode: Option<u8>,
}

impl StreamView {
    /// Fragments are held only inside a message, and a message is text or binary.
    pub open spec fn well_formed(self) -> bool {
        match self.opcode {
            None => self.fragments.len() == 0,
            Some(op) => op == 1 || op == 2,
        }
    }
}

impl View for WsStream {
    type V = StreamView;

    closed spec fn view(&self) -> StreamView {
        StreamView {
            wire: self.wire_buf@,
            fragments: self.recv_buf@,
            opcode: self.recv_opcode,
        }
    }
}

/// The effect of one frame: how the round ends, if it does, and the new state.
pub open spec fn absorbed(s: StreamView, f: FrameView) -> (Option<RecvView>, StreamView) {
    if f.opcode == 0 {
        if s.opcode is None {
            (Some(RecvView::Fail(WsError::OrphanContinuation)), s)
        } else {
            let whole = s.fragments + f.payload;
            if f.fin {
                (
                    Some(RecvView::Message(whole)),
                    StreamView { wire: s.wire, fragments: seq![], opcode: None },
                )
            } else {
                (None, StreamView { wire: s.wire, fragments: whole, opcode: s.opcode })
            }
        }
    } else if f.opcode == 1 || f.opcode == 2 {
        if s.opcode is Some {
            (Some(RecvView::Fail(WsError::NestedData)), s)
        } else if f.fin {
            (Some(RecvView::Message(f.payload)), s)
        } else {
            (None, StreamView { wire: s.wire, fragments: f.payload, opcode: Some(f.opcode) })
        }
    } else if f.opcode == 8 {
        (Some(RecvView::Closed), s)
    } else if f.opcode == 9 {
        (Some(RecvView::Pong(f.payload)), s)
    } else if f.opcode == 10 {
        (None, s)
    } else {
        (Some(RecvView::Fail(WsError::UnknownOpcode(f.opcode))), s)
    }
}

/// The state after the first `used` bytes of the wire have been taken.
pub open spec fn after_bytes(s: StreamView, used: nat) -> StreamView {
    StreamView { wire: s.wire.skip(used as int), fragments: s.fragments, opcode: s.opcode }
}

/// One round of receiving: frames are absorbed until one ends the round or the
/// bytes at hand do not hold another frame. A head that is refused is taken off
/// the wire.
pub open spec fn received(s: StreamView) -> (RecvView, StreamView)
    decreases s.wire.len(),
{
    match parsed(s.wire) {
        ParsedView::Need { part, missing } => (RecvView::Read { part, missing }, s),
        ParsedView::Bad { error, used } => (RecvView::Fail(error), after_bytes(s, used)),
        ParsedView::Frame { frame, used } => {
            let (end, next) = absorbed(after_bytes(s, used), frame);
            match end {
                Some(outcome) => (outcome, next),
                None => received(next),
            }
        },
    }
}

impl WsStream {
    /// A connection on which `leftover` has been read already.
    pub fn new(leftover: Vec<u8>) -> (r: WsStream)
        ensures
            r@ == (StreamView { wire: leftover@, fragments: seq![], opcode: None }),
            r@.well_formed(),
    {
        WsStream { wire_buf: leftover, recv_buf: Vec::new(), recv_opcode: None }
    }

    /// Adds bytes that were read from the peer.
    pub fn supply(&mut self, data: &[u8])
        ensures
            final(self)@ == (StreamView { wire: old(self)@.wire + data@, ..old(self)@ }),
    {
        bytes::append_bytes(&mut self.wire_buf, data);
    }

    /// What it means that the peer has ended the stream where bytes of `part`
    /// were wanted: a clean end between two frames, an error inside one.
    pub fn ended(part: Part) -> (r: Result<(), WsError>)
        ensures
            r is Ok <==> part == Part::First,
            part == Part::Second ==> r == Err::<(), WsError>(WsError::HeaderIncomplete),
            part == Part::Length ==> r == Err::<(), WsError>(WsError::LengthIncomplete),
            part == Part::Mask ==> r == Err::<(), WsError>(WsError::MaskIncomplete),
            part == Part::Payload ==> r == Err::<(), WsError>(WsError::PayloadIncomplete),
    {
        match part {
            Part::First => Ok(()),
            Part::Second => Err(WsError::HeaderIncomplete),
            Part::Length => Err(WsError::LengthIncomplete),
            Part::Mask => Err(WsError::MaskIncomplete),
            Part::Payload => Err(WsError::PayloadIncomplete),
        }
    }

    /// A binary frame with a fresh random mask: its head with the mask, and its
    /// masked payload.
    pub fn send_binary(payload: &[u8]) -> (r: (Vec<u8>, Vec<u8>))
        ensures
            exists|mask: Seq<u8>| #[trigger]
                binary_frame(payload@, mask) == r.0@ + r.1@ && mask.len() == 4 && r.0@
                    == binary_head(payload@.len()) + mask,
    {
        let mask: [u8; 4] = random_mask();
        let r = encode_binary(payload, &mask);
        assert(binary_frame(payload@, mask@) =~= r.0@ + r.1@);
        r
    }

    /// A control frame with a fresh random mask, unless the payload is too long.
    pub fn send_control(opcode: u8, payload: &[u8]) -> (r: Result<Vec<u8>, WsError>)
        ensures
            payload@.len() > MAX_CONTROL_SIZE ==> r == Err::<Vec<u8>, WsError>(
                WsError::ControlTooLarge,
            ),
            payload@.len() <= MAX_CONTROL_SIZE ==> r is Ok && exists|mask: Seq<u8>|
                mask.len() == 4 && r->Ok_0@ == #[trigger] control_frame(opcode, payload@, mask),
    {
        let mask: [u8; 4] = random_mask();
        encode_control(opcode, payload, &mask)
    }

    /// Receives until there is a message, an answer to send, an end, or a need
    /// for more bytes.
    pub fn recv(&mut self) -> (r: Result<Recv, WsError>)
        requires
            old(self)@.well_formed(),
        ensures
            (recv_view(r), final(self)@) == received(old(self)@),
            final(self)@.well_formed(),
    {
        loop
            invariant
                self@.well_formed(),
                received(self@) == received(old(self)@),
            decreases self@.wire.len(),
        {
            match parse_frame(self.wire_buf.as_slice()) {
                Parsed::Need { part, missing } => {
                    return Ok(Recv::Read { part, missing });
                },
                Parsed::Bad { error, used } => {
                    let ghost start = self@;
                    let rest: Vec<u8> = self.wire_buf.split_off(used);
                    self.wire_buf = rest;
                    assert(self@ =~= after_bytes(start, used as nat));
                    return Err(error);
                },
                Parsed::Frame { frame, used } => {
                    let ghost start = self@;
                    let rest: Vec<u8> = self.wire_buf.split_off(used);
                    self.wire_buf = rest;
                    assert(self@ =~= after_bytes(start, used as nat));
                    if frame.opcode == 0 {
                        if self.recv_opcode.is_none() {
                            return Err(WsError::OrphanContinuation);
                        }
                        bytes::append_bytes(&mut self.recv_buf, frame.payload.as_slice());
                        if frame.fin {
                            self.recv_opcode = None;
                            let mut whole: Vec<u8> = Vec::new();
                            std::mem::swap(&mut whole, &mut self.recv_buf);
                            return Ok(Recv::Message(whole));
                        }
                    } else if frame.opcode == 1 || frame.opcode == 2 {
                        if self.recv_opcode.is_some() {
                            return Err(WsError::NestedData);
                        }
                        if frame.fin {
                            return Ok(Recv::Message(frame.payload));
                        }
                        self.recv_opcode = Some(frame.opcode);
                        self.recv_buf = frame.payload;
                    } else if frame.opcode == 8 {
                        return Ok(Recv::Closed);
                    } else if frame.opcode == 9 {
                        return Ok(Recv::Pong(frame.payload));
                    } else if frame.opcode != 10 {
                        return Err(WsError::UnknownOpcode(frame.opcode));
                    }
                },
            }
        }
    }
}

} // verus!
