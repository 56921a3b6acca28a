//! The streaming speech recognition service.
//!
//! A request is a four-byte head, a sequence number, the length of the body
//! and the gzip-compressed body. The last request of a stream has a negative
//! sequence number. A reply is a head of a stated size, a sequence number where
//! the head says so, and a payload with its length before it.

use crate::bytes;
use crate::config::AsrConfig;
use crate::outside;
use crate::outside::{
    gzip_compress, gzip_decompress, json_members, json_render, random_uuid, text_lossy, JsonScalar,
    ScalarView,
};
use crate::text;
use vstd::prelude::*;
use vstd::slice::slice_subrange;
use vstd::string::*;
use vstd::utf8;

verus! {

/// The request that opens a stream.
pub const MSG_FULL_REQUEST: u8 = 0b0001;

/// A request with audio.
pub const MSG_AUDIO_ONLY: u8 = 0b0010;

/// A reply with a result.
pub const MSG_SERVER_FULL_RESPONSE: u8 = 0b1001;

/// A reply that reports a protocol error.
pub const MSG_SERVER_ERROR: u8 = 0b1111;

/// The request has a positive sequence number.
pub const FLAG_POS_SEQUENCE: u8 = 0b0001;

/// The request is the last one and has a negative sequence number.
pub const FLAG_NEG_WITH_SEQUENCE: u8 = 0b0011;

/// The body is JSON.
pub const SERIALIZATION_JSON: u8 = 0b0001;

/// The body is compressed.
pub const COMPRESSION_GZIP: u8 = 0b0001;

/// Where the service is.
pub const ASR_URL: &'static str = "wss://openspeech.bytedance.com/api/v3/sauc/bigmodel_nostream";

/// How many seconds a reply is waited for.
pub const REPLY_TIMEOUT_SECS: u64 = 20;

/// Why a stream failed.
#[derive(Debug, PartialEq, Eq)]
pub enum AsrError {
    /// A body could not be compressed.
    Compress,
    /// A body could not be decompressed.
    Decompress,
    /// The connection failed while a reply was waited for.
    Receive(String),
    /// The service reported a protocol error.
    Protocol(String),
    /// A reply is not JSON.
    BadReply(String),
    /// The service reported an error of its own.
    Service { code: i64, message: String },
}

/// Why a stream failed.
pub enum ErrorView {
    Compress,
    Decompress,
    Receive(Seq<char>),
    Protocol(Seq<char>),
    BadReply(Seq<char>),
    Service { code: i64, message: Seq<char> },
}

impl View for AsrError {
    type V = ErrorView;

    open spec fn view(&self) -> ErrorView {
        match self {
            AsrError::Compress => ErrorView::Compress,
            AsrError::Decompress => ErrorView::Decompress,
            AsrError::Receive(s) => ErrorView::Receive(s@),
            AsrError::Protocol(s) => ErrorView::Protocol(s@),
            AsrError::BadReply(s) => ErrorView::BadReply(s@),
            AsrError::Service { code, message } => ErrorView::Service {
                code: *code,
                message: message@,
            },
        }
    }
}

/// What an error tells the reader of a log.
pub open spec fn error_text(e: ErrorView) -> Seq<char> {
    match e {
        ErrorView::Compress => "gzip 压缩失败"@,
        ErrorView::Decompress => "gzip 解压失败"@,
        ErrorView::Receive(s) => "接收 ASR 结果失败: "@ + s,
        ErrorView::Protocol(s) => "ASR 协议错误: "@ + s,
        ErrorView::BadReply(s) => "解析 ASR 响应失败: "@ + s,
        ErrorView::Service { code, message } => "ASR 错误 "@ + text::signed_decimal(code as int)
            + ": "@ + message,
    }
}

impl AsrError {
    /// What the error tells the reader of a log.
    pub fn message(&self) -> (r: String)
        ensures
            r@ == error_text(self@),
    {
        let mut s: String = String::new();
        match self {
            AsrError::Compress => s.append("gzip 压缩失败"),
            AsrError::Decompress => s.append("gzip 解压失败"),
            AsrError::Receive(t) => {
                s.append("接收 ASR 结果失败: ");
                s.append(t.as_str());
            },
            AsrError::Protocol(t) => {
                s.append("ASR 协议错误: ");
                s.append(t.as_str());
            },
            AsrError::BadReply(t) => {
                s.append("解析 ASR 响应失败: ");
                s.append(t.as_str());
            },
            AsrError::Service { code, message } => {
                s.append("ASR 错误 ");
                text::push_signed(&mut s, *code);
                s.append(": ");
                s.append(message.as_str());
            },
        }
        assert(s@ =~= error_text(self@));
        s
    }
}

// ---------------------------------------------------------------- requests

/// The head of a request.
pub open spec fn request_head(msg_type: u8, flags: u8) -> Seq<u8> {
    seq![0x11u8, (msg_type << 4) | flags, 0x11u8, 0x00u8]
}

/// A request with the compressed body `body`.
pub open spec fn request_frame(msg_type: u8, flags: u8, seq: int, body: Seq<u8>) -> Seq<u8> {
    request_head(msg_type, flags) + bytes::be_bytes(bytes::pattern32(seq), 4) + bytes::be_bytes(
        body.len(),
        4,
    ) + body
}

/// A request with the body `payload`, where that can be compressed.
pub open spec fn request_of(msg_type: u8, flags: u8, seq: int, payload: Seq<u8>) -> Option<Seq<u8>> {
    match outside::gzip_of(payload) {
        Some(body) => Some(request_frame(msg_type, flags, seq, body)),
        None => None,
    }
}

/// Lays out a request around a compressed body. The length is kept modulo
/// 2^32, which is all that its field holds.
pub fn frame_request(msg_type: u8, flags: u8, seq: i32, body: &[u8]) -> (out: Vec<u8>)
    ensures
        out@ == request_frame(msg_type, flags, seq as int, body@),
{
    let mut out: Vec<u8> = Vec::new();
    bytes::append_bytes(&mut out, AsrClient::header(msg_type, flags).as_slice());
    bytes::push_be(&mut out, bytes::to_pattern32(seq) as u64, 4);
    bytes::push_be(&mut out, body.len() as u64, 4);
    bytes::append_bytes(&mut out, body);
    assert(out@ =~= request_frame(msg_type, flags, seq as int, body@));
    out
}

/// A client of the service.
pub struct AsrClient {
    api_key: String,
    resource_id: String,
    rate: u32,
}

/// A client of the service.
pub struct ClientView {
    pub api_key: Seq<char>,
    pub resource_id: Seq<char>,
    pub rate: u32,
}

impl View for AsrClient {
    type V = ClientView;

    closed spec fn view(&self) -> ClientView {
        ClientView { api_key: self.api_key@, resource_id: self.resource_id@, rate: self.rate }
    }
}

/// What the request that opens a stream says.
pub open spec fn opening(rate: u32) -> Seq<(Seq<char>, Seq<(Seq<char>, ScalarView)>)> {
    seq![
        ("user"@, seq![("uid"@, ScalarView::Text("voice-input"@))]),
        (
            "audio"@,
            seq![
                ("format"@, ScalarView::Text("pcm"@)),
                ("codec"@, ScalarView::Text("raw"@)),
                ("rate"@, ScalarView::Number(rate)),
                ("bits"@, ScalarView::Number(16)),
                ("channel"@, ScalarView::Number(1)),
            ],
        ),
        (
            "request"@,
            seq![
                ("model_name"@, ScalarView::Text("bigmodel"@)),
                ("enable_itn"@, ScalarView::Flag(true)),
                ("enable_punc"@, ScalarView::Flag(true)),
                ("enable_ddc"@, ScalarView::Flag(true)),
            ],
        ),
    ]
}

/// The body of the request that opens a stream.
pub open spec fn opening_body(rate: u32) -> Seq<u8> {
    utf8::encode_utf8(outside::json_text(opening(rate)))
}

fn member(name: &str, value: JsonScalar) -> (r: (String, JsonScalar))
    ensures
        r.0@ == name@,
        r.1@ == value@,
{
    (name.to_owned(), value)
}

fn text_member(name: &str, value: &str) -> (r: (String, JsonScalar))
    ensures
        r.0@ == name@,
        r.1@ == ScalarView::Text(value@),
{
    (name.to_owned(), JsonScalar::Text(value.to_owned()))
}

impl AsrClient {
    /// A client with the given settings.
    pub fn new(cfg: &AsrConfig) -> (r: Self)
        ensures
            r@ == (ClientView {
                api_key: cfg.api_key@,
                resource_id: cfg.resource_id@,
                rate: cfg.rate,
            }),
    {
        Self {
            api_key: cfg.api_key.clone(),
            resource_id: cfg.resource_id.clone(),
            rate: cfg.rate,
        }
    }

    /// Compresses a body.
    pub fn gzip(data: &[u8]) -> (r: Result<Vec<u8>, AsrError>)
        ensures
            match outside::gzip_of(data@) {
                Some(z) => r is Ok && r->Ok_0@ == z && outside::gunzip_of(z) == Some(data@),
                None => r == Err::<Vec<u8>, AsrError>(AsrError::Compress),
            },
    {
        match gzip_compress(data) {
            Ok(z) => Ok(z),
            Err(_) => Err(AsrError::Compress),
        }
    }

    /// Decompresses a body.
    pub fn gunzip(data: &[u8]) -> (r: Result<Vec<u8>, AsrError>)
        ensures
            match outside::gunzip_of(data@) {
                Some(d) => r is Ok && r->Ok_0@ == d,
                None => r == Err::<Vec<u8>, AsrError>(AsrError::Decompress),
            },
    {
        match gzip_decompress(data) {
            Ok(d) => Ok(d),
            Err(_) => Err(AsrError::Decompress),
        }
    }

    /// The head of a request.
    pub fn header(msg_type: u8, flags: u8) -> (r: [u8; 4])
        ensures
            r@ == request_head(msg_type, flags),
    {
        let r: [u8; 4] = [
            0x11,
            (msg_type << 4) | flags,
            (SERIALIZATION_JSON << 4) | COMPRESSION_GZIP,
            0x00,
        ];
        proof {
            assert((1u8 << 4) | 1u8 == 0x11u8) by (bit_vector);
            assert(r@ =~= request_head(msg_type, flags));
        }
        r
    }

    /// A request with the given body. The body that the frame carries
    /// decompresses to the payload.
    pub fn request_pkg(msg_type: u8, flags: u8, seq: i32, payload: &[u8]) -> (r: Result<
        Vec<u8>,
        AsrError,
    >)
        ensures
            match request_of(msg_type, flags, seq as int, payload@) {
                Some(f) => r is Ok && r->Ok_0@ == f && outside::gunzip_of(f.skip(12)) == Some(
                    payload@,
                ),
                None => r == Err::<Vec<u8>, AsrError>(AsrError::Compress),
            },
    {
        match Self::gzip(payload) {
            Ok(body) => {
                let out: Vec<u8> = frame_request(msg_type, flags, seq, body.as_slice());
                proof {
                    lemma_request_layout(msg_type, flags, seq as int, body@);
                }
                Ok(out)
            },
            Err(e) => Err(e),
        }
    }

    /// The headers that identify the client and the request to the service.
    pub fn headers<'a>(&'a self, request_id: &'a str) -> (r: [(&'a str, &'a str); 4])
        ensures
            r@[0].0@ == "X-Api-Key"@ && r@[0].1@ == self@.api_key,
            r@[1].0@ == "X-Api-Resource-Id"@ && r@[1].1@ == self@.resource_id,
            r@[2].0@ == "X-Api-Request-Id"@ && r@[2].1@ == request_id@,
            r@[3].0@ == "X-Api-Sequence"@ && r@[3].1@ == "-1"@,
    {
        [
            ("X-Api-Key", self.api_key.as_str()),
            ("X-Api-Resource-Id", self.resource_id.as_str()),
            ("X-Api-Request-Id", request_id),
            ("X-Api-Sequence", "-1"),
        ]
    }

    /// A fresh random identifier for a request.
    pub fn new_request_id() -> (r: String)
        ensures
            exists|id: Seq<u8>| #[trigger]
                uuid_text(id) == r@ && id.len() == 16 && id[6] / 16 == 4 && 128 <= id[8] < 192,
    {
        let id: [u8; 16] = random_uuid();
        let r: String = format_uuid(&id);
        assert(uuid_text(id@) == r@);
        r
    }

    /// The body of the request that opens a stream.
    pub fn opening_json(&self) -> (r: String)
        ensures
            r@ == outside::json_text(opening(self@.rate)),
    {
        let user: Vec<(String, JsonScalar)> = vec![text_member("uid", "voice-input")];
        let audio: Vec<(String, JsonScalar)> = vec![
            text_member("format", "pcm"),
            text_member("codec", "raw"),
            member("rate", JsonScalar::Number(self.rate)),
            member("bits", JsonScalar::Number(16)),
            member("channel", JsonScalar::Number(1)),
        ];
        let request: Vec<(String, JsonScalar)> = vec![
            text_member("model_name", "bigmodel"),
            member("enable_itn", JsonScalar::Flag(true)),
            member("enable_punc", JsonScalar::Flag(true)),
            member("enable_ddc", JsonScalar::Flag(true)),
        ];
        let sections: Vec<(String, Vec<(String, JsonScalar)>)> = vec![
            ("user".to_owned(), user),
            ("audio".to_owned(), audio),
            ("request".to_owned(), request),
        ];
        proof {
            let want = opening(self@.rate);
            let got = outside::sections_view(sections@);
            assert(got[0].1 =~= want[0].1);
            assert(got[1].1 =~= want[1].1);
            assert(got[2].1 =~= want[2].1);
            assert(got =~= want);
        }
        json_render(sections)
    }
}

/// An identifier in groups of hexadecimal digits.
pub open spec fn uuid_text(id: Seq<u8>) -> Seq<char> {
    text::hex(id.subrange(0, 4)) + seq!['-'] + text::hex(id.subrange(4, 6)) + seq!['-']
        + text::hex(id.subrange(6, 8)) + seq!['-'] + text::hex(id.subrange(8, 10)) + seq!['-']
        + text::hex(id.subrange(10, 16))
}

/// Writes an identifier in groups of hexadecimal digits.
pub fn format_uuid(id: &[u8; 16]) -> (r: String)
    ensures
        r@ == uuid_text(id@),
{
    let all: &[u8] = id.as_slice();
    let mut s: String = String::new();
    text::push_hex(&mut s, slice_subrange(all, 0, 4));
    s.push('-');
    text::push_hex(&mut s, slice_subrange(all, 4, 6));
    s.push('-');
    text::push_hex(&mut s, slice_subrange(all, 6, 8));
    s.push('-');
    text::push_hex(&mut s, slice_subrange(all, 8, 10));
    s.push('-');
    text::push_hex(&mut s, slice_subrange(all, 10, 16));
    assert(s@ =~= uuid_text(id@));
    s
}

/// The parts of a request stand where they belong.
proof fn lemma_request_layout(msg_type: u8, flags: u8, seq: int, body: Seq<u8>)
    ensures
        request_frame(msg_type, flags, seq, body).len() == 12 + body.len(),
        request_frame(msg_type, flags, seq, body).take(4) == request_head(msg_type, flags),
        request_frame(msg_type, flags, seq, body).subrange(4, 8) == bytes::be_bytes(
            bytes::pattern32(seq),
            4,
        ),
        request_frame(msg_type, flags, seq, body).subrange(8, 12) == bytes::be_bytes(body.len(), 4),
        request_frame(msg_type, flags, seq, body).skip(12) == body,
{
    let f = request_frame(msg_type, flags, seq, body);
    bytes::lemma_be_bytes_len(bytes::pattern32(seq), 4);
    bytes::lemma_be_bytes_len(body.len(), 4);
    assert(f.take(4) =~= request_head(msg_type, flags));
    assert(f.subrange(4, 8) =~= bytes::be_bytes(bytes::pattern32(seq), 4));
    assert(f.subrange(8, 12) =~= bytes::be_bytes(body.len(), 4));
    assert(f.skip(12) =~= body);
}

// ---------------------------------------------------------------- replies

/// A reply as far as the frame itself says.
#[derive(Debug, PartialEq, Eq)]
pub enum RawReply {
    /// A protocol error.
    Error { code: i32, detail: Vec<u8> },
    /// A result, whose payload may be compressed.
    Result { is_last: bool, compressed: bool, payload: Vec<u8> },
}

/// A reply as far as the frame itself says.
pub enum RawView {
    Error { code: int, detail: Seq<u8> },
    Result { is_last: bool, compressed: bool, payload: Seq<u8> },
}

impl View for RawReply {
    type V = RawView;

    open spec fn view(&self) -> RawView {
        match self {
            RawReply::Error { code, detail } => RawView::Error {
                code: *code as int,
                detail: detail@,
            },
            RawReply::Result { is_last, compressed, payload } => RawView::Result {
                is_last: *is_last,
                compressed: *compressed,
                payload: payload@,
            },
        }
    }
}

/// Where the fields after the head and the sequence number start.
pub open spec fn fields_at(frame: Seq<u8>) -> int {
    (frame[0] % 16) * 4 + if frame[1] % 2 == 1 {
        4int
    } else {
        0
    }
}

/// What follows a four-byte length at `at`, as much of it as the frame holds.
pub open spec fn sized_field(frame: Seq<u8>, at: int) -> Seq<u8> {
    let size = bytes::be_value(frame.subrange(at, at + 4));
    let end = if at + 4 + size < frame.len() {
        at + 4 + size
    } else {
        frame.len() as int
    };
    frame.subrange(at + 4, end)
}

/// What a frame says, where it is a reply.
pub open spec fn raw_reply(frame: Seq<u8>) -> Option<RawView> {
    if frame.len() < 4 {
        None
    } else {
        let at = fields_at(frame);
        let kind = frame[1] / 16;
        if kind == MSG_SERVER_ERROR {
            if frame.len() < at + 8 {
                None
            } else {
                Some(
                    RawView::Error {
                        code: bytes::signed32(bytes::be_value(frame.subrange(at, at + 4))),
                        detail: sized_field(frame, at + 4),
                    },
                )
            }
        } else if kind != MSG_SERVER_FULL_RESPONSE || frame.len() < at + 4 {
            None
        } else {
            Some(
                RawView::Result {
                    is_last: frame[1] / 2 % 2 == 1,
                    compressed: frame[2] % 16 == COMPRESSION_GZIP,
                    payload: sized_field(frame, at),
                },
            )
        }
    }
}

/// Copies what follows a four-byte length at `at`.
fn read_sized(frame: &[u8], at: usize) -> (r: Vec<u8>)
    requires
        at + 4 <= frame@.len(),
    ensures
        r@ == sized_field(frame@, at as int),
{
    let n: usize = frame.len();
    let size: u64 = bytes::read_be(slice_subrange(frame, at, at + 4));
    let left: usize = n - (at + 4);
    let end: usize = if size < left as u64 {
        at + 4 + size as usize
    } else {
        n
    };
    bytes::copy_range(frame, at + 4, end)
}

/// Reads the fields of a reply.
pub fn split_reply(frame: &[u8]) -> (r: Option<RawReply>)
    ensures
        match raw_reply(frame@) {
            Some(v) => r is Some && r->0@ == v,
            None => r is None,
        },
{
    if frame.len() < 4 {
        return None;
    }
    let b1: u8 = frame[1];
    let kind: u8 = b1 / 16;
    let mut at: usize = (frame[0] % 16) as usize * 4;
    if b1 % 2 == 1 {
        at = at + 4;
    }
    if kind == MSG_SERVER_ERROR {
        if frame.len() < at + 8 {
            return None;
        }
        let pattern: u64 = bytes::read_be(slice_subrange(frame, at, at + 4));
        proof {
            bytes::lemma_be_value_bound(frame@.subrange(at as int, at + 4));
            bytes::lemma_pow256_values();
        }
        let code: i32 = bytes::from_pattern32(pattern as u32);
        return Some(RawReply::Error { code, detail: read_sized(frame, at + 4) });
    }
    if kind != MSG_SERVER_FULL_RESPONSE || frame.len() < at + 4 {
        return None;
    }
    Some(
        RawReply::Result {
            is_last: b1 / 2 % 2 == 1,
            compressed: frame[2] % 16 == COMPRESSION_GZIP,
            payload: read_sized(frame, at),
        },
    )
}

/// A reply.
#[derive(Debug, PartialEq, Eq)]
pub enum ServerMsg {
    /// A result, with its body decompressed.
    Result { is_last: bool, body: Vec<u8> },
    /// A protocol error.
    Error(String),
}

/// A reply.
pub enum MsgView {
    Result { is_last: bool, body: Seq<u8> },
    Error(Seq<char>),
}

impl View for ServerMsg {
    type V = MsgView;

    open spec fn view(&self) -> MsgView {
        match self {
            ServerMsg::Result { is_last, body } => MsgView::Result {
                is_last: *is_last,
                body: body@,
            },
            ServerMsg::Error(s) => MsgView::Error(s@),
        }
    }
}

/// How a protocol error reads.
pub open spec fn protocol_error_text(code: int, detail: Seq<char>) -> Seq<char> {
    "错误码 "@ + text::signed_decimal(code) + ": "@ + detail
}

/// Whether the detail of a protocol error is decoded, where it is UTF-8.
pub open spec fn detail_is_decoded(frame: Seq<u8>) -> bool {
    raw_reply(frame) matches Some(RawView::Error { code, detail }) ==> (utf8::valid_utf8(detail)
        ==> outside::utf8_lossy(detail) == utf8::decode_utf8(detail))
}

/// What a frame says once it is decompressed, where it is a reply.
pub open spec fn server_msg(frame: Seq<u8>) -> Option<MsgView> {
    match raw_reply(frame) {
        None => None,
        Some(RawView::Error { code, detail }) => Some(
            MsgView::Error(protocol_error_text(code, outside::utf8_lossy(detail))),
        ),
        Some(RawView::Result { is_last, compressed, payload }) => if compressed {
            match outside::gunzip_of(payload) {
                Some(body) => Some(MsgView::Result { is_last, body }),
                None => None,
            }
        } else {
            Some(MsgView::Result { is_last, body: payload })
        },
    }
}

/// Tells a protocol error.
pub fn protocol_error(code: i32, detail: &str) -> (r: String)
    ensures
        r@ == protocol_error_text(code as int, detail@),
{
    let mut s: String = String::new();
    s.append("错误码 ");
    text::push_signed(&mut s, code as i64);
    s.append(": ");
    s.append(detail);
    assert(s@ =~= protocol_error_text(code as int, detail@));
    s
}

/// Reads a reply. A frame that is no reply, or whose body cannot be
/// decompressed, gives nothing.
pub fn parse_server_frame(frame: &[u8]) -> (r: Option<ServerMsg>)
    ensures
        match server_msg(frame@) {
            Some(v) => r is Some && r->0@ == v,
            None => r is None,
        },
        detail_is_decoded(frame@),
{
    match split_reply(frame) {
        None => None,
        Some(RawReply::Error { code, detail }) => {
            let detail_text: String = text_lossy(detail.as_slice());
            Some(ServerMsg::Error(protocol_error(code, detail_text.as_str())))
        },
        Some(RawReply::Result { is_last, compressed, payload }) => {
            if compressed {
                match AsrClient::gunzip(payload.as_slice()) {
                    Ok(body) => Some(ServerMsg::Result { is_last, body }),
                    Err(_) => None,
                }
            } else {
                Some(ServerMsg::Result { is_last, body: payload })
            }
        },
    }
}

// ---------------------------------------------------------------- a stream

/// What the body of a result says.
#[derive(Debug, PartialEq, Eq)]
pub struct Reply {
    pub code: Option<i64>,
    pub message: Option<String>,
    pub text: Option<String>,
    pub is_last_package: Option<bool>,
}

/// What the body of a result says.
pub struct ReplyView {
    pub code: Option<i64>,
    pub message: Option<Seq<char>>,
    pub text: Option<Seq<char>>,
    pub is_last_package: Option<bool>,
}

impl View for Reply {
    type V = ReplyView;

    open spec fn view(&self) -> ReplyView {
        ReplyView {
            code: self.code,
            message: outside::opt_view(self.message),
            text: outside::opt_view(self.text),
            is_last_package: self.is_last_package,
        }
    }
}

/// What the JSON body of a result says.
pub open spec fn reply_of(body: Seq<u8>) -> ReplyView {
    ReplyView {
        code: outside::json_integer(body, "code"@),
        message: outside::json_string(body, "message"@),
        text: outside::json_string_at(body, "/result/text"@),
        is_last_package: outside::json_flag(body, "is_last_package"@),
    }
}

/// Reads the body of a result.
pub fn read_reply(body: &[u8]) -> (r: Result<Reply, AsrError>)
    ensures
        match outside::json_error(body@) {
            None => r is Ok && r->Ok_0@ == reply_of(body@),
            Some(e) => r is Err && r->Err_0@ == ErrorView::BadReply(e),
        },
{
    match json_members(body, "code", "message", "/result/text", "is_last_package") {
        Ok((code, message, text, is_last_package)) => Ok(
            Reply { code, message, text, is_last_package },
        ),
        Err(e) => Err(AsrError::BadReply(e)),
    }
}

/// What comes in while replies are waited for.
#[derive(Debug, PartialEq, Eq)]
pub enum Incoming {
    /// A message.
    Frame(Vec<u8>),
    /// The end of the connection.
    Closed,
    /// Nothing, for as long as a reply is waited for.
    TimedOut,
    /// The connection failed.
    Failed(String),
}

/// What comes in while replies are waited for.
pub enum IncomingView {
    Frame(Seq<u8>),
    Closed,
    TimedOut,
    Failed(Seq<char>),
}

impl View for Incoming {
    type V = IncomingView;

    open spec fn view(&self) -> IncomingView {
        match self {
            Incoming::Frame(f) => IncomingView::Frame(f@),
            Incoming::Closed => IncomingView::Closed,
            Incoming::TimedOut => IncomingView::TimedOut,
            Incoming::Failed(e) => IncomingView::Failed(e@),
        }
    }
}

/// Where a stream stands after something came in.
pub enum StepView {
    /// More is waited for; the text so far.
    More(Seq<char>),
    /// The stream is over; the whole text.
    Done(Seq<char>),
    /// The stream failed.
    Fail(ErrorView),
}

/// The text that a reply adds.
pub open spec fn added_text(reply: ReplyView) -> Seq<char> {
    match reply.text {
        Some(t) => t,
        None => seq![],
    }
}

/// Whether a reply reports an error.
pub open spec fn is_service_error(reply: ReplyView) -> bool {
    reply.code is Some && reply.code != Some(0i64)
}

/// The effect of a reply on the text so far.
pub open spec fn reply_step(so_far: Seq<char>, is_last: bool, reply: ReplyView) -> StepView {
    if is_service_error(reply) {
        StepView::Fail(
            ErrorView::Service {
                code: reply.code->0,
                message: match reply.message {
                    Some(m) => m,
                    None => "unknown"@,
                },
            },
        )
    } else if is_last || reply.is_last_package == Some(true) {
        StepView::Done(so_far + added_text(reply))
    } else {
        StepView::More(so_far + added_text(reply))
    }
}

/// The effect of what came in on the text so far.
pub open spec fn incoming_step(so_far: Seq<char>, event: IncomingView) -> StepView {
    match event {
        IncomingView::Closed => StepView::Done(so_far),
        IncomingView::TimedOut => StepView::Done(so_far),
        IncomingView::Failed(e) => StepView::Fail(ErrorView::Receive(e)),
        IncomingView::Frame(f) => match server_msg(f) {
            None => StepView::More(so_far),
            Some(MsgView::Error(e)) => StepView::Fail(ErrorView::Protocol(e)),
            Some(MsgView::Result { is_last, body }) => match outside::json_error(body) {
                Some(e) => StepView::Fail(ErrorView::BadReply(e)),
                None => reply_step(so_far, is_last, reply_of(body)),
            },
        },
    }
}

/// What a stream waits for.
#[derive(Debug, Clone, Copy, PartialEq, Eq, Structural)]
pub enum Phase {
    /// Audio, or its end.
    Audio,
    /// Replies.
    Replies,
    /// Nothing: the stream is over.
    Over,
}

/// One stream of audio to the service and its text.
#[derive(Debug)]
pub struct Transcription {
    phase: Phase,
    seq: i32,
    text: String,
}

/// One stream of audio to the service and its text.
pub struct TranscriptionView {
    pub phase: Phase,
    /// The sequence number of the next request.
    pub seq: int,
    /// The text so far.
    pub text: Seq<char>,
}

impl TranscriptionView {
    /// Sequence numbers are positive.
    pub open spec fn well_formed(self) -> bool {
        1 <= self.seq <= i32::MAX
    }
}

/// A stream that has been opened.
pub open spec fn opened() -> TranscriptionView {
    TranscriptionView { phase: Phase::Audio, seq: 2, text: seq![] }
}

/// A stream after one more chunk of audio.
pub open spec fn audio_sent(t: TranscriptionView) -> TranscriptionView {
    TranscriptionView { seq: t.seq + 1, ..t }
}

/// A stream after the end of its audio.
pub open spec fn audio_ended(t: TranscriptionView) -> TranscriptionView {
    TranscriptionView { phase: Phase::Replies, ..t }
}

/// A stream after a step of its replies: the text goes on or is complete, and a
/// failure leaves it as it was.
pub open spec fn replied(t: TranscriptionView, step: StepView) -> TranscriptionView {
    match step {
        StepView::More(text) => TranscriptionView { text, ..t },
        StepView::Done(text) => TranscriptionView { phase: Phase::Over, text, ..t },
        StepView::Fail(_) => TranscriptionView { phase: Phase::Over, ..t },
    }
}

/// The request that opens a stream.
pub open spec fn opening_request(rate: u32) -> Option<Seq<u8>> {
    request_of(MSG_FULL_REQUEST, FLAG_POS_SEQUENCE, 1, opening_body(rate))
}

/// The request for a chunk of audio.
pub open spec fn audio_request(t: TranscriptionView, chunk: Seq<i16>) -> Option<Seq<u8>> {
    request_of(MSG_AUDIO_ONLY, FLAG_POS_SEQUENCE, t.seq, bytes::pcm(chunk))
}

/// The request that ends the audio.
pub open spec fn last_request(t: TranscriptionView) -> Option<Seq<u8>> {
    request_of(MSG_AUDIO_ONLY, FLAG_NEG_WITH_SEQUENCE, -t.seq, seq![])
}

impl View for Transcription {
    type V = TranscriptionView;

    closed spec fn view(&self) -> TranscriptionView {
        TranscriptionView { phase: self.phase, seq: self.seq as int, text: self.text@ }
    }
}

/// The view of what `receive` left: the result and the text.
pub open spec fn step_view(r: Result<bool, AsrError>, text: Seq<char>) -> StepView {
    match r {
        Ok(true) => StepView::Done(text),
        Ok(false) => StepView::More(text),
        Err(e) => StepView::Fail(e@),
    }
}

impl AsrClient {
    /// Opens a stream: its state, and the request that opens it.
    pub fn transcribe(&self) -> (r: Result<(Transcription, Vec<u8>), AsrError>)
        ensures
            match opening_request(self@.rate) {
                Some(f) => r is Ok && r->Ok_0.1@ == f && r->Ok_0.0@ == opened()
                    && outside::gunzip_of(f.skip(12)) == Some(opening_body(self@.rate)),
                None => r is Err && r->Err_0 == AsrError::Compress,
            },
    {
        let json: String = self.opening_json();
        match Self::request_pkg(
            MSG_FULL_REQUEST,
            FLAG_POS_SEQUENCE,
            1,
            json.as_str().as_bytes(),
        ) {
            Ok(f) => Ok((Transcription { phase: Phase::Audio, seq: 2, text: String::new() }, f)),
            Err(e) => Err(e),
        }
    }
}

impl Transcription {
    /// The request for a chunk of audio.
    pub fn send_audio(&mut self, chunk: &[i16]) -> (r: Result<Vec<u8>, AsrError>)
        requires
            old(self)@.well_formed(),
            old(self)@.phase == Phase::Audio,
            old(self)@.seq < i32::MAX,
        ensures
            final(self)@.well_formed(),
            match audio_request(old(self)@, chunk@) {
                Some(f) => r is Ok && r->Ok_0@ == f && final(self)@ == audio_sent(old(self)@)
                    && outside::gunzip_of(f.skip(12)) == Some(bytes::pcm(chunk@)),
                None => r == Err::<Vec<u8>, AsrError>(AsrError::Compress) && final(self)@
                    == old(self)@,
            },
    {
        let data: Vec<u8> = bytes::pcm_bytes(chunk);
        match AsrClient::request_pkg(
            MSG_AUDIO_ONLY,
            FLAG_POS_SEQUENCE,
            self.seq,
            data.as_slice(),
        ) {
            Ok(f) => {
                self.seq = self.seq + 1;
                Ok(f)
            },
            Err(e) => Err(e),
        }
    }

    /// The sequence number of the next request. Audio can be sent while it is
    /// below `i32::MAX`.
    pub fn number(&self) -> (r: i32)
        ensures
            r == self@.seq,
    {
        self.seq
    }

    /// What the stream waits for.
    pub fn phase(&self) -> (r: Phase)
        ensures
            r == self@.phase,
    {
        self.phase
    }

    /// The request that ends the audio.
    pub fn send_last(&mut self) -> (r: Result<Vec<u8>, AsrError>)
        requires
            old(self)@.well_formed(),
            old(self)@.phase == Phase::Audio,
        ensures
            final(self)@.well_formed(),
            match last_request(old(self)@) {
                Some(f) => r is Ok && r->Ok_0@ == f && final(self)@ == audio_ended(old(self)@)
                    && outside::gunzip_of(f.skip(12)) == Some(Seq::<u8>::empty()),
                None => r == Err::<Vec<u8>, AsrError>(AsrError::Compress) && final(self)@
                    == old(self)@,
            },
    {
        let nothing: Vec<u8> = Vec::new();
        assert(nothing@ =~= seq![]);
        match AsrClient::request_pkg(
            MSG_AUDIO_ONLY,
            FLAG_NEG_WITH_SEQUENCE,
            -self.seq,
            nothing.as_slice(),
        ) {
            Ok(f) => {
                self.phase = Phase::Replies;
                Ok(f)
            },
            Err(e) => Err(e),
        }
    }

    /// Takes what a result says; whether the stream is over with its text.
    pub fn apply_reply(&mut self, is_last: bool, reply: Reply) -> (r: Result<bool, AsrError>)
        requires
            old(self)@.well_formed(),
            old(self)@.phase == Phase::Replies,
        ensures
            final(self)@.well_formed(),
            final(self)@ == replied(old(self)@, reply_step(old(self)@.text, is_last, reply@)),
            step_view(r, final(self)@.text) == reply_step(old(self)@.text, is_last, reply@),
    {
        if let Some(code) = reply.code {
            if code != 0 {
                let message: String = match reply.message {
                    Some(m) => m,
                    None => "unknown".to_owned(),
                };
                self.phase = Phase::Over;
                return Err(AsrError::Service { code, message });
            }
        }
        match reply.text {
            Some(t) => {
                self.text.append(t.as_str());
            },
            None => {
                assert(self.text@ + Seq::<char>::empty() =~= self.text@);
            },
        }
        let flagged: bool = match reply.is_last_package {
            Some(b) => b,
            None => false,
        };
        if is_last || flagged {
            self.phase = Phase::Over;
            Ok(true)
        } else {
            Ok(false)
        }
    }

    /// Takes what came in; whether the stream is over with its text.
    pub fn receive(&mut self, event: Incoming) -> (r: Result<bool, AsrError>)
        requires
            old(self)@.well_formed(),
            old(self)@.phase == Phase::Replies,
        ensures
            final(self)@.well_formed(),
            final(self)@ == replied(old(self)@, incoming_step(old(self)@.text, event@)),
            step_view(r, final(self)@.text) == incoming_step(old(self)@.text, event@),
            event@ matches IncomingView::Frame(f) ==> detail_is_decoded(f),
    {
        match event {
            Incoming::Closed | Incoming::TimedOut => {
                self.phase = Phase::Over;
                Ok(true)
            },
            Incoming::Failed(e) => {
                self.phase = Phase::Over;
                Err(AsrError::Receive(e))
            },
            Incoming::Frame(f) => match parse_server_frame(f.as_slice()) {
                None => Ok(false),
                Some(ServerMsg::Error(detail)) => {
                    self.phase = Phase::Over;
                    Err(AsrError::Protocol(detail))
                },
                Some(ServerMsg::Result { is_last, body }) => match read_reply(body.as_slice()) {
                    Err(e) => {
                        self.phase = Phase::Over;
                        Err(e)
                    },
                    Ok(reply) => self.apply_reply(is_last, reply),
                },
            },
        }
    }

    /// The text of the stream.
    pub fn into_text(self) -> (r: String)
        ensures
            r@ == self@.text,
    {
        self.text
    }
}

} // verus!
