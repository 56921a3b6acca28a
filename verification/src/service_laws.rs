//! What requests and replies of the service are, byte by byte, and what a reply
//! adds to the text.

use crate::asr;
use crate::asr::{
    AsrError, ErrorView, Incoming, IncomingView, MsgView, Phase, RawReply, RawView, Reply,
    ServerMsg, StepView, TranscriptionView,
};
use crate::bytes;
use crate::outside;
use crate::outside::{JsonScalar, ScalarView};
use crate::text;
use crate::text_laws;
use vstd::prelude::*;
use vstd::utf8;

verus! {

// ---------------------------------------------------------------- requests

/// The number that stands for a signed one in four bytes.
pub open spec fn twos_complement(i: int) -> int {
    if i < 0 {
        i + 0x1_0000_0000
    } else {
        i
    }
}

/// Whether `f` is a request with the given kind and flags, sequence number and
/// body: `0x11`, kind and flags, `0x11`, `0x00`, the number and the length of
/// the body in four bytes each, most significant first, and the body.
pub open spec fn is_request(f: Seq<u8>, kind_and_flags: int, seq: int, body: Seq<u8>) -> bool {
    &&& f.len() == 12 + body.len()
    &&& f[0] == 0x11
    &&& f[1] == kind_and_flags
    &&& f[2] == 0x11
    &&& f[3] == 0x00
    &&& bytes::number4(f, 4) == twos_complement(seq)
    &&& bytes::number4(f, 8) == body.len() % 0x1_0000_0000
    &&& f.skip(12) == body
}

/// A request is laid out around the compressed payload, whatever the size of the
/// payload, and there is one wherever the payload can be compressed.
pub proof fn law_request_bytes(msg_type: u8, flags: u8, seq: i32, payload: Seq<u8>)
    requires
        msg_type < 16,
        flags < 16,
    ensures
        asr::request_of(msg_type, flags, seq as int, payload) is Some <==> outside::gzip_of(
            payload,
        ) is Some,
        asr::request_of(msg_type, flags, seq as int, payload) matches Some(f) ==> is_request(
            f,
            msg_type * 16 + flags,
            seq as int,
            outside::gzip_of(payload)->0,
        ),
{
    if outside::gzip_of(payload) is Some {
        let body = outside::gzip_of(payload)->0;
        law_frame_bytes(msg_type, flags, seq, body);
    }
}

/// The same of a request around a body that is compressed already.
pub proof fn law_frame_bytes(msg_type: u8, flags: u8, seq: i32, body: Seq<u8>)
    requires
        msg_type < 16,
        flags < 16,
    ensures
        is_request(
            asr::request_frame(msg_type, flags, seq as int, body),
            msg_type * 16 + flags,
            seq as int,
            body,
        ),
{
    let f = asr::request_frame(msg_type, flags, seq as int, body);
    let pattern = bytes::pattern32(seq as int);
    bytes::law_be_bytes_digits(pattern);
    bytes::law_be_bytes_digits(body.len());
    bytes::law_pattern32_is_twos_complement(seq, 0);
    let a = bytes::be_bytes(pattern, 4);
    let b = bytes::be_bytes(body.len(), 4);
    assert((msg_type << 4) | flags == msg_type * 16 + flags) by (bit_vector)
        requires
            msg_type < 16,
            flags < 16,
    ;
    assert(forall|j: int| 0 <= j < 4 ==> f[4 + j] == #[trigger] a[j]);
    assert(forall|j: int| 0 <= j < 4 ==> f[8 + j] == #[trigger] b[j]);
    assert(f.skip(12) =~= body);
}

/// The kind of a request is moved up by four bits, and the flags are added to it
/// bit by bit, whatever they are.
pub proof fn law_request_head(msg_type: u8, flags: u8)
    ensures
        asr::request_head(msg_type, flags).len() == 4,
        asr::request_head(msg_type, flags)[0] == 0x11,
        asr::request_head(msg_type, flags)[1] == (msg_type << 4) | flags,
        asr::request_head(msg_type, flags)[2] == 0x11,
        asr::request_head(msg_type, flags)[3] == 0x00,
{
}

/// Whether `data` holds the samples as 16-bit numbers, the lower byte first.
pub open spec fn holds_samples(data: Seq<u8>, samples: Seq<i16>) -> bool {
    &&& data.len() == 2 * samples.len()
    &&& forall|i: int|
        0 <= i < samples.len() ==> data[2 * i] + 256 * data[2 * i + 1] == if #[trigger] samples[i]
            < 0 {
            samples[i] + 0x1_0000
        } else {
            samples[i] as int
        }
}

proof fn lemma_holds_samples(data: Seq<u8>, samples: Seq<i16>)
    requires
        holds_samples(data, samples),
    ensures
        data == bytes::pcm(samples),
{
    let p = bytes::pcm(samples);
    bytes::lemma_pcm_len(samples);
    assert forall|k: int| 0 <= k < data.len() implies data[k] == p[k] by {
        let i = k / 2;
        bytes::law_pcm_samples(samples, i);
        assert(samples[i] == samples[i]);
        assert(k == 2 * i || k == 2 * i + 1);
    }
    assert(data =~= p);
}

/// Audio goes out as a request of kind 2 with the next number, whose body is the
/// compressed samples, all of them and each in two bytes.
pub proof fn law_audio_request(t: TranscriptionView, chunk: Seq<i16>, data: Seq<u8>)
    requires
        t.well_formed(),
        holds_samples(data, chunk),
    ensures
        asr::audio_request(t, chunk) is Some <==> outside::gzip_of(data) is Some,
        asr::audio_request(t, chunk) matches Some(f) ==> is_request(
            f,
            0x21,
            t.seq,
            outside::gzip_of(data)->0,
        ),
{
    lemma_holds_samples(data, chunk);
    law_request_bytes(2, 1, t.seq as i32, data);
}

/// There are bytes that hold the samples.
pub proof fn law_samples_can_be_held(samples: Seq<i16>)
    ensures
        holds_samples(bytes::pcm(samples), samples),
{
    bytes::lemma_pcm_len(samples);
    assert forall|i: int| 0 <= i < samples.len() implies bytes::pcm(samples)[2 * i] + 256
        * bytes::pcm(samples)[2 * i + 1] == if #[trigger] samples[i] < 0 {
        samples[i] + 0x1_0000
    } else {
        samples[i] as int
    } by {
        bytes::law_pcm_samples(samples, i);
    }
}

/// The audio ends with a request of kind 2 flagged as the last, with the negative
/// of the next number and nothing in its body.
pub proof fn law_last_request(t: TranscriptionView)
    requires
        t.well_formed(),
    ensures
        asr::last_request(t) is Some <==> outside::gzip_of(Seq::<u8>::empty()) is Some,
        asr::last_request(t) matches Some(f) ==> is_request(
            f,
            0x23,
            -t.seq,
            outside::gzip_of(Seq::<u8>::empty())->0,
        ),
{
    law_request_bytes(2, 3, (-t.seq) as i32, Seq::<u8>::empty());
}

/// A stream is opened with a request of kind 1 with the number one, whose body
/// tells the user, the audio with its sample rate, and what is to be recognised.
pub proof fn law_opening_request(rate: u32)
    ensures
        ({
            let said = seq![
                ("user"@, seq![("uid"@, ScalarView::Text("voice-input"@))]),
                (
                    "audio"@,
                    seq![
                        ("format"@, ScalarView::Text("pcm"@)),
                        ("codec"@, ScalarView::Text("raw"@)),
                        ("rate"@, ScalarView::Number(rate)),
                        ("bits"@, ScalarView::Number(16)),
                        ("channel"@, ScalarView::Number(1)),
                    ],
                ),
                (
                    "request"@,
                    seq![
                        ("model_name"@, ScalarView::Text("bigmodel"@)),
                        ("enable_itn"@, ScalarView::Flag(true)),
                        ("enable_punc"@, ScalarView::Flag(true)),
                        ("enable_ddc"@, ScalarView::Flag(true)),
                    ],
                ),
            ];
            let body = utf8::encode_utf8(outside::json_text(said));
            &&& asr::opening(rate) == said
            &&& asr::opening_body(rate) == body
            &&& asr::opening_request(rate) is Some <==> outside::gzip_of(body) is Some
            &&& asr::opening_request(rate) matches Some(f) ==> is_request(
                f,
                0x11,
                1,
                outside::gzip_of(body)->0,
            )
        }),
{
    law_request_bytes(1, 1, 1, asr::opening_body(rate));
}

/// Where the service is and how long it is waited for.
pub proof fn law_service_address()
    ensures
        asr::ASR_URL@ == "wss://openspeech.bytedance.com/api/v3/sauc/bigmodel_nostream"@,
        asr::REPLY_TIMEOUT_SECS == 20,
{
}

/// What is stated of a JSON object is stated of its names and values themselves.
pub proof fn law_json_views(
    text: String,
    number: u32,
    flag: bool,
    members: Seq<(String, JsonScalar)>,
    sections: Seq<(String, Vec<(String, JsonScalar)>)>,
    maybe: Option<String>,
)
    ensures
        JsonScalar::Text(text)@ == ScalarView::Text(text@),
        JsonScalar::Number(number)@ == ScalarView::Number(number),
        JsonScalar::Flag(flag)@ == ScalarView::Flag(flag),
        outside::members_view(members).len() == members.len(),
        forall|i: int|
            0 <= i < members.len() ==> #[trigger] outside::members_view(members)[i] == (
                members[i].0@,
                members[i].1@,
            ),
        outside::sections_view(sections).len() == sections.len(),
        forall|i: int|
            0 <= i < sections.len() ==> #[trigger] outside::sections_view(sections)[i] == (
                sections[i].0@,
                outside::members_view(sections[i].1@),
            ),
        maybe is None ==> outside::opt_view(maybe) is None,
        maybe is Some ==> outside::opt_view(maybe) == Some(maybe->0@),
{
}

/// An identifier is 32 hexadecimal digits in groups of 8, 4, 4, 4 and 12 with
/// dashes between.
pub proof fn law_uuid_layout(id: Seq<u8>)
    requires
        id.len() == 16,
    ensures
        ({
            let s = asr::uuid_text(id);
            &&& s.len() == 36
            &&& s[8] == '-' && s[13] == '-' && s[18] == '-' && s[23] == '-'
            &&& s.subrange(0, 8) + s.subrange(9, 13) + s.subrange(14, 18) + s.subrange(19, 23)
                + s.subrange(24, 36) == text::hex(id)
        }),
{
    lemma_hex_join(id, 4);
    lemma_hex_join(id.skip(4), 2);
    lemma_hex_join(id.skip(6), 2);
    lemma_hex_join(id.skip(8), 2);
    text_laws::lemma_hex_len(id.subrange(0, 4));
    text_laws::lemma_hex_len(id.subrange(4, 6));
    text_laws::lemma_hex_len(id.subrange(6, 8));
    text_laws::lemma_hex_len(id.subrange(8, 10));
    text_laws::lemma_hex_len(id.subrange(10, 16));
    assert(id.take(4) =~= id.subrange(0, 4));
    assert(id.skip(4).take(2) =~= id.subrange(4, 6));
    assert(id.skip(4).skip(2) =~= id.skip(6));
    assert(id.skip(6).take(2) =~= id.subrange(6, 8));
    assert(id.skip(6).skip(2) =~= id.skip(8));
    assert(id.skip(8).take(2) =~= id.subrange(8, 10));
    assert(id.skip(8).skip(2) =~= id.subrange(10, 16));
    let s = asr::uuid_text(id);
    assert(s.subrange(0, 8) =~= text::hex(id.subrange(0, 4)));
    assert(s.subrange(9, 13) =~= text::hex(id.subrange(4, 6)));
    assert(s.subrange(14, 18) =~= text::hex(id.subrange(6, 8)));
    assert(s.subrange(19, 23) =~= text::hex(id.subrange(8, 10)));
    assert(s.subrange(24, 36) =~= text::hex(id.subrange(10, 16)));
    assert(s.subrange(0, 8) + s.subrange(9, 13) + s.subrange(14, 18) + s.subrange(19, 23)
        + s.subrange(24, 36) =~= text::hex(id));
}

proof fn lemma_hex_join(data: Seq<u8>, k: int)
    requires
        0 <= k <= data.len(),
    ensures
        text::hex(data) == text::hex(data.take(k)) + text::hex(data.skip(k)),
    decreases data.len(),
{
    if k == data.len() {
        assert(data.take(k) =~= data);
        assert(data.skip(k) =~= Seq::<u8>::empty());
        assert(text::hex(data.skip(k)) =~= seq![]);
        assert(text::hex(data) + Seq::<char>::empty() =~= text::hex(data));
    } else {
        let short = data.drop_last();
        lemma_hex_join(short, k);
        assert(short.take(k) =~= data.take(k));
        assert(short.skip(k) =~= data.skip(k).drop_last());
        assert(text::hex(data) =~= text::hex(data.take(k)) + text::hex(data.skip(k)));
    }
}

// ---------------------------------------------------------------- replies

/// Where the fields of a reply start: after as many groups of four bytes as the
/// last four bits of the first byte say, and four more where the last bit of the
/// second byte is set.
pub open spec fn fields_start(frame: Seq<u8>) -> int {
    4 * (frame[0] % 16) + 4 * (frame[1] % 2)
}

/// Whether `field` is what follows the four-byte length at `at`, as much of it
/// as the frame holds.
pub open spec fn is_field(frame: Seq<u8>, at: int, field: Seq<u8>) -> bool {
    let stated = bytes::number4(frame, at);
    let left = frame.len() - (at + 4);
    &&& field.len() == if stated < left {
        stated
    } else {
        left
    }
    &&& forall|i: int| 0 <= i < field.len() ==> #[trigger] field[i] == frame[at + 4 + i]
}

/// A frame whose second byte starts with the bits 1001 is a result: whether it is
/// the last and whether it is compressed stand in the head, and the payload
/// follows its length.
pub proof fn law_result_is_read(frame: Seq<u8>)
    requires
        frame.len() >= 4,
        frame[1] / 16 == 9,
    ensures
        asr::raw_reply(frame) is Some <==> frame.len() >= fields_start(frame) + 4,
        asr::raw_reply(frame) matches Some(r) ==> {
            &&& r is Result
            &&& r->is_last == (frame[1] / 2 % 2 == 1)
            &&& r->compressed == (frame[2] % 16 == 1)
            &&& is_field(frame, fields_start(frame), r->payload)
        },
{
    let at = fields_start(frame);
    if frame.len() >= at + 4 {
        bytes::law_be_value_digits(frame, at);
    }
}

/// A frame whose second byte starts with the bits 1111 is a protocol error: its
/// code, as a signed number, and its detail behind its length.
pub proof fn law_error_is_read(frame: Seq<u8>)
    requires
        frame.len() >= 4,
        frame[1] / 16 == 15,
    ensures
        asr::raw_reply(frame) is Some <==> frame.len() >= fields_start(frame) + 8,
        asr::raw_reply(frame) matches Some(r) ==> {
            &&& r is Error
            &&& twos_complement(r->code) == bytes::number4(frame, fields_start(frame))
            &&& i32::MIN <= r->code <= i32::MAX
            &&& is_field(frame, fields_start(frame) + 4, r->detail)
        },
{
    let at = fields_start(frame);
    if frame.len() >= at + 8 {
        bytes::law_be_value_digits(frame, at);
        bytes::law_be_value_digits(frame, at + 4);
    }
}

/// Any other frame is no reply.
pub proof fn law_other_frames_are_no_reply(frame: Seq<u8>)
    requires
        frame.len() < 4 || (frame[1] / 16 != 9 && frame[1] / 16 != 15),
    ensures
        asr::raw_reply(frame) is None,
        asr::server_msg(frame) is None,
{
}

/// A protocol error is told with its code, as a signed number, and its detail.
pub proof fn law_protocol_error_text(code: int, detail: Seq<char>)
    ensures
        asr::protocol_error_text(code, detail) == "错误码 "@ + text::signed_decimal(code) + ": "@
            + detail,
{
}

/// A result says its payload, decompressed where it is compressed; one that
/// cannot be decompressed is no reply. An error says its code and its detail.
pub proof fn law_reply_is_delivered(frame: Seq<u8>)
    requires
        asr::raw_reply(frame) is Some,
    ensures
        match asr::raw_reply(frame)->0 {
            RawView::Result { is_last, compressed, payload } => {
                &&& !compressed ==> asr::server_msg(frame) == Some(
                    MsgView::Result { is_last, body: payload },
                )
                &&& compressed && outside::gunzip_of(payload) is Some ==> asr::server_msg(frame)
                    == Some(MsgView::Result { is_last, body: outside::gunzip_of(payload)->0 })
                &&& compressed && outside::gunzip_of(payload) is None ==> asr::server_msg(
                    frame,
                ) is None
            },
            RawView::Error { code, detail } => asr::server_msg(frame) == Some(
                MsgView::Error(
                    "错误码 "@ + text::signed_decimal(code) + ": "@ + outside::utf8_lossy(detail),
                ),
            ),
        },
{
}

// ---------------------------------------------------------------- the text

/// The text of a stream where a step has not failed.
pub open spec fn text_after(step: StepView) -> Seq<char> {
    match step {
        StepView::More(t) => t,
        StepView::Done(t) => t,
        StepView::Fail(_) => arbitrary(),
    }
}

/// A result without an error adds the whole text that its JSON has at
/// `/result/text`, every character of it behind the text so far, and nothing
/// where there is no text. It ends the stream where the frame or the JSON says
/// that it is the last.
pub proof fn law_text_of_a_result_is_appended(
    so_far: Seq<char>,
    frame: Seq<u8>,
    is_last: bool,
    body: Seq<u8>,
)
    requires
        asr::server_msg(frame) == Some(MsgView::Result { is_last, body }),
        outside::json_error(body) is None,
        outside::json_integer(body, "code"@) is None || outside::json_integer(body, "code"@) == Some(
            0i64,
        ),
    ensures
        ({
            let step = asr::incoming_step(so_far, IncomingView::Frame(frame));
            &&& !(step is Fail)
            &&& step is Done <==> is_last || outside::json_flag(body, "is_last_package"@) == Some(
                true,
            )
            &&& outside::json_string_at(body, "/result/text"@) matches Some(t) ==> text_after(step)
                == so_far + t
            &&& outside::json_string_at(body, "/result/text"@) is None ==> text_after(step) == so_far
        }),
{
    assert(so_far + Seq::<char>::empty() =~= so_far);
}

/// A result with an error code ends the stream with that code and the message of
/// the service, or `unknown` without one, whatever else it says.
pub proof fn law_error_of_a_result_ends_the_stream(
    so_far: Seq<char>,
    frame: Seq<u8>,
    is_last: bool,
    body: Seq<u8>,
)
    requires
        asr::server_msg(frame) == Some(MsgView::Result { is_last, body }),
        outside::json_error(body) is None,
        outside::json_integer(body, "code"@) is Some,
        outside::json_integer(body, "code"@) != Some(0i64),
    ensures
        asr::incoming_step(so_far, IncomingView::Frame(frame)) == StepView::Fail(
            ErrorView::Service {
                code: outside::json_integer(body, "code"@)->0,
                message: if outside::json_string(body, "message"@) is Some {
                    outside::json_string(body, "message"@)->0
                } else {
                    "unknown"@
                },
            },
        ),
{
}

/// What is not JSON, a protocol error and a failed connection end the stream
/// with their reason; a closed connection and silence end it with the text so
/// far; a frame that is no reply changes nothing.
pub proof fn law_other_events(so_far: Seq<char>, event: IncomingView)
    ensures
        match event {
            IncomingView::Closed => asr::incoming_step(so_far, event) == StepView::Done(so_far),
            IncomingView::TimedOut => asr::incoming_step(so_far, event) == StepView::Done(so_far),
            IncomingView::Failed(e) => asr::incoming_step(so_far, event) == StepView::Fail(
                ErrorView::Receive(e),
            ),
            IncomingView::Frame(f) => {
                &&& asr::server_msg(f) is None ==> asr::incoming_step(so_far, event)
                    == StepView::More(so_far)
                &&& asr::server_msg(f) matches Some(MsgView::Error(e)) ==> asr::incoming_step(
                    so_far,
                    event,
                ) == StepView::Fail(ErrorView::Protocol(e))
                &&& asr::server_msg(f) matches Some(MsgView::Result { is_last, body }) ==> (
                outside::json_error(body) matches Some(e) ==> asr::incoming_step(so_far, event)
                    == StepView::Fail(ErrorView::BadReply(e)))
            },
        },
{
}

/// A reply that has been read is taken as one that comes in a frame: its text is
/// added whole, and an error code ends the stream.
pub proof fn law_reply_is_applied(so_far: Seq<char>, is_last: bool, reply: asr::ReplyView)
    ensures
        ({
            let step = asr::reply_step(so_far, is_last, reply);
            let fails = reply.code is Some && reply.code->0 != 0;
            &&& step is Fail <==> fails
            &&& fails ==> step == StepView::Fail(
                ErrorView::Service {
                    code: reply.code->0,
                    message: if reply.message is Some {
                        reply.message->0
                    } else {
                        "unknown"@
                    },
                },
            )
            &&& !fails && reply.text is Some ==> text_after(step) == so_far + reply.text->0
            &&& !fails && reply.text is None ==> text_after(step) == so_far
            &&& !fails ==> (step is Done <==> is_last || reply.is_last_package == Some(true))
        }),
{
    assert(so_far + Seq::<char>::empty() =~= so_far);
}

/// The members of a result are found under their names.
pub proof fn law_reply_members(body: Seq<u8>)
    ensures
        asr::reply_of(body).code == outside::json_integer(body, "code"@),
        asr::reply_of(body).message == outside::json_string(body, "message"@),
        asr::reply_of(body).text == outside::json_string_at(body, "/result/text"@),
        asr::reply_of(body).is_last_package == outside::json_flag(body, "is_last_package"@),
{
}

/// A stream starts with the number two and no text; audio uses up one number and
/// nothing else; the end of the audio and replies use up none; the text is that
/// of the step, and a failure leaves it.
pub proof fn law_stream_state(t: TranscriptionView, text: Seq<char>, e: ErrorView)
    ensures
        asr::opened().seq == 2 && asr::opened().text.len() == 0 && asr::opened().phase
            == Phase::Audio,
        ({
            let r = asr::audio_sent(t);
            r.seq == t.seq + 1 && r.text == t.text && r.phase == t.phase
        }),
        ({
            let r = asr::audio_ended(t);
            r.seq == t.seq && r.text == t.text && r.phase == Phase::Replies
        }),
        ({
            let r = asr::replied(t, StepView::More(text));
            r.seq == t.seq && r.text == text && r.phase == t.phase
        }),
        ({
            let r = asr::replied(t, StepView::Done(text));
            r.seq == t.seq && r.text == text && r.phase == Phase::Over
        }),
        ({
            let r = asr::replied(t, StepView::Fail(e));
            r.seq == t.seq && r.text == t.text && r.phase == Phase::Over
        }),
        t.well_formed() <==> 1 <= t.seq <= i32::MAX,
{
}

/// What is stated of replies, events and outcomes is stated of the values
/// themselves.
pub proof fn law_reply_views(
    raw: RawReply,
    msg: ServerMsg,
    reply: Reply,
    event: Incoming,
    r: Result<bool, AsrError>,
    text: Seq<char>,
)
    ensures
        match raw {
            RawReply::Error { code, detail } => raw@ == (RawView::Error {
                code: code as int,
                detail: detail@,
            }),
            RawReply::Result { is_last, compressed, payload } => raw@ == (RawView::Result {
                is_last,
                compressed,
                payload: payload@,
            }),
        },
        match msg {
            ServerMsg::Error(s) => msg@ == MsgView::Error(s@),
            ServerMsg::Result { is_last, body } => msg@ == (MsgView::Result {
                is_last,
                body: body@,
            }),
        },
        reply@.code == reply.code,
        reply@.is_last_package == reply.is_last_package,
        reply.message is Some ==> reply@.message == Some(reply.message->0@),
        reply.message is None ==> reply@.message is None,
        reply.text is Some ==> reply@.text == Some(reply.text->0@),
        reply.text is None ==> reply@.text is None,
        match event {
            Incoming::Frame(f) => event@ == IncomingView::Frame(f@),
            Incoming::Closed => event@ == IncomingView::Closed,
            Incoming::TimedOut => event@ == IncomingView::TimedOut,
            Incoming::Failed(e) => event@ == IncomingView::Failed(e@),
        },
        match r {
            Ok(true) => asr::step_view(r, text) == StepView::Done(text),
            Ok(false) => asr::step_view(r, text) == StepView::More(text),
            Err(e) => asr::step_view(r, text) == StepView::Fail(e@),
        },
{
}

/// What each error is and tells the reader of a log.
pub proof fn law_stream_error_texts(s: String, code: i64)
    ensures
        AsrError::Compress@ == ErrorView::Compress,
        AsrError::Decompress@ == ErrorView::Decompress,
        AsrError::Receive(s)@ == ErrorView::Receive(s@),
        AsrError::Protocol(s)@ == ErrorView::Protocol(s@),
        AsrError::BadReply(s)@ == ErrorView::BadReply(s@),
        (AsrError::Service { code, message: s })@ == (ErrorView::Service { code, message: s@ }),
        asr::error_text(ErrorView::Compress) == "gzip 压缩失败"@,
        asr::error_text(ErrorView::Decompress) == "gzip 解压失败"@,
        asr::error_text(ErrorView::Receive(s@)) == "接收 ASR 结果失败: "@ + s@,
        asr::error_text(ErrorView::Protocol(s@)) == "ASR 协议错误: "@ + s@,
        asr::error_text(ErrorView::BadReply(s@)) == "解析 ASR 响应失败: "@ + s@,
        asr::error_text(ErrorView::Service { code, message: s@ }) == "ASR 错误 "@
            + text::signed_decimal(code as int) + ": "@ + s@,
{
}

} // verus!
