//! What holds of the streams of the service as a whole.

use crate::asr;
use crate::asr::{IncomingView, MsgView, Phase, RawView, StepView, TranscriptionView};
use crate::bytes;
use crate::outside;
use vstd::prelude::*;

verus! {

// ---------------------------------------------------------------- requests

/// The kind of a request.
pub open spec fn kind_of(frame: Seq<u8>) -> u8 {
    frame[1] / 16
}

/// The flags of a request.
pub open spec fn flags_of(frame: Seq<u8>) -> u8 {
    frame[1] % 16
}

/// The sequence number of a request.
pub open spec fn seq_of(frame: Seq<u8>) -> int {
    bytes::signed32(bytes::be_value(frame.subrange(4, 8)))
}

/// The length of the body that a request states.
pub open spec fn stated_length(frame: Seq<u8>) -> nat {
    bytes::be_value(frame.subrange(8, 12))
}

/// The body of a request.
pub open spec fn body_of(frame: Seq<u8>) -> Seq<u8> {
    frame.skip(12)
}

/// Every field of a request is read back from the frame.
pub proof fn law_request_fields(msg_type: u8, flags: u8, seq: i32, body: Seq<u8>)
    requires
        msg_type < 16,
        flags < 16,
        body.len() < 0x1_0000_0000,
    ensures
        ({
            let f = asr::request_frame(msg_type, flags, seq as int, body);
            &&& f.len() == 12 + body.len()
            &&& kind_of(f) == msg_type
            &&& flags_of(f) == flags
            &&& seq_of(f) == seq
            &&& stated_length(f) == body.len()
            &&& body_of(f) == body
        }),
{
    let f = asr::request_frame(msg_type, flags, seq as int, body);
    let pattern = bytes::pattern32(seq as int);
    bytes::lemma_pow256_values();
    bytes::law_pattern32_roundtrip(seq);
    bytes::law_be_roundtrip(pattern, 4);
    bytes::law_be_roundtrip(body.len(), 4);
    let b1 = (msg_type << 4) | flags;
    assert(b1 / 16 == msg_type && b1 % 16 == flags) by (bit_vector)
        requires
            b1 == (msg_type << 4) | flags,
            msg_type < 16,
            flags < 16,
    ;
    assert(f[1] == b1);
    assert(f.subrange(4, 8) =~= bytes::be_bytes(pattern, 4));
    assert(f.subrange(8, 12) =~= bytes::be_bytes(body.len(), 4));
    assert(f.skip(12) =~= body);
}

/// A stream after `n` chunks of audio.
pub open spec fn after_chunks(n: nat) -> TranscriptionView
    decreases n,
{
    if n == 0 {
        asr::opened()
    } else {
        asr::audio_sent(after_chunks((n - 1) as nat))
    }
}

/// The requests of a stream with the given chunks of audio: the one that opens
/// it, one for each chunk, and the one that ends the audio.
pub open spec fn stream_request(rate: u32, chunks: Seq<Seq<i16>>, i: int) -> Option<Seq<u8>> {
    if i == 0 {
        asr::opening_request(rate)
    } else if i <= chunks.len() {
        asr::audio_request(after_chunks((i - 1) as nat), chunks[i - 1])
    } else {
        asr::last_request(after_chunks(chunks.len()))
    }
}

proof fn lemma_after_chunks(n: nat)
    ensures
        after_chunks(n).seq == n + 2,
    decreases n,
{
    if n > 0 {
        lemma_after_chunks((n - 1) as nat);
    }
}

/// Requests are numbered from one on without a gap; the last one alone has the
/// negative of its number and is flagged as the last; the first one alone is
/// not audio.
pub proof fn law_stream_numbering(rate: u32, chunks: Seq<Seq<i16>>, i: int)
    requires
        0 <= i <= chunks.len() + 1,
        chunks.len() + 2 <= i32::MAX,
        stream_request(rate, chunks, i) is Some,
        stream_request(rate, chunks, i)->0.len() < 12 + 0x1_0000_0000,
    ensures
        ({
            let f = stream_request(rate, chunks, i)->0;
            let last = i == chunks.len() + 1;
            &&& seq_of(f) == if last {
                -(i + 1)
            } else {
                i + 1
            }
            &&& flags_of(f) == if last {
                asr::FLAG_NEG_WITH_SEQUENCE
            } else {
                asr::FLAG_POS_SEQUENCE
            }
            &&& kind_of(f) == if i == 0 {
                asr::MSG_FULL_REQUEST
            } else {
                asr::MSG_AUDIO_ONLY
            }
        }),
{
    let f = stream_request(rate, chunks, i)->0;
    let payload = if i == 0 {
        asr::opening_body(rate)
    } else if i <= chunks.len() {
        bytes::pcm(chunks[i - 1])
    } else {
        seq![]
    };
    let body = outside::gzip_of(payload)->0;
    lemma_after_chunks(chunks.len());
    if 0 < i {
        lemma_after_chunks((i - 1) as nat);
    }
    bytes::lemma_be_bytes_len(bytes::pattern32(i + 1), 4);
    bytes::lemma_be_bytes_len(bytes::pattern32(-(i + 1)), 4);
    bytes::lemma_be_bytes_len(body.len(), 4);
    if i == 0 {
        law_request_fields(asr::MSG_FULL_REQUEST, asr::FLAG_POS_SEQUENCE, 1, body);
    } else if i <= chunks.len() {
        law_request_fields(asr::MSG_AUDIO_ONLY, asr::FLAG_POS_SEQUENCE, (i + 1) as i32, body);
    } else {
        law_request_fields(
            asr::MSG_AUDIO_ONLY,
            asr::FLAG_NEG_WITH_SEQUENCE,
            (-(i + 1)) as i32,
            body,
        );
    }
}

/// A stream takes audio, then replies, then nothing: no step leads back, a step
/// of the replies goes on exactly where more is waited for, and only audio uses
/// up sequence numbers.
pub proof fn law_phases(t: TranscriptionView, step: StepView)
    ensures
        asr::audio_sent(t).phase == t.phase,
        asr::audio_sent(t).seq == t.seq + 1,
        asr::audio_ended(t).phase == Phase::Replies,
        asr::audio_ended(t).seq == t.seq,
        t.phase == Phase::Replies ==> asr::replied(t, step).phase == if step is More {
            Phase::Replies
        } else {
            Phase::Over
        },
        asr::replied(t, step).seq == t.seq,
{
}

// ---------------------------------------------------------------- replies

/// A reply with a result: a four-byte head, a sequence number where the lowest
/// flag is set, and the payload with its length.
pub open spec fn result_frame(flags: u8, compression: u8, number: Seq<u8>, payload: Seq<u8>) -> Seq<
    u8,
> {
    seq![0x11u8, (0x90 + flags) as u8, (0x10 + compression) as u8, 0x00u8] + number
        + bytes::be_bytes(payload.len(), 4) + payload
}

/// A reply that reports a protocol error, in the same layout.
pub open spec fn error_frame(flags: u8, number: Seq<u8>, code: i32, detail: Seq<u8>) -> Seq<u8> {
    seq![0x11u8, (0xF0 + flags) as u8, 0x10u8, 0x00u8] + number + bytes::be_bytes(
        bytes::pattern32(code as int),
        4,
    ) + bytes::be_bytes(detail.len(), 4) + detail
}

/// A result is read back from its frame, with or without a sequence number,
/// and the second flag tells whether it is the last.
pub proof fn law_result_roundtrip(flags: u8, compression: u8, number: Seq<u8>, payload: Seq<u8>)
    requires
        flags < 16,
        compression < 16,
        number.len() == if flags % 2 == 1 {
            4nat
        } else {
            0
        },
        payload.len() < 0x1_0000_0000,
    ensures
        asr::raw_reply(result_frame(flags, compression, number, payload)) == Some(
            RawView::Result {
                is_last: flags / 2 % 2 == 1,
                compressed: compression == asr::COMPRESSION_GZIP,
                payload,
            },
        ),
{
    let f = result_frame(flags, compression, number, payload);
    bytes::lemma_pow256_values();
    bytes::law_be_roundtrip(payload.len(), 4);
    let at = asr::fields_at(f);
    assert(at == 4 + number.len());
    assert(f.subrange(at, at + 4) =~= bytes::be_bytes(payload.len(), 4));
    assert(f.subrange(at + 4, f.len() as int) =~= payload);
}

/// A result whose payload decompresses is delivered with the decompressed body,
/// and one that is not compressed with the payload itself.
pub proof fn law_result_delivered(
    flags: u8,
    compression: u8,
    number: Seq<u8>,
    payload: Seq<u8>,
    body: Seq<u8>,
)
    requires
        flags < 16,
        compression < 16,
        number.len() == if flags % 2 == 1 {
            4nat
        } else {
            0
        },
        payload.len() < 0x1_0000_0000,
        if compression == asr::COMPRESSION_GZIP {
            outside::gunzip_of(payload) == Some(body)
        } else {
            payload == body
        },
    ensures
        asr::server_msg(result_frame(flags, compression, number, payload)) == Some(
            MsgView::Result { is_last: flags / 2 % 2 == 1, body },
        ),
{
    law_result_roundtrip(flags, compression, number, payload);
}

/// A protocol error is read back from its frame.
pub proof fn law_error_roundtrip(flags: u8, number: Seq<u8>, code: i32, detail: Seq<u8>)
    requires
        flags < 16,
        number.len() == if flags % 2 == 1 {
            4nat
        } else {
            0
        },
        detail.len() < 0x1_0000_0000,
    ensures
        asr::raw_reply(error_frame(flags, number, code, detail)) == Some(
            RawView::Error { code: code as int, detail },
        ),
{
    let f = error_frame(flags, number, code, detail);
    let pattern = bytes::pattern32(code as int);
    bytes::lemma_pow256_values();
    bytes::law_pattern32_roundtrip(code);
    bytes::law_be_roundtrip(pattern, 4);
    bytes::law_be_roundtrip(detail.len(), 4);
    let at = asr::fields_at(f);
    assert(at == 4 + number.len());
    assert(f.subrange(at, at + 4) =~= bytes::be_bytes(pattern, 4));
    assert(f.subrange(at + 4, at + 8) =~= bytes::be_bytes(detail.len(), 4));
    assert(f.subrange(at + 8, f.len() as int) =~= detail);
}

/// Where the payload of a reply ends by the length that the reply states.
pub open spec fn payload_end(frame: Seq<u8>) -> int {
    let at = asr::fields_at(frame) + if frame[1] / 16 == asr::MSG_SERVER_ERROR {
        4int
    } else {
        0
    };
    at + 4 + bytes::be_value(frame.subrange(at, at + 4))
}

/// Bytes after the payload that a reply states change nothing.
pub proof fn law_trailing_bytes_are_ignored(frame: Seq<u8>, more: Seq<u8>)
    requires
        asr::raw_reply(frame) is Some,
        payload_end(frame) <= frame.len(),
    ensures
        asr::raw_reply(frame + more) == asr::raw_reply(frame),
        asr::server_msg(frame + more) == asr::server_msg(frame),
{
    let longer = frame + more;
    let at = asr::fields_at(frame);
    assert(longer[0] == frame[0] && longer[1] == frame[1] && longer[2] == frame[2]);
    assert(longer.subrange(at, at + 4) =~= frame.subrange(at, at + 4));
    let start = if frame[1] / 16 == asr::MSG_SERVER_ERROR {
        assert(longer.subrange(at + 4, at + 8) =~= frame.subrange(at + 4, at + 8));
        at + 8
    } else {
        at + 4
    };
    let end = payload_end(frame);
    assert(longer.subrange(start, end) =~= frame.subrange(start, end));
}

// ---------------------------------------------------------------- the text

/// Where a stream stands after all of `events`.
pub open spec fn run(so_far: Seq<char>, events: Seq<IncomingView>) -> StepView
    decreases events.len(),
{
    if events.len() == 0 {
        StepView::More(so_far)
    } else {
        match run(so_far, events.drop_last()) {
            StepView::More(t) => asr::incoming_step(t, events.last()),
            ended => ended,
        }
    }
}

/// The text that an event adds.
pub open spec fn added_by(event: IncomingView) -> Seq<char> {
    match event {
        IncomingView::Frame(f) => match asr::server_msg(f) {
            Some(MsgView::Result { is_last, body }) => asr::added_text(asr::reply_of(body)),
            _ => seq![],
        },
        _ => seq![],
    }
}

/// The texts that events add, one after the other.
pub open spec fn added_by_all(events: Seq<IncomingView>) -> Seq<char>
    decreases events.len(),
{
    if events.len() == 0 {
        seq![]
    } else {
        added_by_all(events.drop_last()) + added_by(events.last())
    }
}

/// While a stream goes on, its text is that of all replies in the order in
/// which they came; and so it is when the last event ends it.
pub proof fn law_text_accumulates(so_far: Seq<char>, events: Seq<IncomingView>)
    requires
        events.len() > 0 ==> run(so_far, events.drop_last()) is More,
    ensures
        run(so_far, events) matches StepView::More(t) ==> t == so_far + added_by_all(events),
        run(so_far, events) matches StepView::Done(t) ==> t == so_far + added_by_all(events),
    decreases events.len(),
{
    if events.len() == 0 {
        assert(so_far + added_by_all(events) =~= so_far);
    } else {
        let before = events.drop_last();
        if before.len() > 0 {
            assert(run(so_far, before.drop_last()) is More);
        }
        law_text_accumulates(so_far, before);
        let t = run(so_far, before)->More_0;
        assert(t + added_by(events.last()) =~= so_far + added_by_all(events));
        assert(t + Seq::<char>::empty() =~= t);
    }
}

/// When the connection ends, or no reply comes in time, the text so far is the
/// result.
pub proof fn law_silence_keeps_text(
    so_far: Seq<char>,
    events: Seq<IncomingView>,
    event: IncomingView,
)
    requires
        event is Closed || event is TimedOut,
        run(so_far, events) is More,
    ensures
        run(so_far, events.push(event)) == StepView::Done(run(so_far, events)->More_0),
{
    assert(events.push(event).drop_last() =~= events);
}

} // verus!
