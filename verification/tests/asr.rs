use std::io::Read;
use voice_input::asr::{
    format_uuid, frame_request, parse_server_frame, protocol_error, read_reply, split_reply,
    AsrClient, AsrError, Incoming, Phase, RawReply, Reply, ServerMsg, Transcription,
};
use voice_input::config::AsrConfig;

fn client() -> AsrClient {
    AsrClient::new(&AsrConfig {
        api_key: "key".to_string(),
        resource_id: "model".to_string(),
        rate: 16000,
    })
}

fn gunzip(data: &[u8]) -> Vec<u8> {
    let mut out = Vec::new();
    flate2::read::GzDecoder::new(data).read_to_end(&mut out).unwrap();
    out
}

fn seq_of(frame: &[u8]) -> i32 {
    i32::from_be_bytes([frame[4], frame[5], frame[6], frame[7]])
}

fn opened() -> Transcription {
    client().transcribe().unwrap().0
}

fn waiting() -> Transcription {
    let mut t = opened();
    t.send_last().unwrap();
    t
}

fn result_frame(flags: u8, body: &str) -> Incoming {
    let mut f = vec![0x11, 0x90 | flags, 0x10, 0];
    if flags & 1 != 0 {
        f.extend_from_slice(&[0, 0, 0, 1]);
    }
    f.extend_from_slice(&(body.len() as u32).to_be_bytes());
    f.extend_from_slice(body.as_bytes());
    Incoming::Frame(f)
}

#[test]
fn heads_hold_kind_and_flags() {
    assert_eq!(AsrClient::header(1, 1), [0x11, 0x11, 0x11, 0]);
    assert_eq!(AsrClient::header(2, 3), [0x11, 0x23, 0x11, 0]);
}

#[test]
fn requests_are_laid_out_in_big_endian() {
    assert_eq!(
        frame_request(2, 3, -2, &[7, 8, 9]),
        vec![0x11, 0x23, 0x11, 0, 0xFF, 0xFF, 0xFF, 0xFE, 0, 0, 0, 3, 7, 8, 9]
    );
}

#[test]
fn a_body_is_compressed_and_comes_back() {
    let data = vec![b'a'; 1000];
    let z = AsrClient::gzip(&data).unwrap();
    assert!(z.len() < 100);
    assert_eq!(gunzip(&z), data);
    assert_eq!(AsrClient::gunzip(&z), Ok(data));
    assert_eq!(AsrClient::gunzip(b"no gzip"), Err(AsrError::Decompress));
    let f = AsrClient::request_pkg(2, 1, 5, b"payload").unwrap();
    assert_eq!(&f[..4], &[0x11, 0x21, 0x11, 0]);
    assert_eq!(seq_of(&f), 5);
    assert_eq!(u32::from_be_bytes([f[8], f[9], f[10], f[11]]) as usize, f.len() - 12);
    assert_eq!(gunzip(&f[12..]), b"payload".to_vec());
}

#[test]
fn the_opening_names_audio_and_model() {
    assert_eq!(
        client().opening_json(),
        "{\"audio\":{\"bits\":16,\"channel\":1,\"codec\":\"raw\",\"format\":\"pcm\",\"rate\":16000},\
         \"request\":{\"enable_ddc\":true,\"enable_itn\":true,\"enable_punc\":true,\
         \"model_name\":\"bigmodel\"},\"user\":{\"uid\":\"voice-input\"}}"
    );
}

#[test]
fn the_headers_identify_client_and_request() {
    assert_eq!(
        client().headers("id"),
        [
            ("X-Api-Key", "key"),
            ("X-Api-Resource-Id", "model"),
            ("X-Api-Request-Id", "id"),
            ("X-Api-Sequence", "-1"),
        ]
    );
}

#[test]
fn request_identifiers_are_uuids() {
    let id: [u8; 16] = [
        0x00, 0x1f, 0xa2, 0xff, 0x10, 0x20, 0x40, 0x41, 0x80, 0x81, 1, 2, 3, 4, 5, 0xfe,
    ];
    assert_eq!(format_uuid(&id), "001fa2ff-1020-4041-8081-0102030405fe");
    assert_eq!(format_uuid(&id), uuid::Uuid::from_bytes(id).to_string());
    let a = AsrClient::new_request_id();
    assert_eq!(uuid::Uuid::parse_str(&a).unwrap().get_version_num(), 4);
    assert_ne!(a, AsrClient::new_request_id());
}

#[test]
fn a_stream_is_numbered_and_ends_with_a_negative_number() {
    let (mut t, first) = client().transcribe().unwrap();
    assert_eq!(&first[..4], &[0x11, 0x11, 0x11, 0]);
    assert_eq!(seq_of(&first), 1);
    assert_eq!(gunzip(&first[12..]), client().opening_json().into_bytes());
    let a = t.send_audio(&[1, -2, 0x1234]).unwrap();
    assert_eq!(&a[..4], &[0x11, 0x21, 0x11, 0]);
    assert_eq!(seq_of(&a), 2);
    assert_eq!(gunzip(&a[12..]), vec![1, 0, 0xFE, 0xFF, 0x34, 0x12]);
    let b = t.send_audio(&[i16::MIN, i16::MAX]).unwrap();
    assert_eq!(seq_of(&b), 3);
    assert_eq!(gunzip(&b[12..]), vec![0, 0x80, 0xFF, 0x7F]);
    let last = t.send_last().unwrap();
    assert_eq!(&last[..4], &[0x11, 0x23, 0x11, 0]);
    assert_eq!(seq_of(&last), -4);
    assert_eq!(gunzip(&last[12..]), Vec::<u8>::new());
}

#[test]
fn results_may_be_compressed_and_numbered() {
    let plain = vec![0x11, 0x90, 0x10, 0, 0, 0, 0, 2, b'{', b'}'];
    assert_eq!(
        parse_server_frame(&plain),
        Some(ServerMsg::Result { is_last: false, body: b"{}".to_vec() })
    );
    let z = AsrClient::gzip(b"{\"a\":1}").unwrap();
    let mut packed = vec![0x11, 0x93, 0x11, 0, 0xFF, 0xFF, 0xFF, 0xFE];
    packed.extend_from_slice(&(z.len() as u32).to_be_bytes());
    packed.extend_from_slice(&z);
    assert_eq!(
        parse_server_frame(&packed),
        Some(ServerMsg::Result { is_last: true, body: b"{\"a\":1}".to_vec() })
    );
    assert_eq!(
        split_reply(&packed),
        Some(RawReply::Result { is_last: true, compressed: true, payload: z })
    );
}

#[test]
fn a_head_may_be_longer_or_the_length_too_large() {
    let long = vec![0x12, 0x92, 0x10, 0, 9, 9, 9, 9, 0, 0, 0, 1, b'x', b'y'];
    assert_eq!(
        parse_server_frame(&long),
        Some(ServerMsg::Result { is_last: true, body: b"x".to_vec() })
    );
    let cut = vec![0x11, 0x90, 0x10, 0, 0xFF, 0xFF, 0xFF, 0xFF, b'x', b'y'];
    assert_eq!(
        parse_server_frame(&cut),
        Some(ServerMsg::Result { is_last: false, body: b"xy".to_vec() })
    );
    let headless = vec![0x00, 0x90, 0x00, 0x01];
    assert_eq!(
        parse_server_frame(&headless),
        Some(ServerMsg::Result { is_last: false, body: Vec::new() })
    );
}

#[test]
fn protocol_errors_are_told() {
    let mut f = vec![0x11, 0xF0, 0x10, 0];
    f.extend_from_slice(&(-45i32).to_be_bytes());
    f.extend_from_slice(&3u32.to_be_bytes());
    f.extend_from_slice(b"bad and more");
    assert_eq!(parse_server_frame(&f), Some(ServerMsg::Error("错误码 -45: bad".to_string())));
    let mut g = vec![0x11, 0xF1, 0x10, 0, 0, 0, 0, 1];
    g.extend_from_slice(&45000001i32.to_be_bytes());
    g.extend_from_slice(&2u32.to_be_bytes());
    g.extend_from_slice(b"a\xFF");
    assert_eq!(
        parse_server_frame(&g),
        Some(ServerMsg::Error("错误码 45000001: a\u{FFFD}".to_string()))
    );
    assert_eq!(protocol_error(i32::MIN, "x"), "错误码 -2147483648: x");
    assert_eq!(protocol_error(0, ""), "错误码 0: ");
}

#[test]
fn what_is_no_reply_gives_nothing() {
    assert_eq!(parse_server_frame(&[0x11, 0x90, 0x10]), None);
    assert_eq!(parse_server_frame(&[0x11, 0x90, 0x10, 0, 0, 0, 0]), None);
    assert_eq!(parse_server_frame(&[0x11, 0xF0, 0x10, 0, 0, 0, 0, 0, 0, 0, 0]), None);
    assert_eq!(parse_server_frame(&[0x11, 0xB0, 0x10, 0, 0, 0, 0, 0]), None);
    assert_eq!(parse_server_frame(&[0x11, 0x90, 0x11, 0, 0, 0, 0, 1, b'x']), None);
    assert_eq!(parse_server_frame(&[0x1F, 0x90, 0x10, 0, 0, 0, 0, 0]), None);
}

#[test]
fn bodies_are_read_as_json() {
    assert_eq!(
        read_reply(
            b"{\"code\":7,\"message\":\"m\",\"result\":{\"text\":\"t\"},\"is_last_package\":true}"
        ),
        Ok(Reply {
            code: Some(7),
            message: Some("m".to_string()),
            text: Some("t".to_string()),
            is_last_package: Some(true),
        })
    );
    let nothing = Reply { code: None, message: None, text: None, is_last_package: None };
    assert_eq!(
        read_reply(
            b"{\"code\":\"7\",\"message\":1,\"result\":{\"text\":null},\"is_last_package\":0}"
        ),
        Ok(nothing)
    );
    match read_reply(b"{") {
        Err(AsrError::BadReply(e)) => assert!(e.contains("EOF")),
        other => panic!("{:?}", other),
    }
}

#[test]
fn texts_are_collected_until_the_last_reply() {
    let mut t = waiting();
    assert_eq!(t.receive(result_frame(1, "{\"result\":{\"text\":\"你\"}}")), Ok(false));
    assert_eq!(t.receive(Incoming::Frame(vec![1, 2])), Ok(false));
    assert_eq!(t.receive(result_frame(0, "{\"code\":0}")), Ok(false));
    assert_eq!(t.receive(result_frame(3, "{\"result\":{\"text\":\"好\"}}")), Ok(true));
    assert_eq!(t.into_text(), "你好");
    let mut t = waiting();
    assert_eq!(
        t.receive(result_frame(0, "{\"result\":{\"text\":\"x\"},\"is_last_package\":true}")),
        Ok(true)
    );
    assert_eq!(t.into_text(), "x");
}

#[test]
fn silence_ends_a_stream_with_its_text() {
    for event in [Incoming::Closed, Incoming::TimedOut] {
        let mut t = waiting();
        assert_eq!(t.receive(result_frame(0, "{\"result\":{\"text\":\"a\"}}")), Ok(false));
        assert_eq!(t.receive(event), Ok(true));
        assert_eq!(t.into_text(), "a");
    }
}

#[test]
fn failures_end_a_stream() {
    let fail = |event: Incoming| {
        let mut t = waiting();
        assert_eq!(t.receive(result_frame(0, "{\"result\":{\"text\":\"a\"}}")), Ok(false));
        let e = t.receive(event).unwrap_err();
        assert_eq!(t.phase(), Phase::Over);
        assert_eq!(t.into_text(), "a");
        e
    };
    assert_eq!(
        fail(result_frame(0, "{\"code\":5,\"message\":\"no\",\"result\":{\"text\":\"b\"}}")),
        AsrError::Service { code: 5, message: "no".to_string() }
    );
    assert_eq!(
        fail(result_frame(2, "{\"code\":-5}")),
        AsrError::Service { code: -5, message: "unknown".to_string() }
    );
    assert_eq!(
        fail(Incoming::Failed("eof".to_string())),
        AsrError::Receive("eof".to_string())
    );
    let error = vec![0x11, 0xF0, 0x10, 0, 0, 0, 0, 9, 0, 0, 0, 1, b'!'];
    assert_eq!(fail(Incoming::Frame(error)), AsrError::Protocol("错误码 9: !".to_string()));
    assert!(matches!(fail(result_frame(0, "x")), AsrError::BadReply(_)));
}

#[test]
fn a_stream_takes_audio_then_replies_then_nothing() {
    let mut t = opened();
    assert_eq!(t.phase(), Phase::Audio);
    t.send_audio(&[1]).unwrap();
    assert_eq!(t.phase(), Phase::Audio);
    t.send_last().unwrap();
    assert_eq!(t.phase(), Phase::Replies);
    assert_eq!(t.receive(result_frame(0, "{}")), Ok(false));
    assert_eq!(t.phase(), Phase::Replies);
    assert_eq!(t.receive(result_frame(2, "{}")), Ok(true));
    assert_eq!(t.phase(), Phase::Over);
}

#[test]
fn a_reply_can_be_applied_directly() {
    let mut t = waiting();
    let reply = Reply {
        code: Some(0),
        message: None,
        text: Some("hi".to_string()),
        is_last_package: Some(false),
    };
    assert_eq!(t.apply_reply(true, reply), Ok(true));
    assert_eq!(t.into_text(), "hi");
}

#[test]
fn stream_errors_have_messages() {
    assert_eq!(AsrError::Compress.message(), "gzip 压缩失败");
    assert_eq!(AsrError::Decompress.message(), "gzip 解压失败");
    assert_eq!(AsrError::Receive("e".to_string()).message(), "接收 ASR 结果失败: e");
    assert_eq!(AsrError::Protocol("p".to_string()).message(), "ASR 协议错误: p");
    assert_eq!(AsrError::BadReply("b".to_string()).message(), "解析 ASR 响应失败: b");
    assert_eq!(
        AsrError::Service { code: i64::MIN, message: "m".to_string() }.message(),
        "ASR 错误 -9223372036854775808: m"
    );
}

#[test]
fn the_next_number_grows_with_the_audio() {
    let mut t = opened();
    assert_eq!(t.number(), 2);
    t.send_audio(&[]).unwrap();
    assert_eq!(t.number(), 3);
    assert_eq!(seq_of(&t.send_last().unwrap()), -3);
    assert_eq!(t.number(), 3);
}
