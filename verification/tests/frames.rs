use voice_input::ws::{
    encode_binary, encode_control, mask_of, parse_frame, Parsed, Part, Recv, WsError, WsFrame, WsStream,
};

fn server_frame(fin: bool, opcode: u8, payload: &[u8]) -> Vec<u8> {
    let mut w = vec![if fin { 0x80 | opcode } else { opcode }];
    if payload.len() < 126 {
        w.push(payload.len() as u8);
    } else if payload.len() <= 0xFFFF {
        w.push(126);
        w.extend_from_slice(&(payload.len() as u16).to_be_bytes());
    } else {
        w.push(127);
        w.extend_from_slice(&(payload.len() as u64).to_be_bytes());
    }
    w.extend_from_slice(payload);
    w
}

fn joined(parts: (Vec<u8>, Vec<u8>)) -> Vec<u8> {
    let mut w = parts.0;
    w.extend_from_slice(&parts.1);
    w
}

#[test]
fn binary_heads_have_three_sizes() {
    let mask = [1, 2, 3, 4];
    let (head, body) = encode_binary(b"abcde", &mask);
    assert_eq!(head, vec![0x82, 0x85, 1, 2, 3, 4]);
    assert_eq!(body, vec![b'a' ^ 1, b'b' ^ 2, b'c' ^ 3, b'd' ^ 4, b'e' ^ 1]);
    let (head, _) = encode_binary(&vec![0; 125], &mask);
    assert_eq!(head, vec![0x82, 0x80 | 125, 1, 2, 3, 4]);
    let (head, _) = encode_binary(&vec![0; 126], &mask);
    assert_eq!(head, vec![0x82, 0xFE, 0, 126, 1, 2, 3, 4]);
    let (head, _) = encode_binary(&vec![0; 0xFFFF], &mask);
    assert_eq!(head, vec![0x82, 0xFE, 0xFF, 0xFF, 1, 2, 3, 4]);
    let (head, _) = encode_binary(&vec![0; 0x1_0000], &mask);
    assert_eq!(head, vec![0x82, 0xFF, 0, 0, 0, 0, 0, 1, 0, 0, 1, 2, 3, 4]);
}

#[test]
fn binary_frames_are_read_back() {
    for size in [0usize, 1, 125, 126, 0xFFFF, 0x1_0000] {
        let payload: Vec<u8> = (0..size).map(|i| (i % 251) as u8).collect();
        let mut wire = joined(encode_binary(&payload, &[9, 8, 7, 6]));
        let used = wire.len();
        wire.extend_from_slice(b"rest");
        assert_eq!(
            parse_frame(&wire),
            Parsed::Frame { frame: WsFrame { fin: true, opcode: 2, payload }, used }
        );
    }
}

#[test]
fn random_masks_still_carry_the_payload() {
    let wire = joined(WsStream::send_binary(b"hello"));
    assert_eq!(wire.len(), 11);
    assert_eq!(
        parse_frame(&wire),
        Parsed::Frame {
            frame: WsFrame { fin: true, opcode: 2, payload: b"hello".to_vec() },
            used: 11
        }
    );
    let masks: Vec<Vec<u8>> =
        (0..8).map(|_| WsStream::send_binary(b"").0[2..6].to_vec()).collect();
    assert!(masks.iter().any(|m| m != &masks[0]));
}

#[test]
fn a_mask_is_the_start_of_the_random_bytes() {
    let id = [7, 0xFF, 0, 3, 4, 5, 0x46, 7, 0x88, 9, 10, 11, 12, 13, 14, 15];
    assert_eq!(mask_of(&id), [7, 0xFF, 0, 3]);
}

#[test]
fn control_frames_are_short() {
    assert_eq!(
        encode_control(0xA, b"hi", &[1, 2, 3, 4]),
        Ok(vec![0x8A, 0x82, 1, 2, 3, 4, b'h' ^ 1, b'i' ^ 2])
    );
    assert_eq!(encode_control(0xA, &[0; 126], &[0; 4]), Err(WsError::ControlTooLarge));
    let pong = WsStream::send_control(0xA, &[7; 125]).unwrap();
    assert_eq!(
        parse_frame(&pong),
        Parsed::Frame {
            frame: WsFrame { fin: true, opcode: 10, payload: vec![7; 125] },
            used: 131
        }
    );
    assert_eq!(WsStream::send_control(9, &[0; 126]), Err(WsError::ControlTooLarge));
}

#[test]
fn every_part_is_asked_for_exactly() {
    let need = |w: &[u8]| match parse_frame(w) {
        Parsed::Need { part, missing } => (part, missing),
        other => panic!("{:?}", other),
    };
    assert_eq!(need(&[]), (Part::First, 1));
    assert_eq!(need(&[0x82]), (Part::Second, 1));
    assert_eq!(need(&[0x82, 126]), (Part::Length, 2));
    assert_eq!(need(&[0x82, 127, 0, 0]), (Part::Length, 6));
    assert_eq!(need(&[0x82, 0x83, 1]), (Part::Mask, 3));
    assert_eq!(need(&[0x82, 3]), (Part::Payload, 3));
    assert_eq!(need(&[0x82, 3, 1]), (Part::Payload, 2));
}

#[test]
fn bad_frames_are_refused_by_their_head() {
    let bad = |error: WsError, used: usize| Parsed::Bad { error, used };
    assert_eq!(parse_frame(&[0x09, 0]), bad(WsError::BadControl, 2));
    assert_eq!(parse_frame(&[0x89, 126, 0, 200]), bad(WsError::BadControl, 4));
    assert_eq!(
        parse_frame(&[0x82, 127, 0, 0, 0, 0, 1, 0, 0, 1]),
        bad(WsError::TooLarge(16 * 1024 * 1024 + 1), 10)
    );
    assert_eq!(
        parse_frame(&[0x82, 127, 0, 0, 0, 0, 1, 0, 0, 0]),
        Parsed::Need { part: Part::Payload, missing: 16 * 1024 * 1024 }
    );
    assert_eq!(
        parse_frame(&[0x82, 127, 255, 255, 255, 255, 255, 255, 255, 255]),
        bad(WsError::TooLarge(u64::MAX), 10)
    );
}

#[test]
fn a_refused_head_is_taken_off_the_wire() {
    let mut wire = vec![0x89, 126, 0, 200];
    wire.extend(server_frame(true, 2, b"next"));
    let mut ws = WsStream::new(wire);
    assert_eq!(ws.recv(), Err(WsError::BadControl));
    assert_eq!(ws.recv(), Ok(Recv::Message(b"next".to_vec())));
}

#[test]
fn fragments_are_joined_around_control_frames() {
    let mut wire = server_frame(false, 1, b"ab");
    wire.extend(server_frame(true, 9, b"ping"));
    wire.extend(server_frame(false, 0, b"cd"));
    wire.extend(server_frame(true, 10, b"pong"));
    wire.extend(server_frame(true, 0, b"ef"));
    wire.extend(server_frame(true, 2, b"next"));
    wire.extend(server_frame(true, 8, b""));
    let mut ws = WsStream::new(wire);
    assert_eq!(ws.recv(), Ok(Recv::Pong(b"ping".to_vec())));
    assert_eq!(ws.recv(), Ok(Recv::Message(b"abcdef".to_vec())));
    assert_eq!(ws.recv(), Ok(Recv::Message(b"next".to_vec())));
    assert_eq!(ws.recv(), Ok(Recv::Closed));
    assert_eq!(ws.recv(), Ok(Recv::Read { part: Part::First, missing: 1 }));
}

#[test]
fn bytes_may_come_one_at_a_time() {
    let mut wire = server_frame(false, 2, &[5; 130]);
    wire.extend(server_frame(true, 0, &[6; 3]));
    let mut ws = WsStream::new(Vec::new());
    let mut got = Vec::new();
    for b in &wire {
        match ws.recv() {
            Ok(Recv::Read { missing, .. }) => assert!(missing >= 1),
            other => panic!("{:?}", other),
        }
        ws.supply(&[*b]);
    }
    if let Ok(Recv::Message(m)) = ws.recv() {
        got = m;
    }
    let mut want = vec![5; 130];
    want.extend_from_slice(&[6; 3]);
    assert_eq!(got, want);
}

#[test]
fn fragments_do_not_nest() {
    let mut ws = WsStream::new(server_frame(true, 0, b"x"));
    assert_eq!(ws.recv(), Err(WsError::OrphanContinuation));
    let mut wire = server_frame(false, 1, b"x");
    wire.extend(server_frame(true, 2, b"y"));
    let mut ws = WsStream::new(wire);
    assert_eq!(ws.recv(), Err(WsError::NestedData));
    let mut ws = WsStream::new(server_frame(true, 3, b""));
    assert_eq!(ws.recv(), Err(WsError::UnknownOpcode(3)));
    let mut ws = WsStream::new(server_frame(true, 11, b""));
    assert_eq!(ws.recv(), Err(WsError::UnknownOpcode(11)));
}

#[test]
fn the_end_of_a_stream_is_clean_only_between_frames() {
    assert_eq!(WsStream::ended(Part::First), Ok(()));
    assert_eq!(WsStream::ended(Part::Second), Err(WsError::HeaderIncomplete));
    assert_eq!(WsStream::ended(Part::Length), Err(WsError::LengthIncomplete));
    assert_eq!(WsStream::ended(Part::Mask), Err(WsError::MaskIncomplete));
    assert_eq!(WsStream::ended(Part::Payload), Err(WsError::PayloadIncomplete));
}

#[test]
fn connection_errors_have_messages() {
    let text = |e: WsError| e.message();
    assert_eq!(text(WsError::NotWss), "仅支持 wss:// 地址");
    assert_eq!(text(WsError::BadPort), "端口无效");
    assert_eq!(text(WsError::BadHost("h".to_string())), "无效的主机名: h");
    assert_eq!(text(WsError::HandshakeClosed), "握手时连接关闭");
    assert_eq!(text(WsError::HandshakeTooLarge), "握手响应过大");
    assert_eq!(text(WsError::Rejected("HTTP".to_string())), "WebSocket 握手失败: HTTP");
    assert_eq!(text(WsError::BadAccept), "WebSocket 握手缺少有效的 Sec-WebSocket-Accept");
    assert_eq!(text(WsError::OrphanContinuation), "收到没有起始帧的 continuation 帧");
    assert_eq!(text(WsError::NestedData), "收到嵌套的 WebSocket 数据帧");
    assert_eq!(text(WsError::UnknownOpcode(11)), "未知 WebSocket opcode: 11");
    assert_eq!(text(WsError::ControlTooLarge), "WebSocket 控制帧过大");
    assert_eq!(text(WsError::BadControl), "非法 WebSocket 控制帧");
    assert_eq!(text(WsError::TooLarge(16777217)), "WebSocket 帧过大: 16777217 字节");
    assert_eq!(text(WsError::HeaderIncomplete), "帧头不完整");
    assert_eq!(text(WsError::LengthIncomplete), "帧长不完整");
    assert_eq!(text(WsError::MaskIncomplete), "掩码不完整");
    assert_eq!(text(WsError::PayloadIncomplete), "帧数据不完整");
}
