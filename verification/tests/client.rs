use voice_input::config::{default_rate, default_resource_id, AsrConfig, Config, TEMPLATE};
use voice_input::engine::{
    deliver_result, vi_finished, vi_init, vi_set_callback, vi_shutdown, vi_start, vi_state,
    vi_stop, Delivery, Start, State, VoiceInput,
};
use voice_input::logger::{debug, init, now_str};
use voice_input::recorder::{
    capture_params, read_size, DeviceState, RecordAction, RecordEvent, Recording,
};

type Client = VoiceInput<u8, &'static str, ()>;

fn config() -> Config {
    Config {
        asr: AsrConfig {
            api_key: "key".to_string(),
            resource_id: default_resource_id(),
            rate: 8000,
        },
    }
}

fn ready() -> Client {
    let mut vi = Client::new();
    assert_eq!(vi_init(&mut vi, Some(config()), Some(())), 0);
    vi
}

#[test]
fn the_template_holds_the_defaults() {
    let t: toml::Table = TEMPLATE.parse().unwrap();
    let asr = t["asr"].as_table().unwrap();
    assert_eq!(asr["api_key"].as_str(), Some(""));
    assert_eq!(asr["resource_id"].as_str().map(|s| s.to_string()), Some(default_resource_id()));
    assert_eq!(asr["rate"].as_integer(), Some(default_rate() as i64));
}

#[test]
fn settings_have_defaults() {
    assert_eq!(default_resource_id(), "volc.seedasr.sauc.duration");
    assert_eq!(default_rate(), 16000);
    let c = Config::load(Some(Ok(("k".to_string(), None, None)))).unwrap();
    assert_eq!(c.asr.api_key, "k");
    assert_eq!(c.asr.resource_id, "volc.seedasr.sauc.duration");
    assert_eq!(c.asr.rate, 16000);
    assert!(!c.lacks_key());
    let c = Config::load(Some(Ok(("".to_string(), Some("m".to_string()), Some(8000))))).unwrap();
    assert_eq!(c.asr.resource_id, "m");
    assert_eq!(c.asr.rate, 8000);
    assert!(c.lacks_key());
    assert_eq!(
        Config::load(Some(Err("e".to_string()))).err(),
        Some("解析配置失败: e".to_string())
    );
    assert_eq!(Config::load(None).err(), Some("配置缺失".to_string()));
}

#[test]
fn a_recording_runs_through_the_states() {
    let mut vi = ready();
    assert_eq!(vi_state(&vi), 0);
    let started = vi_start(&mut vi, "first");
    assert_eq!(started.code(), 0);
    assert!(matches!(started, Start::Begin { cb: None, rate: 8000, .. }));
    assert_eq!(vi_state(&vi), 1);
    let again = vi_start(&mut vi, "second");
    assert_eq!(again.code(), -2);
    assert!(matches!(again, Start::Busy(State::Recording)));
    assert_eq!(vi_stop(&mut vi), (0, Some("first")));
    assert_eq!(vi_state(&vi), 2);
    assert!(matches!(vi_start(&mut vi, "third"), Start::Busy(State::Waiting)));
    assert_eq!(vi_stop(&mut vi), (-2, None));
    vi_finished(&mut vi);
    assert_eq!(vi_state(&vi), 0);
    assert_eq!(vi_stop(&mut vi), (-2, None));
}

#[test]
fn a_stream_that_ends_early_does_not_lock_the_client() {
    let mut vi = ready();
    assert_eq!(vi_start(&mut vi, "h").code(), 0);
    vi_finished(&mut vi);
    assert_eq!(vi_state(&vi), 1);
    assert_eq!(vi_start(&mut vi, "i").code(), -2);
    assert_eq!(vi_stop(&mut vi), (0, Some("h")));
    assert_eq!(vi_state(&vi), 0);
    assert_eq!(vi_start(&mut vi, "j").code(), 0);
    assert_eq!(vi_stop(&mut vi), (0, Some("j")));
    assert_eq!(vi_state(&vi), 2);
    vi_finished(&mut vi);
    assert_eq!(vi_state(&vi), 0);
}

#[test]
fn nothing_works_before_and_after() {
    let mut vi = Client::new();
    assert_eq!(vi_state(&vi), -1);
    assert_eq!(vi_start(&mut vi, "h").code(), -1);
    assert_eq!(vi_stop(&mut vi), (-1, None));
    assert_eq!(vi_shutdown(&mut vi), -1);
    assert_eq!(vi_init(&mut vi, None, Some(())), -1);
    assert_eq!(vi_init(&mut vi, Some(config()), None), -2);
    assert_eq!(vi_state(&vi), -1);
    assert_eq!(vi_init(&mut vi, Some(config()), Some(())), 0);
    assert_eq!(vi_shutdown(&mut vi), 0);
    assert_eq!(vi_state(&vi), -1);
    vi_finished(&mut vi);
    assert_eq!(vi_shutdown(&mut vi), -1);
}

#[test]
fn an_early_callback_is_kept() {
    let mut vi = Client::new();
    vi_set_callback(&mut vi, Some(3));
    assert_eq!(vi_init(&mut vi, None, None), -1);
    assert_eq!(vi_init(&mut vi, Some(config()), Some(())), 0);
    assert!(vi.pending.is_none());
    assert!(matches!(vi_start(&mut vi, "h"), Start::Begin { cb: Some(3), .. }));
    vi_set_callback(&mut vi, None);
    vi_stop(&mut vi);
    vi_finished(&mut vi);
    assert!(matches!(vi_start(&mut vi, "h"), Start::Begin { cb: None, .. }));
}

#[test]
fn a_callback_gets_text_without_space_around_it() {
    let ok = |s: &str| Ok::<String, ()>(s.to_string());
    match deliver_result(Some(1), &ok("\u{3000} 你好 \n")) {
        Delivery::Text { cb, text } => assert_eq!((cb, text), (1, "你好".to_string())),
        _ => panic!(),
    }
    assert!(matches!(deliver_result(Some(1), &ok(" \t\u{A0}")), Delivery::Null { cb: 1 }));
    assert!(matches!(deliver_result(Some(1), &ok("a\0b")), Delivery::Null { cb: 1 }));
    assert!(matches!(deliver_result(Some(1), &Err(())), Delivery::Null { cb: 1 }));
    assert!(matches!(deliver_result(None::<u8>, &ok("a")), Delivery::Dropped));
}

#[test]
fn trimming_agrees_with_the_standard_library() {
    for n in 0..0x11_0000u32 {
        if let Some(c) = char::from_u32(n) {
            assert_eq!(voice_input::text::white_space(c), c.is_whitespace());
        }
    }
    assert_eq!(voice_input::text::trim("\u{2003}a b\u{85}"), "a b");
    assert_eq!(voice_input::text::trim(" \r\n"), "");
}

#[test]
fn numerals_agree_with_the_standard_library() {
    for s in ["", "0", "65535", "65536", "+7", "+", "-0", "007", "99999999999", "1 ", "١"] {
        let v: Vec<char> = s.chars().collect();
        assert_eq!(voice_input::text::parse_u16(&v), s.parse::<u16>().ok());
    }
}

#[test]
fn captures_are_set_up_by_the_rate() {
    let p = capture_params(16000);
    assert_eq!((p.channels, p.rate, p.buffer, p.period), (1, 16000, 16000, 800));
    assert_eq!(capture_params(2000).period, 128);
    assert_eq!(capture_params(2580).period, 129);
    assert_eq!(capture_params(u32::MAX).buffer, 4294967295);
    assert_eq!(read_size(64), 128);
    assert_eq!(read_size(800), 800);
}

#[test]
fn a_recording_goes_on_through_recoverable_errors() {
    let mut r = Recording::new();
    assert_eq!(r.step(RecordEvent::Samples(800)), RecordAction::Deliver(800));
    assert_eq!(r.step(RecordEvent::Samples(0)), RecordAction::Read);
    let failed = |errno: i32, device: DeviceState| RecordEvent::ReadError { errno, device };
    assert_eq!(r.step(failed(11, DeviceState::Other)), RecordAction::Pause(5));
    assert_eq!(r.step(failed(11, DeviceState::Overrun)), RecordAction::Pause(5));
    assert_eq!(r.step(failed(32, DeviceState::Running)), RecordAction::Recover);
    assert_eq!(r.step(failed(32, DeviceState::Overrun)), RecordAction::Recover);
    assert_eq!(r.step(failed(19, DeviceState::Other)), RecordAction::Fail);
    assert_eq!(r.step(RecordEvent::Samples(30)), RecordAction::Deliver(30));
    assert_eq!(r.step(RecordEvent::ReceiverGone), RecordAction::Finish);
    assert_eq!(r.step(RecordEvent::StopRequested), RecordAction::Finish);
    assert_eq!(r.total, 830);
}

#[test]
fn the_clock_has_two_digits_each() {
    assert_eq!(now_str(0), "00:00:00");
    assert_eq!(now_str(86399), "23:59:59");
    assert_eq!(now_str(90061), "01:01:01");
    assert_eq!(now_str(u64::MAX), "07:00:15");
}

#[test]
fn rounds_are_numbered() {
    let (round, line) = init(None, 3600);
    assert_eq!(round, 1);
    assert_eq!(line, "\n===== 第 1 轮 启动于 01:00:00 =====\n");
    let mut log = format!("{line}{}", debug("识别结果: ===== 第三"));
    assert!(log.ends_with("识别结果: ===== 第三\n"));
    let (round, line) = init(Some(&log), 0);
    assert_eq!(round, 3);
    log.push_str(&line);
    assert_eq!(init(Some(&log), 0).0, 4);
    assert_eq!(init(Some(""), 0).0, 1);
    assert_eq!(init(Some("======== 第=====第"), 0).0, 2);
}
