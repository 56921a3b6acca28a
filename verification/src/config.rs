//! Settings.

use vstd::prelude::*;
use vstd::string::*;

verus! {

/// All settings.
#[derive(Debug, Clone)]
pub struct Config {
    pub asr: AsrConfig,
}

/// The settings of the speech recognition service.
#[derive(Debug, Clone)]
pub struct AsrConfig {
    pub api_key: String,
    pub resource_id: String,
    pub rate: u32,
}

/// The model that is used where the settings name none.
pub fn default_resource_id() -> (r: String)
    ensures
        r@ == "volc.seedasr.sauc.duration"@,
{
    "volc.seedasr.sauc.duration".to_owned()
}

/// The sample rate that is used where the settings name none.
pub fn default_rate() -> (r: u32)
    ensures
        r == 16000,
{
    16000
}

impl AsrConfig {
    /// The settings with defaults for what is left out.
    pub fn from_settings(api_key: String, resource_id: Option<String>, rate: Option<u32>) -> (r:
        AsrConfig)
        ensures
            r.api_key@ == api_key@,
            r.resource_id@ == match resource_id {
                Some(id) => id@,
                None => "volc.seedasr.sauc.duration"@,
            },
            r.rate == match rate {
                Some(n) => n,
                None => 16000,
            },
    {
        AsrConfig {
            api_key,
            resource_id: match resource_id {
                Some(id) => id,
                None => default_resource_id(),
            },
            rate: match rate {
                Some(n) => n,
                None => default_rate(),
            },
        }
    }
}

impl Config {
    /// The settings that a file holds, by its key, model and sample rate, or the
    /// reason for which it cannot be read as settings. Without a file there are
    /// no settings.
    pub fn load(file: Option<Result<(String, Option<String>, Option<u32>), String>>) -> (r: Result<
        Config,
        String,
    >)
        ensures
            match file {
                None => r is Err && r->Err_0@ == "配置缺失"@,
                Some(Ok((api_key, resource_id, rate))) => {
                    &&& r is Ok
                    &&& r->Ok_0.asr.api_key@ == api_key@
                    &&& r->Ok_0.asr.resource_id@ == match resource_id {
                        Some(id) => id@,
                        None => "volc.seedasr.sauc.duration"@,
                    }
                    &&& r->Ok_0.asr.rate == match rate {
                        Some(n) => n,
                        None => 16000,
                    }
                },
                Some(Err(e)) => r is Err && r->Err_0@ == "解析配置失败: "@ + e@,
            },
    {
        match file {
            None => Err("配置缺失".to_owned()),
            Some(Ok((api_key, resource_id, rate))) => Ok(
                Config { asr: AsrConfig::from_settings(api_key, resource_id, rate) },
            ),
            Some(Err(e)) => {
                let mut s: String = "解析配置失败: ".to_owned();
                s.append(e.as_str());
                Err(s)
            },
        }
    }

    /// Whether the user has not entered a key yet.
    pub fn lacks_key(&self) -> (r: bool)
        ensures
            r == (self.asr.api_key@.len() == 0),
    {
        self.asr.api_key.as_str().is_empty()
    }
}

/// What a new settings file holds.
pub const TEMPLATE: &'static str = r#"# voice-input 配置
# 火山引擎「豆包语音」流式语音识别（Seed ASR 2.0）:
# https://console.volcengine.com/speech/new/setting/apikeys
# 在控制台「API Key 管理」创建 API Key 后填入下方。

[asr]
# API Key（新版控制台鉴权，只需这一个）
api_key = ""
# 模型资源 ID：2.0 小时版
resource_id = "volc.seedasr.sauc.duration"
# 音频采样率（仅支持 16000）
rate = 16000
"#;

} // verus!
