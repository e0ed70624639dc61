//! Configuration shapes for the pipeline and its collaborators, with their
//! defaults. Reading them from files is left to the surrounding program.

use vstd::prelude::*;

verus! {

/// Ingestion configuration: which platforms to watch, with what identity.
#[derive(Debug, Clone, Default)]
pub struct DanmakuConfig {
    pub twitch: Option<TwitchConfig>,
    pub youtube: Option<YouTubeConfig>,
}

#[derive(Debug, Clone, Default)]
pub struct TwitchConfig {
    pub enabled: bool,
    pub client_id: Option<String>,
    pub client_secret: Option<String>,
    pub bot_username: Option<String>,
    pub oauth_token: Option<String>,
    pub channels: Vec<String>,
}

#[derive(Debug, Clone, Default)]
pub struct YouTubeConfig {
    pub enabled: bool,
    pub api_key: Option<String>,
    pub client_id: Option<String>,
    pub client_secret: Option<String>,
    pub refresh_token: Option<String>,
    pub channel_id: Option<String>,
}

pub fn default_queue_capacity() -> (r: usize)
    ensures
        r == 512,
{
    512
}

/// The default pacing interval: one emission per 667 ms, the integer form of
/// one and a half messages per second.
pub fn default_min_interval_ms() -> (r: u64)
    ensures
        r == 667,
{
    667
}

pub fn default_max_words() -> (r: usize)
    ensures
        r == 77,
{
    77
}

pub fn default_max_chars() -> (r: usize)
    ensures
        r == 280,
{
    280
}

pub fn default_tts_endpoint() -> (r: String)
    ensures
        r@ == "http://127.0.0.1:27121/api/tts"@,
{
    String::from_str("http://127.0.0.1:27121/api/tts")
}

pub fn default_bind_addr() -> (r: String)
    ensures
        r@ == "0.0.0.0:27121"@,
{
    String::from_str("0.0.0.0:27121")
}

pub fn default_max_parallel() -> (r: usize)
    ensures
        r == 2,
{
    2
}

/// Bounded-queue configuration: capacity, and the minimum spacing between
/// emissions in milliseconds.
#[derive(Debug, Clone)]
pub struct QueueConfig {
    pub capacity: usize,
    pub min_interval_ms: u64,
}

impl Default for QueueConfig {
    fn default() -> (r: Self)
        ensures
            r.capacity == 512,
            r.min_interval_ms == 667,
    {
        QueueConfig { capacity: default_queue_capacity(), min_interval_ms: default_min_interval_ms() }
    }
}

/// Sanitiser configuration.
#[derive(Debug, Clone)]
pub struct FilterConfig {
    pub max_words: usize,
    pub max_chars: usize,
    pub banned_keywords: Vec<String>,
    pub allow_links: bool,
}

impl Default for FilterConfig {
    fn default() -> (r: Self)
        ensures
            r.max_words == 77,
            r.max_chars == 280,
            r.banned_keywords@.len() == 0,
            r.allow_links == false,
    {
        FilterConfig {
            max_words: default_max_words(),
            max_chars: default_max_chars(),
            banned_keywords: Vec::new(),
            allow_links: false,
        }
    }
}

/// Where the synthesis service is reached, and with which voice.
#[derive(Debug, Clone)]
pub struct TtsConfig {
    pub endpoint: String,
    pub voice_id: Option<String>,
    pub timeout_secs: Option<u64>,
}

impl Default for TtsConfig {
    fn default() -> (r: Self)
        ensures
            r.endpoint@ == "http://127.0.0.1:27121/api/tts"@,
            r.voice_id is None,
            r.timeout_secs == Some(15u64),
    {
        TtsConfig { endpoint: default_tts_endpoint(), voice_id: None, timeout_secs: Some(15) }
    }
}

/// The gateway's three component configurations together.
#[derive(Debug, Clone, Default)]
pub struct GatewayConfig {
    pub queue: QueueConfig,
    pub filter: FilterConfig,
    pub tts: TtsConfig,
}

/// HTTP-layer limits.
#[derive(Debug, Clone)]
pub struct ApiConfig {
    pub max_parallel: usize,
}

impl Default for ApiConfig {
    fn default() -> (r: Self)
        ensures
            r.max_parallel == 2,
    {
        ApiConfig { max_parallel: default_max_parallel() }
    }
}

/// Configuration of the sidecar model server.
#[derive(Debug, Clone)]
pub struct ShimmyConfig {
    pub model_name: String,
    pub template: Option<String>,
    pub ctx_len: Option<usize>,
    pub n_threads: Option<i32>,
    pub extra_models: Vec<ShimmyAdditionalModel>,
}

pub fn shimmy_default_model_name() -> (r: String)
    ensures
        r@ == "f5-tts"@,
{
    String::from_str("f5-tts")
}

impl Default for ShimmyConfig {
    fn default() -> (r: Self)
        ensures
            r.model_name@ == "f5-tts"@,
            r.template is Some && r.template.unwrap()@ == "text-to-speech"@,
            r.ctx_len == Some(1024usize),
            r.n_threads is None,
            r.extra_models@.len() == 0,
    {
        ShimmyConfig {
            model_name: shimmy_default_model_name(),
            template: Some(String::from_str("text-to-speech")),
            ctx_len: Some(1024),
            n_threads: None,
            extra_models: Vec::new(),
        }
    }
}

/// One additional model entry, with its base path as a plain string.
#[derive(Debug, Clone)]
pub struct ShimmyAdditionalModel {
    pub name: String,
    pub base_path: String,
    pub template: Option<String>,
    pub ctx_len: Option<usize>,
    pub n_threads: Option<i32>,
}

/// `path` itself when absolute, else `path` under `base`, in POSIX form.
pub open spec fn absolute_path_spec(base: Seq<char>, path: Seq<char>) -> Seq<char> {
    if path.len() > 0 && path[0] == '/' {
        path
    } else if base.len() == 0 {
        path
    } else if base.last() == '/' {
        base + path
    } else {
        base + seq!['/'] + path
    }
}

pub fn absolute_path(base: &str, path: &str) -> (r: String)
    ensures
        r@ == absolute_path_spec(base@, path@),
{
    if path.unicode_len() > 0 && path.get_char(0) == '/' {
        String::from_str(path)
    } else if base.unicode_len() == 0 {
        String::from_str(path)
    } else if base.get_char(base.unicode_len() - 1) == '/' {
        let mut r = String::from_str(base);
        r.append(path);
        r
    } else {
        let mut r = String::from_str(base);
        r.append("/");
        r.append(path);
        proof {
            reveal_strlit("/");
            assert("/"@ =~= seq!['/']);
        }
        r
    }
}

} // verus!
