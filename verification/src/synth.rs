//! The shapes exchanged with the synthesis service and its voice registry:
//! engines, voices, request and response payloads, and override records.

use vstd::prelude::*;

use crate::text::{ascii_lower_seq, ascii_lowercase, chars_string, eq_chars, find_char, str_chars};

verus! {

/// Which synthesis engine a voice belongs to.
#[derive(Clone, Copy, Debug, Eq, PartialEq, Hash, Structural)]
pub enum EngineKind {
    F5,
    IndexTts,
    Shimmy,
}

pub open spec fn engine_tag(e: EngineKind) -> Seq<char> {
    match e {
        EngineKind::F5 => "f5"@,
        EngineKind::IndexTts => "index_tts"@,
        EngineKind::Shimmy => "shimmy"@,
    }
}

/// What `parse` accepts, ASCII case ignored.
pub open spec fn engine_of_str(s: Seq<char>) -> Option<EngineKind> {
    let low = ascii_lower_seq(s);
    if low == "f5"@ {
        Some(EngineKind::F5)
    } else if low == "index_tts"@ || low == "index-tts"@ || low == "indextts"@ {
        Some(EngineKind::IndexTts)
    } else if low == "shimmy"@ {
        Some(EngineKind::Shimmy)
    } else {
        None
    }
}

impl EngineKind {
    /// The engine's stable tag.
    pub fn as_str(&self) -> (r: &'static str)
        ensures
            r@ == engine_tag(*self),
    {
        match self {
            EngineKind::F5 => "f5",
            EngineKind::IndexTts => "index_tts",
            EngineKind::Shimmy => "shimmy",
        }
    }

    /// Reads an engine tag, ASCII case ignored.
    pub fn parse(s: &str) -> (r: Option<EngineKind>)
        ensures
            r == engine_of_str(s@),
    {
        let chars = str_chars(s);
        let low = ascii_lowercase(&chars);
        let f5 = str_chars("f5");
        let index_tts = str_chars("index_tts");
        let index_tts2 = str_chars("index-tts");
        let index_tts3 = str_chars("indextts");
        let shimmy = str_chars("shimmy");
        if eq_chars(&low, &f5) {
            Some(EngineKind::F5)
        } else if eq_chars(&low, &index_tts) || eq_chars(&low, &index_tts2) || eq_chars(
            &low,
            &index_tts3,
        ) {
            Some(EngineKind::IndexTts)
        } else if eq_chars(&low, &shimmy) {
            Some(EngineKind::Shimmy)
        } else {
            None
        }
    }
}

/// One voice the synthesis service offers.
#[derive(Debug, Clone)]
pub struct VoiceDescriptor {
    pub id: String,
    pub engine: EngineKind,
    pub engine_label: String,
    pub language: Option<String>,
    pub reference_text: Option<String>,
}

/// One configured voice profile, its file references as plain paths.
#[derive(Debug, Clone)]
pub struct VoiceProfileConfig {
    pub id: String,
    pub reference_audio: String,
    pub reference_text: String,
    pub language: Option<String>,
    pub engine_label: Option<String>,
    pub preload: bool,
}

/// Engine configuration, its file references as plain paths.
#[derive(Debug, Clone)]
pub struct F5EngineConfig {
    pub model: String,
    pub ckpt_file: Option<String>,
    pub vocab_file: Option<String>,
    pub ode_method: Option<String>,
    pub use_ema: Option<bool>,
    pub vocoder_local_path: Option<String>,
    pub device: Option<String>,
    pub hf_cache_dir: Option<String>,
    pub default_nfe_step: Option<u32>,
    pub python_package_path: String,
    pub voices: Vec<VoiceProfileConfig>,
}

/// One conversational context segment of a voice.
#[derive(Debug, Clone)]
pub struct CsmContextSegment {
    pub speaker: i32,
    pub text: String,
    pub audio_path: String,
}

/// A voice-reference override handed to an engine.
#[derive(Debug, Clone)]
pub struct VoiceOverrideUpdate {
    pub reference_audio: Option<String>,
    pub reference_text: Option<String>,
}

/// A voice's built-in reference, restored when an override is cleared.
#[derive(Debug, Clone)]
pub struct VoiceBaseline {
    pub reference_audio: String,
    pub reference_text: Option<String>,
}

/// Uploaded override audio, with the extension hint it arrived under.
#[derive(Debug, Clone)]
pub struct OverrideAudio {
    pub bytes: Vec<u8>,
    pub extension: Option<String>,
}

/// A synthesis request: the text to speak and the tuning the dispatcher
/// sets. The engine-specific floating-point tuning stays outside this model
/// and is defaulted by the caller of the service.
#[derive(Debug, Clone)]
pub struct TtsRequest {
    pub text: String,
    pub voice_id: String,
    pub nfe_step: Option<u32>,
    pub remove_silence: Option<bool>,
    pub seed: Option<u64>,
}

/// A synthesis response.
#[derive(Debug, Clone)]
pub struct TtsResponse {
    pub request_id: u128,
    pub sample_rate: u32,
    pub audio_base64: String,
    pub waveform_len: usize,
    pub voice_id: String,
    pub engine: EngineKind,
    pub engine_label: String,
}

/// The request body of the remote synthesis endpoint.
#[derive(Debug, Clone)]
pub struct TtsRequestPayload {
    pub text: String,
    pub voice_id: Option<String>,
}

/// The response body of the remote synthesis endpoint.
#[derive(Debug, Clone)]
pub struct TtsResponsePayload {
    pub request_id: u128,
    pub voice_id: String,
    pub sample_rate: u32,
    pub audio_base64: String,
    pub format: String,
    pub waveform_len: usize,
}

/// The storage key of a voice override: `voice::engine`.
pub fn make_key(voice_id: &str, engine: EngineKind) -> (r: String)
    ensures
        r@ == voice_id@ + "::"@ + engine_tag(engine),
{
    let mut r = String::new();
    r.append(voice_id);
    r.append("::");
    r.append(engine.as_str());
    r
}

/// The voice name of a storage key: what precedes the first `::`.
pub open spec fn split_key_spec(key: Seq<char>) -> Option<Seq<char>> {
    if crate::text::contains_seq(key, "::"@) {
        Some(key.take(crate::text::find_first(key, "::"@)))
    } else {
        None
    }
}

pub fn split_key(key: &str) -> (r: Option<String>)
    ensures
        match r {
            Some(v) => split_key_spec(key@) == Some(v@),
            None => split_key_spec(key@) is None,
        },
{
    let chars = str_chars(key);
    let pat = str_chars("::");
    proof {
        reveal_strlit("::");
    }
    match crate::text::find_sub(&chars, &pat) {
        Some(i) => {
            proof {
                crate::text::lemma_first_match_exists(chars@, pat@, i as int);
                let j = crate::text::find_first(chars@, pat@);
                crate::text::lemma_first_match_unique(chars@, pat@, i as int, j);
            }
            let head = crate::text::sub_chars(&chars, 0, i);
            proof {
                assert(head@ =~= chars@.take(i as int));
            }
            Some(chars_string(&head))
        },
        None => None,
    }
}

/// What base64's standard-alphabet decoding yields: a function of the text
/// alone, `None` on ill-formed input.
pub uninterp spec fn base64_decode_of(s: Seq<char>) -> Option<Seq<u8>>;

#[verifier::external_type_specification]
#[verifier::external_body]
pub struct ExDecodeError(base64::DecodeError);

/// Relies on base64's standard-alphabet engine: decoding depends on the
/// text alone and succeeds exactly on well-formed input.
#[verifier::external_body]
pub fn decode_base64(s: &str) -> (r: Result<Vec<u8>, base64::DecodeError>)
    ensures
        r is Ok <==> base64_decode_of(s@) is Some,
        r is Ok ==> r.unwrap()@ == base64_decode_of(s@).unwrap(),
{
    base64::Engine::decode(&base64::engine::general_purpose::STANDARD, s.as_bytes())
}

/// No extension is ever inferred from raw bytes; the upload's own hint or
/// the default decides.
pub fn infer_audio_extension_from_bytes(bytes: &[u8]) -> (r: Option<String>)
    ensures
        r is None,
{
    None
}

} // verus!
