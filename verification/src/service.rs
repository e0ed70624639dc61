//! The channel-lifecycle service: per-channel start/stop with at most one
//! live watcher each, the liveness checks the dispatcher relies on, and the
//! dispatch of filtered messages to synthesis and playback.

use vstd::prelude::*;

use crate::config::GatewayConfig;
use crate::fanout::{keeps_channel_fn, FanOut, PlaybackItem, Subscriber};
use crate::filter::{FilteredMessage, MessageFilter};
use crate::message::{meta_get_spec, MetaValue, NormalizedMessage};
use crate::queue::{EnqueueOutcome, MessageQueue};
use crate::synth::{base64_decode_of, decode_base64, EngineKind, TtsRequest, TtsResponse, VoiceDescriptor};
use crate::text::trim_spaces_spec;
use crate::twitch::{parse_twitch_channel, parse_twitch_channel_spec};

verus! {

// --- association lists keyed by channel or voice name ---

/// The value stored under `key`, a later entry shadowing an earlier one.
pub open spec fn kv_get<V>(s: Seq<(String, V)>, key: Seq<char>) -> Option<V>
    decreases s.len(),
{
    if s.len() == 0 {
        None
    } else if s.last().0@ == key {
        Some(s.last().1)
    } else {
        kv_get(s.drop_last(), key)
    }
}

pub open spec fn kv_has<V>(s: Seq<(String, V)>, key: Seq<char>) -> bool {
    kv_get(s, key) is Some
}

/// The predicate "has a key other than `key`", from one definition site.
pub open spec fn kv_other_fn<V>(key: Seq<char>) -> spec_fn((String, V)) -> bool {
    |p: (String, V)| p.0@ != key
}

pub proof fn lemma_kv_get_absent<V>(s: Seq<(String, V)>, key: Seq<char>)
    requires
        forall|i: int| 0 <= i < s.len() ==> (#[trigger] s[i]).0@ != key,
    ensures
        kv_get(s, key) is None,
    decreases s.len(),
{
    if s.len() > 0 {
        lemma_kv_get_absent(s.drop_last(), key);
    }
}

/// Dropping entries of one key leaves every other key's lookup unchanged.
pub proof fn lemma_kv_filter_other<V>(s: Seq<(String, V)>, key: Seq<char>, k: Seq<char>)
    requires
        k != key,
    ensures
        kv_get(s.filter(kv_other_fn(key)), k) == kv_get(s, k),
    decreases s.len(),
{
    reveal(Seq::filter);
    if s.len() == 0 {
    } else {
        lemma_kv_filter_other(s.drop_last(), key, k);
        let p = kv_other_fn::<V>(key);
        assert(s.filter(p) == if p(s.last()) {
            s.drop_last().filter(p).push(s.last())
        } else {
            s.drop_last().filter(p)
        });
        if p(s.last()) {
            assert(s.drop_last().filter(p).push(s.last()).drop_last() =~= s.drop_last().filter(p));
            assert(s.drop_last().filter(p).push(s.last()).last() == s.last());
        }
    }
}

/// The value stored under `key`, if any.
pub fn kv_lookup<'a, V>(v: &'a Vec<(String, V)>, key: &str) -> (r: Option<&'a V>)
    ensures
        match r {
            Some(val) => kv_get(v@, key@) == Some(*val),
            None => kv_get(v@, key@) is None,
        },
{
    let key_s = String::from_str(key);
    proof {
        assert(v@.take(v@.len() as int) =~= v@);
    }
    let mut i: usize = v.len();
    while i > 0
        invariant
            i <= v@.len(),
            key_s@ == key@,
            kv_get(v@, key@) == kv_get(v@.take(i as int), key@),
        decreases i,
    {
        proof {
            assert(v@.take(i as int).last() == v@[i - 1]);
            assert(v@.take(i as int).drop_last() =~= v@.take(i - 1));
        }
        if v[i - 1].0 == key_s {
            return Some(&v[i - 1].1);
        }
        i = i - 1;
    }
    proof {
        assert(v@.take(0) =~= Seq::<(String, V)>::empty());
    }
    None
}

/// Removes every entry of `key`; other keys are untouched. Returns whether
/// anything was removed.
pub fn kv_remove<V>(v: &mut Vec<(String, V)>, key: &str) -> (r: bool)
    ensures
        final (v)@ == old(v)@.filter(kv_other_fn(key@)),
        kv_get(final (v)@, key@) is None,
        forall|k: Seq<char>|
            k != key@ ==> #[trigger] kv_get(final (v)@, k) == kv_get(old(v)@, k),
        r == kv_has(old(v)@, key@),
{
    let key_s = String::from_str(key);
    let mut src: Vec<(String, V)> = Vec::new();
    std::mem::swap(v, &mut src);
    let ghost whole = src@;
    let ghost total = src@.len();
    let mut had = false;
    proof {
        reveal(Seq::filter);
        assert(whole.take(0) =~= Seq::<(String, V)>::empty());
        assert(whole.take(0).filter(kv_other_fn::<V>(key@)) =~= Seq::<(String, V)>::empty());
        assert(v@ =~= whole.take(0).filter(kv_other_fn::<V>(key@)));
    }
    while src.len() > 0
        invariant
            src@.len() <= total,
            whole.len() == total,
            key_s@ == key@,
            src@ == whole.skip(total - src@.len()),
            v@ == whole.take(total - src@.len()).filter(kv_other_fn::<V>(key@)),
            had == !(kv_get(whole.take(total - src@.len()), key@) is None),
        decreases src.len(),
    {
        let ghost consumed = total - src@.len();
        let pair = src.remove(0);
        proof {
            reveal(Seq::filter);
            let p = kv_other_fn::<V>(key@);
            assert(pair == whole[consumed]);
            assert(src@ =~= whole.skip(consumed + 1));
            assert(whole.take(consumed + 1).drop_last() =~= whole.take(consumed));
            assert(whole.take(consumed + 1).last() == whole[consumed]);
            assert(whole.take(consumed + 1).filter(p) == if p(whole[consumed]) {
                whole.take(consumed).filter(p).push(whole[consumed])
            } else {
                whole.take(consumed).filter(p)
            });
        }
        if pair.0 == key_s {
            had = true;
        } else {
            v.push(pair);
        }
    }
    proof {
        assert(whole.take(total as int) =~= whole);
        lemma_kv_filtered_absent::<V>(whole, key@);
        assert forall|k: Seq<char>| k != key@ implies #[trigger] kv_get(
            whole.filter(kv_other_fn::<V>(key@)),
            k,
        ) == kv_get(whole, k) by {
            lemma_kv_filter_other(whole, key@, k);
        }
    }
    had
}

/// Every entry surviving the filter has another key, so the key is gone.
proof fn lemma_kv_filtered_absent<V>(s: Seq<(String, V)>, key: Seq<char>)
    ensures
        kv_get(s.filter(kv_other_fn(key)), key) is None,
{
    let f = s.filter(kv_other_fn::<V>(key));
    assert forall|i: int| 0 <= i < f.len() implies (#[trigger] f[i]).0@ != key by {
        s.lemma_filter_pred(kv_other_fn::<V>(key), i);
    }
    lemma_kv_get_absent(f, key);
}

/// Installs `value` under `key`, replacing any earlier entry.
pub fn kv_put<V>(v: &mut Vec<(String, V)>, key: String, value: V)
    ensures
        kv_get(final (v)@, key@) == Some(value),
        forall|k: Seq<char>|
            k != key@ ==> #[trigger] kv_get(final (v)@, k) == kv_get(old(v)@, k),
{
    let ghost key_view = key@;
    kv_remove(v, key.as_str());
    let ghost mid = v@;
    v.push((key, value));
    proof {
        assert(v@.last() == (key, value));
        assert(v@.drop_last() =~= mid);
        assert forall|k: Seq<char>| k != key_view implies #[trigger] kv_get(v@, k) == kv_get(
            mid,
            k,
        ) by {}
    }
}

// --- the control surface's request and response shapes ---

/// A request to start watching a channel.
#[derive(Debug, Clone)]
pub struct StartRequest {
    pub platform: String,
    pub channel: String,
    pub voice_id: Option<String>,
    pub engine: Option<String>,
}

/// The reply to a successful start.
#[derive(Debug, Clone)]
pub struct StartResponse {
    pub status: String,
    pub channel: String,
}

/// A request to stop watching a channel.
#[derive(Debug, Clone)]
pub struct StopRequest {
    pub platform: String,
    pub channel: String,
}

/// The reply to a stop: the stopped channel, or nothing for a no-op.
#[derive(Debug, Clone)]
pub struct StopResponse {
    pub status: String,
    pub channel: Option<String>,
}

// --- lifecycle state ---

/// The voice and engine a started channel speaks with.
#[derive(Debug, Clone)]
pub struct ChannelSettings {
    pub voice_id: String,
    pub engine: EngineKind,
}

/// The registry's record of one channel's ingestion task.
#[derive(Debug, Clone, Copy, PartialEq, Eq, Structural)]
pub struct WatcherState {
    pub watcher_id: u64,
    pub finished: bool,
}

/// Why a start was refused.
#[derive(Debug)]
pub enum StartError {
    /// The input named no usable channel.
    InvalidChannel,
    /// The channel already has a live watcher.
    AlreadyActive,
    /// The resolved voice is not configured.
    UnknownVoice(String),
    /// The voice belongs to another engine than the requested one.
    EngineMismatch { voice_id: String, voice_engine: EngineKind, requested: EngineKind },
}

/// Why a dispatch failed after synthesis.
#[derive(Debug, Clone, Copy, PartialEq, Eq, Structural)]
pub enum DispatchError {
    /// The synthesised audio was not valid base64.
    AudioDecode,
}

/// Why the service could not be built.
#[derive(Debug)]
pub enum ServiceInitError {
    /// Two voices carry the same identifier.
    DuplicateVoiceId(String),
}

/// Resolved settings, in mathematical form.
pub ghost struct GSettings {
    pub voice_id: Seq<char>,
    pub engine: EngineKind,
}

/// The outcome of voice resolution, in mathematical form.
pub ghost enum GResolve {
    Resolved(GSettings),
    UnknownVoice(Seq<char>),
    EngineMismatch(Seq<char>, EngineKind, EngineKind),
}

/// The first voice of that name, searching from the latest registration.
pub open spec fn voice_get(vs: Seq<VoiceDescriptor>, id: Seq<char>) -> Option<VoiceDescriptor>
    decreases vs.len(),
{
    if vs.len() == 0 {
        None
    } else if vs.last().id@ == id {
        Some(vs.last())
    } else {
        voice_get(vs.drop_last(), id)
    }
}

/// The settings a start request resolves to: the requested voice or the
/// default, which must exist and, when an engine was named, belong to it.
pub open spec fn resolve_spec(
    voices: Seq<VoiceDescriptor>,
    default_voice: Seq<char>,
    voice_id: Option<String>,
    engine: Option<EngineKind>,
) -> GResolve {
    let resolved = match voice_id {
        Some(v) => v@,
        None => default_voice,
    };
    match voice_get(voices, resolved) {
        None => GResolve::UnknownVoice(resolved),
        Some(d) => match engine {
            Some(e) => if d.engine != e {
                GResolve::EngineMismatch(resolved, d.engine, e)
            } else {
                GResolve::Resolved(GSettings { voice_id: resolved, engine: d.engine })
            },
            None => GResolve::Resolved(GSettings { voice_id: resolved, engine: d.engine }),
        },
    }
}

/// Whether the channel has a watcher that has not finished.
pub open spec fn has_live_watcher(ws: Seq<(String, WatcherState)>, ch: Seq<char>) -> bool {
    match kv_get(ws, ch) {
        Some(w) => !w.finished,
        None => false,
    }
}

/// Settings presence and live-watcher presence agree on every channel: both
/// are set by a successful start and both cleared by a stop. Only a watcher
/// that ends on its own and is reported finished leaves its settings behind,
/// until the next start or stop of that channel.
pub open spec fn settings_watchers_lockstep(s: DanmakuService) -> bool {
    forall|ch: Seq<char>|
        (#[trigger] kv_has(s.spec_settings(), ch)) <==> #[trigger] has_live_watcher(
            s.spec_watchers(),
            ch,
        )
}

/// The start decision, in mathematical form.
pub ghost enum GStart {
    Started(Seq<char>, GSettings),
    InvalidChannel,
    AlreadyActive,
    UnknownVoice(Seq<char>),
    EngineMismatch(Seq<char>, EngineKind, EngineKind),
}

/// What a start request decides, from the channel input, the channel's
/// liveness, and voice resolution alone.
pub open spec fn start_decision(
    parse: Option<Seq<char>>,
    live: bool,
    resolve: GResolve,
) -> GStart {
    match parse {
        None => GStart::InvalidChannel,
        Some(c) => if live {
            GStart::AlreadyActive
        } else {
            match resolve {
                GResolve::Resolved(g) => GStart::Started(c, g),
                GResolve::UnknownVoice(v) => GStart::UnknownVoice(v),
                GResolve::EngineMismatch(v, have, want) => GStart::EngineMismatch(v, have, want),
            }
        },
    }
}

/// A second start of a live channel is refused as already active, and once
/// the channel is no longer live the same request is decided by voice
/// resolution alone, so a stopped channel starts again.
pub proof fn lemma_start_lifecycle(parse: Option<Seq<char>>, resolve: GResolve)
    requires
        parse is Some,
    ensures
        start_decision(parse, true, resolve) == GStart::AlreadyActive,
        resolve is Resolved ==> start_decision(parse, false, resolve) == GStart::Started(
            parse.unwrap(),
            resolve->Resolved_0,
        ),
{
}

/// The spoken form of an utterance: prefixed with the speaker's name when
/// there is one.
pub open spec fn spoken_text_spec(username: Seq<char>, sanitized: Seq<char>) -> Seq<char> {
    let speaker = trim_spaces_spec(username);
    if speaker.len() == 0 {
        sanitized
    } else {
        speaker + " says: "@ + sanitized
    }
}

/// What the dispatcher asks the synthesis service to speak.
#[derive(Debug, Clone)]
pub struct DispatchPlan {
    pub channel: String,
    pub voice_id: String,
    pub engine: EngineKind,
    pub text: String,
}

/// The synthesis tuning the dispatcher always requests.
pub const DEFAULT_TTS_NFE_STEP: u32 = 16;

/// The service: the queue, the playback fan-out, and the per-channel
/// lifecycle state, with the voice table start requests resolve against.
pub struct DanmakuService {
    queue: MessageQueue,
    playback: FanOut,
    watchers: Vec<(String, WatcherState)>,
    channel_settings: Vec<(String, ChannelSettings)>,
    voices: Vec<VoiceDescriptor>,
    default_voice: String,
    next_watcher: u64,
}

impl DanmakuService {
    pub closed spec fn spec_queue(self) -> MessageQueue {
        self.queue
    }

    pub closed spec fn spec_playback(self) -> FanOut {
        self.playback
    }

    pub closed spec fn spec_watchers(self) -> Seq<(String, WatcherState)> {
        self.watchers@
    }

    pub closed spec fn spec_settings(self) -> Seq<(String, ChannelSettings)> {
        self.channel_settings@
    }

    pub closed spec fn spec_voices(self) -> Seq<VoiceDescriptor> {
        self.voices@
    }

    pub closed spec fn spec_default_voice(self) -> Seq<char> {
        self.default_voice@
    }

    pub open spec fn wf(self) -> bool {
        self.spec_playback().wf()
    }

    /// The resolution a start request with these arguments gets.
    pub open spec fn spec_resolve(
        self,
        voice_id: Option<String>,
        engine: Option<EngineKind>,
    ) -> GResolve {
        resolve_spec(self.spec_voices(), self.spec_default_voice(), voice_id, engine)
    }

    /// Builds the service around a voice table; duplicate voice names are
    /// refused, as the synthesis registry would never resolve them.
    pub fn new(
        voices: Vec<VoiceDescriptor>,
        fallback_voice: String,
        gateway_config: GatewayConfig,
    ) -> (r: Result<DanmakuService, ServiceInitError>)
        ensures
            match r {
                Ok(s) => {
                    &&& s.wf()
                    &&& s.spec_voices() == voices@
                    &&& s.spec_default_voice() == (match gateway_config.tts.voice_id {
                        Some(v) => v@,
                        None => fallback_voice@,
                    })
                    &&& s.spec_watchers() == Seq::<(String, WatcherState)>::empty()
                    &&& s.spec_settings() == Seq::<(String, ChannelSettings)>::empty()
                    &&& s.spec_playback().spec_pending() == Seq::<PlaybackItem>::empty()
                    &&& s.spec_playback().spec_published() == 0
                    &&& s.spec_queue().spec_contents() == Seq::<FilteredMessage>::empty()
                    &&& s.spec_queue().spec_capacity() == gateway_config.queue.capacity
                    &&& s.spec_queue().spec_filter().spec_config() == gateway_config.filter
                    &&& !s.spec_queue().spec_closed()
                },
                Err(ServiceInitError::DuplicateVoiceId(id)) => exists|i: int, j: int|
                    0 <= i < j < voices@.len() && (#[trigger] voices@[i]).id@ == (
                    #[trigger] voices@[j]).id@ && voices@[j].id@ == id@,
            },
    {
        let mut i: usize = 1;
        while i < voices.len()
            invariant
                1 <= i <= voices@.len() || voices@.len() == 0,
                forall|a: int, b: int|
                    0 <= a < b < i ==> (#[trigger] voices@[a]).id@ != (#[trigger] voices@[b]).id@,
            decreases voices.len() - i,
        {
            let mut j: usize = 0;
            while j < i
                invariant
                    j <= i < voices@.len(),
                    forall|a: int| 0 <= a < j ==> (#[trigger] voices@[a]).id@ != voices@[i as int].id@,
                decreases i - j,
            {
                if voices[j].id == voices[i].id {
                    return Err(ServiceInitError::DuplicateVoiceId(voices[i].id.clone()));
                }
                j = j + 1;
            }
            i = i + 1;
        }
        let queue_config = gateway_config.queue;
        let filter = MessageFilter::new(gateway_config.filter);
        let queue = MessageQueue::new(filter, &queue_config);
        let pending_cap: usize = if queue_config.capacity < 64 {
            64
        } else {
            queue_config.capacity
        };
        let playback = FanOut::new(pending_cap, pending_cap);
        let default_voice = match &gateway_config.tts.voice_id {
            Some(v) => v.clone(),
            None => fallback_voice,
        };
        let svc = DanmakuService {
            queue,
            playback,
            watchers: Vec::new(),
            channel_settings: Vec::new(),
            voices,
            default_voice,
            next_watcher: 0,
        };
        proof {
            assert(svc.spec_watchers() =~= Seq::<(String, WatcherState)>::empty());
            assert(svc.spec_settings() =~= Seq::<(String, ChannelSettings)>::empty());
        }
        Ok(svc)
    }

    /// Resolves the requested voice and engine against the voice table.
    pub fn resolve_channel_settings(
        &self,
        voice_id: Option<&String>,
        engine: Option<EngineKind>,
    ) -> (r: Result<ChannelSettings, StartError>)
        ensures
            ({
                let g = resolve_spec(
                    self.spec_voices(),
                    self.spec_default_voice(),
                    match voice_id {
                        Some(v) => Some(*v),
                        None => None,
                    },
                    engine,
                );
                match r {
                    Ok(s) => g matches GResolve::Resolved(gs) && s.voice_id@ == gs.voice_id && s.engine
                        == gs.engine,
                    Err(StartError::UnknownVoice(v)) => g matches GResolve::UnknownVoice(gv)
                        && v@ == gv,
                    Err(StartError::EngineMismatch { voice_id: v, voice_engine: have, requested: want }) => g
                        matches GResolve::EngineMismatch(gv, ghave, gwant) && v@ == gv && have
                        == ghave && want == gwant,
                    Err(_) => false,
                }
            }),
    {
        let resolved: String = match voice_id {
            Some(v) => v.clone(),
            None => self.default_voice.clone(),
        };
        let ghost target = resolved@;
        proof {
            assert(self.voices@.take(self.voices@.len() as int) =~= self.voices@);
        }
        let mut i: usize = self.voices.len();
        while i > 0
            invariant
                i <= self.voices@.len(),
                target == resolved@,
                target == (match voice_id {
                    Some(v) => v@,
                    None => self.default_voice@,
                }),
                voice_get(self.voices@, target) == voice_get(self.voices@.take(i as int), target),
            decreases i,
        {
            proof {
                assert(self.voices@.take(i as int).last() == self.voices@[i - 1]);
                assert(self.voices@.take(i as int).drop_last() =~= self.voices@.take(i - 1));
            }
            if self.voices[i - 1].id == resolved {
                let d = &self.voices[i - 1];
                match engine {
                    Some(e) => {
                        if !(d.engine == e) {
                            return Err(
                                StartError::EngineMismatch {
                                    voice_id: resolved,
                                    voice_engine: d.engine,
                                    requested: e,
                                },
                            );
                        }
                    },
                    None => {},
                }
                return Ok(ChannelSettings { voice_id: resolved, engine: d.engine });
            }
            i = i - 1;
        }
        proof {
            assert(self.voices@.take(0) =~= Seq::<VoiceDescriptor>::empty());
        }
        Err(StartError::UnknownVoice(resolved))
    }

    /// Whether the channel currently has settings: the dispatcher's fast
    /// liveness check.
    pub fn is_channel_active(&self, channel: &str) -> (r: bool)
        ensures
            r == kv_has(self.spec_settings(), channel@),
    {
        match kv_lookup(&self.channel_settings, channel) {
            Some(_) => true,
            None => false,
        }
    }

    /// Marks the channel's watcher as finished: the event the surrounding
    /// program reports when an ingestion task ends on its own.
    pub fn mark_watcher_finished(&mut self, channel: &str)
        ensures
            final (self).spec_settings() == old(self).spec_settings(),
            final (self).spec_voices() == old(self).spec_voices(),
            final (self).spec_default_voice() == old(self).spec_default_voice(),
            final (self).spec_queue() == old(self).spec_queue(),
            final (self).spec_playback() == old(self).spec_playback(),
            !has_live_watcher(final (self).spec_watchers(), channel@),
            forall|k: Seq<char>|
                k != channel@ ==> #[trigger] kv_get(final (self).spec_watchers(), k) == kv_get(
                    old(self).spec_watchers(),
                    k,
                ),
    {
        let state: Option<WatcherState> = match kv_lookup(&self.watchers, channel) {
            Some(w) => Some(*w),
            None => None,
        };
        match state {
            Some(w) => {
                kv_put(
                    &mut self.watchers,
                    String::from_str(channel),
                    WatcherState { watcher_id: w.watcher_id, finished: true },
                );
            },
            None => {},
        }
    }

    /// Starts watching a channel with an in-process ingestion task that is
    /// recorded immediately: parses the channel, refuses a live duplicate,
    /// resolves and validates the voice — a failed validation changes
    /// nothing — then discards a finished watcher, purges the channel's
    /// stale playback, installs the settings, and records the watcher.
    pub fn start_twitch(
        &mut self,
        user_input: &str,
        voice_id: Option<String>,
        engine: Option<EngineKind>,
    ) -> (r: Result<String, StartError>)
        requires
            old(self).wf(),
        ensures
            final (self).wf(),
            final (self).spec_voices() == old(self).spec_voices(),
            final (self).spec_default_voice() == old(self).spec_default_voice(),
            final (self).spec_queue() == old(self).spec_queue(),
            settings_watchers_lockstep(*old(self)) ==> settings_watchers_lockstep(*final (self)),
            ({
                let p = parse_twitch_channel_spec(user_input@);
                let live = p is Some && has_live_watcher(old(self).spec_watchers(), p.unwrap());
                let d = start_decision(p, live, old(self).spec_resolve(voice_id, engine));
                match r {
                    Ok(chan) => d matches GStart::Started(c, g) && chan@ == c && {
                        &&& kv_get(final (self).spec_settings(), c) matches Some(s) && s.voice_id@
                            == g.voice_id && s.engine == g.engine
                        &&& has_live_watcher(final (self).spec_watchers(), c)
                        &&& final (self).spec_playback().spec_pending() == old(
                            self,
                        ).spec_playback().spec_pending().filter(keeps_channel_fn(c))
                        &&& final (self).spec_playback().spec_recent() == old(
                            self,
                        ).spec_playback().spec_recent()
                        &&& final (self).spec_playback().spec_base() == old(
                            self,
                        ).spec_playback().spec_base()
                        &&& forall|k: Seq<char>|
                            k != c ==> #[trigger] kv_get(final (self).spec_settings(), k)
                                == kv_get(old(self).spec_settings(), k)
                        &&& forall|k: Seq<char>|
                            k != c ==> #[trigger] kv_get(final (self).spec_watchers(), k)
                                == kv_get(old(self).spec_watchers(), k)
                    },
                    Err(StartError::InvalidChannel) => d is InvalidChannel && *final (self)
                        == *old(self),
                    Err(StartError::AlreadyActive) => d is AlreadyActive && *final (self) == *old(
                        self,
                    ),
                    Err(StartError::UnknownVoice(v)) => d matches GStart::UnknownVoice(gv) && v@
                        == gv && *final (self) == *old(self),
                    Err(StartError::EngineMismatch { voice_id: v, voice_engine: have, requested: want }) => d
                        matches GStart::EngineMismatch(gv, ghave, gwant) && v@ == gv && have
                        == ghave && want == gwant && *final (self) == *old(self),
                }
            }),
    {
        let chan = match parse_twitch_channel(user_input) {
            Some(c) => c,
            None => {
                return Err(StartError::InvalidChannel);
            },
        };
        let state: Option<WatcherState> = match kv_lookup(&self.watchers, chan.as_str()) {
            Some(w) => Some(*w),
            None => None,
        };
        match state {
            Some(w) => {
                if !w.finished {
                    return Err(StartError::AlreadyActive);
                }
            },
            None => {},
        }
        // Validation comes first: a refused voice or engine leaves the
        // watcher map and the playback buffer exactly as they were.
        let settings = match self.resolve_channel_settings(voice_id.as_ref(), engine) {
            Ok(s) => s,
            Err(e) => {
                return Err(e);
            },
        };
        self.playback.purge_channel(chan.as_str());
        kv_put(&mut self.channel_settings, chan.clone(), settings);
        let id = self.next_watcher;
        self.next_watcher = if self.next_watcher == u64::MAX {
            u64::MAX
        } else {
            self.next_watcher + 1
        };
        kv_put(
            &mut self.watchers,
            chan.clone(),
            WatcherState { watcher_id: id, finished: false },
        );
        proof {
            if settings_watchers_lockstep(*old(self)) {
                assert forall|ch: Seq<char>|
                    (#[trigger] kv_has(self.spec_settings(), ch)) <==> #[trigger] has_live_watcher(
                        self.spec_watchers(),
                        ch,
                    ) by {
                    if ch != chan@ {
                        assert(kv_get(self.spec_settings(), ch) == kv_get(
                            old(self).spec_settings(),
                            ch,
                        ));
                        assert(kv_get(self.spec_watchers(), ch) == kv_get(
                            old(self).spec_watchers(),
                            ch,
                        ));
                        assert(kv_has(old(self).spec_settings(), ch) <==> has_live_watcher(
                            old(self).spec_watchers(),
                            ch,
                        ));
                    }
                }
            }
        }
        Ok(chan)
    }

    /// Stops a channel: removes its watcher and settings and purges its
    /// buffered playback. Stopping an idle channel succeeds as a no-op,
    /// reported as `Ok(None)`.
    pub fn stop_twitch(&mut self, user_input: &str) -> (r: Result<Option<String>, StartError>)
        requires
            old(self).wf(),
        ensures
            final (self).wf(),
            final (self).spec_voices() == old(self).spec_voices(),
            final (self).spec_default_voice() == old(self).spec_default_voice(),
            final (self).spec_queue() == old(self).spec_queue(),
            settings_watchers_lockstep(*old(self)) ==> settings_watchers_lockstep(*final (self)),
            ({
                let p = parse_twitch_channel_spec(user_input@);
                match r {
                    Ok(out) => p is Some && {
                        let c = p.unwrap();
                        &&& kv_get(final (self).spec_watchers(), c) is None
                        &&& kv_get(final (self).spec_settings(), c) is None
                        &&& final (self).spec_playback().spec_pending() == old(
                            self,
                        ).spec_playback().spec_pending().filter(keeps_channel_fn(c))
                        &&& forall|k: Seq<char>|
                            k != c ==> #[trigger] kv_get(final (self).spec_settings(), k)
                                == kv_get(old(self).spec_settings(), k)
                        &&& forall|k: Seq<char>|
                            k != c ==> #[trigger] kv_get(final (self).spec_watchers(), k)
                                == kv_get(old(self).spec_watchers(), k)
                        &&& match out {
                            Some(chan) => chan@ == c && (kv_has(old(self).spec_watchers(), c)
                                || kv_has(old(self).spec_settings(), c) || final (
                            self).spec_playback().spec_pending().len() != old(
                                self,
                            ).spec_playback().spec_pending().len()),
                            None => !kv_has(old(self).spec_watchers(), c) && !kv_has(
                                old(self).spec_settings(),
                                c,
                            ) && final (self).spec_playback().spec_pending().len() == old(
                                self,
                            ).spec_playback().spec_pending().len(),
                        }
                    },
                    Err(StartError::InvalidChannel) => p is None && *final (self) == *old(self),
                    Err(_) => false,
                }
            }),
    {
        let chan = match parse_twitch_channel(user_input) {
            Some(c) => c,
            None => {
                return Err(StartError::InvalidChannel);
            },
        };
        let had_watcher = kv_remove(&mut self.watchers, chan.as_str());
        let had_settings = kv_remove(&mut self.channel_settings, chan.as_str());
        let purged = self.playback.purge_channel(chan.as_str());
        proof {
            if settings_watchers_lockstep(*old(self)) {
                assert forall|ch: Seq<char>|
                    (#[trigger] kv_has(self.spec_settings(), ch)) <==> #[trigger] has_live_watcher(
                        self.spec_watchers(),
                        ch,
                    ) by {
                    if ch != chan@ {
                        assert(kv_get(self.spec_settings(), ch) == kv_get(
                            old(self).spec_settings(),
                            ch,
                        ));
                        assert(kv_get(self.spec_watchers(), ch) == kv_get(
                            old(self).spec_watchers(),
                            ch,
                        ));
                        assert(kv_has(old(self).spec_settings(), ch) <==> has_live_watcher(
                            old(self).spec_watchers(),
                            ch,
                        ));
                    }
                }
            }
        }
        if had_watcher || had_settings || purged {
            Ok(Some(chan))
        } else {
            Ok(None)
        }
    }

    /// Offers one message to the queue: `Full` asks the caller to wait for
    /// the dispatcher and offer the message again; only `Closed` refuses it
    /// for good; `Accepted` carries the pacing wait.
    pub fn enqueue(&mut self, message: &NormalizedMessage, now_ms: u64) -> (r: EnqueueOutcome)
        requires
            old(self).wf(),
        ensures
            final (self).wf(),
            final (self).spec_settings() == old(self).spec_settings(),
            final (self).spec_watchers() == old(self).spec_watchers(),
            final (self).spec_playback() == old(self).spec_playback(),
            final (self).spec_queue().spec_capacity() == old(self).spec_queue().spec_capacity(),
            final (self).spec_queue().spec_closed() == old(self).spec_queue().spec_closed(),
            final (self).spec_queue().spec_filter() == old(self).spec_queue().spec_filter(),
            ({
                let verdict = crate::filter::sanitize_spec(
                    old(self).spec_queue().spec_filter().spec_config(),
                    message.content,
                );
                match r {
                    EnqueueOutcome::Rejected => verdict is None && final (
                    self).spec_queue().spec_contents() == old(self).spec_queue().spec_contents()
                        && final (self).spec_queue().spec_limiter() == old(
                        self,
                    ).spec_queue().spec_limiter(),
                    EnqueueOutcome::Closed => verdict is Some && old(self).spec_queue().spec_closed()
                        && final (self).spec_queue().spec_contents() == old(
                        self,
                    ).spec_queue().spec_contents() && final (self).spec_queue().spec_limiter()
                        == old(self).spec_queue().spec_limiter(),
                    EnqueueOutcome::Full => verdict is Some && !old(self).spec_queue().spec_closed()
                        && old(self).spec_queue().spec_contents().len() >= old(
                        self,
                    ).spec_queue().spec_capacity() && final (self).spec_queue().spec_contents()
                        == old(self).spec_queue().spec_contents() && final (
                    self).spec_queue().spec_limiter() == old(self).spec_queue().spec_limiter(),
                    EnqueueOutcome::Accepted(wait) => verdict is Some && !old(
                        self,
                    ).spec_queue().spec_closed() && old(self).spec_queue().spec_contents().len()
                        < old(self).spec_queue().spec_capacity() && final (
                    self).spec_queue().spec_contents().len() == old(
                        self,
                    ).spec_queue().spec_contents().len() + 1 && final (
                    self).spec_queue().spec_contents().drop_last() == old(
                        self,
                    ).spec_queue().spec_contents() && {
                        let f = final (self).spec_queue().spec_contents().last();
                        &&& f.sanitized_text@ == verdict.unwrap()
                        &&& crate::message::message_like(f.source, *message)
                        &&& wait == crate::filter::emit_time(
                            old(self).spec_queue().spec_limiter().spec_last_emit(),
                            old(self).spec_queue().spec_limiter().spec_interval(),
                            now_ms,
                        ) - now_ms
                    },
                }
            }),
    {
        self.queue.enqueue(message, now_ms)
    }

    /// Takes the oldest queued message: the dispatcher's side of the queue.
    pub fn recv_filtered(&mut self) -> (r: Option<FilteredMessage>)
        requires
            old(self).wf(),
        ensures
            final (self).wf(),
            final (self).spec_settings() == old(self).spec_settings(),
            final (self).spec_watchers() == old(self).spec_watchers(),
            final (self).spec_playback() == old(self).spec_playback(),
            match r {
                Some(f) => old(self).spec_queue().spec_contents().len() > 0 && f == old(
                    self,
                ).spec_queue().spec_contents().first() && final (
                self).spec_queue().spec_contents() == old(
                    self,
                ).spec_queue().spec_contents().drop_first(),
                None => old(self).spec_queue().spec_contents().len() == 0 && final (
                self).spec_queue().spec_contents() == old(self).spec_queue().spec_contents(),
            },
    {
        self.queue.recv()
    }

    /// The dispatcher's first step for one filtered message: `None` when the
    /// channel was stopped between enqueue and dispatch — dropped silently —
    /// else the synthesis plan with the channel's voice and the spoken text.
    pub fn prepare_dispatch(&self, filtered: &FilteredMessage) -> (r: Option<DispatchPlan>)
        ensures
            match r {
                Some(plan) => kv_get(self.spec_settings(), filtered.source.channel@) matches Some(s)
                    && plan.voice_id@ == s.voice_id@ && plan.engine == s.engine && plan.channel@
                    == filtered.source.channel@ && plan.text@ == spoken_text_spec(
                    filtered.source.username@,
                    filtered.sanitized_text@,
                ),
                None => !kv_has(self.spec_settings(), filtered.source.channel@),
            },
    {
        let settings = match kv_lookup(&self.channel_settings, filtered.source.channel.as_str()) {
            Some(s) => s,
            None => {
                return None;
            },
        };
        let uchars = crate::text::str_chars(filtered.source.username.as_str());
        let speaker = crate::text::trim_spaces_chars(&uchars);
        let text: String = if speaker.len() == 0 {
            filtered.sanitized_text.clone()
        } else {
            let mut t = crate::text::chars_string(&speaker);
            t.append(" says: ");
            t.append(filtered.sanitized_text.as_str());
            t
        };
        Some(
            DispatchPlan {
                channel: filtered.source.channel.clone(),
                voice_id: settings.voice_id.clone(),
                engine: settings.engine,
                text,
            },
        )
    }

    /// The request the dispatcher sends for a plan: the plan's text and
    /// voice, with the fixed tuning.
    pub fn build_tts_request(plan: &DispatchPlan) -> (r: TtsRequest)
        ensures
            r.text@ == plan.text@,
            r.voice_id@ == plan.voice_id@,
            r.nfe_step == Some(DEFAULT_TTS_NFE_STEP),
            r.remove_silence == Some(true),
            r.seed is None,
    {
        TtsRequest {
            text: plan.text.clone(),
            voice_id: plan.voice_id.clone(),
            nfe_step: Some(DEFAULT_TTS_NFE_STEP),
            remove_silence: Some(true),
            seed: None,
        }
    }

    /// The dispatcher's second step, after synthesis returned: the channel's
    /// liveness is checked again — a stale completion is discarded silently —
    /// the audio is decoded, and the playback item is buffered and broadcast.
    /// `Ok(true)` is a published item.
    pub fn complete_dispatch(&mut self, filtered: &FilteredMessage, response: &TtsResponse) -> (r:
        Result<bool, DispatchError>)
        requires
            old(self).wf(),
            old(self).spec_playback().spec_published() < u64::MAX,
        ensures
            final (self).wf(),
            final (self).spec_settings() == old(self).spec_settings(),
            final (self).spec_watchers() == old(self).spec_watchers(),
            final (self).spec_queue() == old(self).spec_queue(),
            match r {
                Ok(true) => kv_has(old(self).spec_settings(), filtered.source.channel@)
                    && base64_decode_of(response.audio_base64@) is Some && {
                    let fan0 = old(self).spec_playback();
                    let fan = final (self).spec_playback();
                    let item = fan.spec_recent().last();
                    &&& fan.spec_published() == fan0.spec_published() + 1
                    &&& fan.spec_pending() == (if fan0.spec_pending().len()
                        == fan0.spec_pending_capacity() {
                        fan0.spec_pending().drop_first()
                    } else {
                        fan0.spec_pending()
                    }).push(item)
                    &&& fan.spec_recent() == (if fan0.spec_recent().len()
                        == fan0.spec_recent_capacity() {
                        fan0.spec_recent().drop_first()
                    } else {
                        fan0.spec_recent()
                    }).push(item)
                    &&& fan.spec_base() == fan0.spec_published() + 1 - fan.spec_recent().len()
                    &&& fan.spec_pending_capacity() == fan0.spec_pending_capacity()
                    &&& fan.spec_recent_capacity() == fan0.spec_recent_capacity()
                    &&& item.platform == filtered.source.platform
                    &&& item.channel@ == filtered.source.channel@
                    &&& item.username@ == filtered.source.username@
                    &&& item.display_text@ == filtered.sanitized_text@
                    &&& item.format@ == "audio/wav"@
                    &&& item.sample_rate == response.sample_rate
                    &&& item.audio@ == base64_decode_of(response.audio_base64@).unwrap()
                    &&& match meta_get_spec(filtered.source.metadata.entries@, "color"@) {
                        Some(MetaValue::Text(c)) => item.color matches Some(ic) && ic@ == c@,
                        _ => item.color is None,
                    }
                },
                Ok(false) => !kv_has(old(self).spec_settings(), filtered.source.channel@) && final (
                self).spec_playback() == old(self).spec_playback(),
                Err(DispatchError::AudioDecode) => kv_has(
                    old(self).spec_settings(),
                    filtered.source.channel@,
                ) && base64_decode_of(response.audio_base64@) is None && final (
                self).spec_playback() == old(self).spec_playback(),
            },
    {
        if !self.is_channel_active(filtered.source.channel.as_str()) {
            return Ok(false);
        }
        let audio = match decode_base64(response.audio_base64.as_str()) {
            Ok(bytes) => bytes,
            Err(_) => {
                return Err(DispatchError::AudioDecode);
            },
        };
        let color: Option<String> = match filtered.source.metadata.get("color") {
            Some(v) => match v.text_value() {
                Some(c) => Some(c.clone()),
                None => None,
            },
            None => None,
        };
        let item = PlaybackItem {
            platform: filtered.source.platform,
            channel: filtered.source.channel.clone(),
            username: filtered.source.username.clone(),
            display_text: filtered.sanitized_text.clone(),
            format: String::from_str("audio/wav"),
            sample_rate: response.sample_rate,
            audio: std::sync::Arc::new(audio),
            color,
        };
        self.playback.publish(item);
        Ok(true)
    }

    /// A snapshot of the pending playback, oldest first.
    pub fn pending_playback(&self) -> (r: Vec<PlaybackItem>)
        ensures
            r@ == self.spec_playback().spec_pending(),
    {
        self.playback.pending_playback()
    }

    /// A live subscription to playback, starting after everything already
    /// published.
    pub fn subscribe_playback(&self) -> (r: Subscriber)
        requires
            self.wf(),
        ensures
            r.spec_cursor() == self.spec_playback().spec_published(),
    {
        self.playback.subscribe()
    }

    /// Direct access to the fan-out, for polling a subscription.
    pub fn playback(&self) -> (r: &FanOut)
        ensures
            *r == self.spec_playback(),
    {
        &self.playback
    }

    /// Removes the channel's buffered playback; other channels' items stay.
    pub fn purge_playback_for_channel(&mut self, channel: &str) -> (r: bool)
        requires
            old(self).wf(),
        ensures
            final (self).wf(),
            final (self).spec_settings() == old(self).spec_settings(),
            final (self).spec_watchers() == old(self).spec_watchers(),
            final (self).spec_queue() == old(self).spec_queue(),
            final (self).spec_playback().spec_pending() == old(
                self,
            ).spec_playback().spec_pending().filter(keeps_channel_fn(channel@)),
            r == (final (self).spec_playback().spec_pending().len() != old(
                self,
            ).spec_playback().spec_pending().len()),
    {
        self.playback.purge_channel(channel)
    }
}

} // verus!
