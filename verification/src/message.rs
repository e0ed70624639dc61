//! The platform-agnostic chat message model: every ingestion path produces a
//! `NormalizedMessage`, and everything downstream consumes only that shape.

use vstd::prelude::*;

verus! {

/// The chat platform a message came from.
#[derive(Debug, Clone, Copy, PartialEq, Eq, Structural)]
pub enum Platform {
    Twitch,
    YouTube,
}

/// How urgently a message should be spoken.
#[derive(Debug, Clone, Copy, PartialEq, Eq, Structural)]
pub enum Priority {
    Gift,
    Paid,
    Moderator,
    Mention,
    Normal,
}

impl Default for Priority {
    fn default() -> (r: Self)
        ensures
            r == Priority::Normal,
    {
        Priority::Normal
    }
}

/// A chat text, or a system notice that is never spoken.
#[derive(Debug, Clone)]
pub enum MessageContent {
    Text(String),
    System(String),
}

impl MessageContent {
    pub fn as_text(&self) -> (r: Option<&str>)
        ensures
            match *self {
                MessageContent::Text(ref s) => r is Some && r.unwrap()@ == s@,
                MessageContent::System(_) => r is None,
            },
    {
        match self {
            MessageContent::Text(ref s) => Some(s.as_str()),
            MessageContent::System(_) => None,
        }
    }
}

/// A start/end pair of character positions for one emote occurrence.
#[derive(Debug, Clone, Copy)]
pub struct EmoteRange {
    pub start: usize,
    pub end: usize,
}

/// One emote and the positions where it occurs.
#[derive(Debug, Clone)]
pub struct EmoteSpec {
    pub id: String,
    pub positions: Vec<EmoteRange>,
}

/// The reply-thread references a message may carry.
#[derive(Debug, Clone)]
pub struct ReplyInfo {
    pub parent_msg_id: String,
    pub parent_display_name: Option<String>,
    pub parent_message: Option<String>,
    pub parent_user_id: Option<String>,
    pub parent_user_login: Option<String>,
    pub thread_parent_msg_id: Option<String>,
    pub thread_parent_user_id: Option<String>,
}

/// A paid amount attached to a message.
#[derive(Debug, Clone)]
pub struct PaymentInfo {
    pub amount_display: String,
    pub amount_micros: Option<u64>,
    pub currency: Option<String>,
}

/// One metadata value.
#[derive(Debug, Clone)]
pub enum MetaValue {
    Flag(bool),
    Count(i64),
    Text(String),
    List(Vec<String>),
    Emotes(Vec<EmoteSpec>),
    Reply(ReplyInfo),
    Tags(Vec<(String, String)>),
    Payment(PaymentInfo),
    Absent,
}

impl MetaValue {
    /// The textual value, if this is a `Text` entry.
    pub fn text_value(&self) -> (r: Option<&String>)
        ensures
            match *self {
                MetaValue::Text(ref s) => r is Some && *r.unwrap() == s,
                _ => r is None,
            },
    {
        match self {
            MetaValue::Text(ref s) => Some(s),
            _ => None,
        }
    }
}

/// The value stored for `key`, later entries shadowing earlier ones.
pub open spec fn meta_get_spec(entries: Seq<(String, MetaValue)>, key: Seq<char>) -> Option<
    MetaValue,
>
    decreases entries.len(),
{
    if entries.len() == 0 {
        None
    } else if entries.last().0@ == key {
        Some(entries.last().1)
    } else {
        meta_get_spec(entries.drop_last(), key)
    }
}

/// Open key/value metadata attached to a message.
#[derive(Debug, Clone)]
pub struct Metadata {
    pub entries: Vec<(String, MetaValue)>,
}

impl Metadata {
    pub fn new() -> (r: Self)
        ensures
            r.entries@ == Seq::<(String, MetaValue)>::empty(),
    {
        Metadata { entries: Vec::new() }
    }

    pub fn push(&mut self, key: String, value: MetaValue)
        ensures
            final (self).entries@ == old(self).entries@.push((key, value)),
    {
        self.entries.push((key, value));
    }

    /// The value stored for `key`, if any; a later entry shadows an earlier
    /// one with the same key.
    pub fn get(&self, key: &str) -> (r: Option<&MetaValue>)
        ensures
            match r {
                Some(m) => meta_get_spec(self.entries@, key@) == Some(*m),
                None => meta_get_spec(self.entries@, key@) is None,
            },
    {
        let key_s = String::from_str(key);
        proof {
            assert(self.entries@.take(self.entries@.len() as int) =~= self.entries@);
        }
        let mut i: usize = self.entries.len();
        while i > 0
            invariant
                i <= self.entries@.len(),
                key_s@ == key@,
                meta_get_spec(self.entries@, key@) == meta_get_spec(
                    self.entries@.take(i as int),
                    key@,
                ),
            decreases i,
        {
            proof {
                assert(self.entries@.take(i as int).last() == self.entries@[i - 1]);
                assert(self.entries@.take(i as int).drop_last() =~= self.entries@.take(i - 1));
            }
            if self.entries[i - 1].0 == key_s {
                return Some(&self.entries[i - 1].1);
            }
            i = i - 1;
        }
        proof {
            assert(self.entries@.take(0) =~= Seq::<(String, MetaValue)>::empty());
        }
        None
    }
}

// --- view-level equality and duplication ---

pub open spec fn opt_string_like(a: Option<String>, b: Option<String>) -> bool {
    match (a, b) {
        (Some(x), Some(y)) => x@ == y@,
        (None, None) => true,
        _ => false,
    }
}

pub open spec fn emote_like(a: EmoteSpec, b: EmoteSpec) -> bool {
    a.id@ == b.id@ && a.positions@ == b.positions@
}

pub open spec fn reply_like(a: ReplyInfo, b: ReplyInfo) -> bool {
    &&& a.parent_msg_id@ == b.parent_msg_id@
    &&& opt_string_like(a.parent_display_name, b.parent_display_name)
    &&& opt_string_like(a.parent_message, b.parent_message)
    &&& opt_string_like(a.parent_user_id, b.parent_user_id)
    &&& opt_string_like(a.parent_user_login, b.parent_user_login)
    &&& opt_string_like(a.thread_parent_msg_id, b.thread_parent_msg_id)
    &&& opt_string_like(a.thread_parent_user_id, b.thread_parent_user_id)
}

pub open spec fn payment_like(a: PaymentInfo, b: PaymentInfo) -> bool {
    a.amount_display@ == b.amount_display@ && a.amount_micros == b.amount_micros && match (
        a.currency,
        b.currency,
    ) {
        (Some(x), Some(y)) => x@ == y@,
        (None, None) => true,
        _ => false,
    }
}

/// The two values carry the same content, compared by view.
pub open spec fn meta_value_like(a: MetaValue, b: MetaValue) -> bool {
    match (a, b) {
        (MetaValue::Flag(x), MetaValue::Flag(y)) => x == y,
        (MetaValue::Count(x), MetaValue::Count(y)) => x == y,
        (MetaValue::Text(x), MetaValue::Text(y)) => x@ == y@,
        (MetaValue::List(x), MetaValue::List(y)) => x.deep_view() == y.deep_view(),
        (MetaValue::Emotes(x), MetaValue::Emotes(y)) => x@.len() == y@.len() && forall|i: int|
            0 <= i < x@.len() ==> emote_like(#[trigger] x@[i], y@[i]),
        (MetaValue::Reply(x), MetaValue::Reply(y)) => reply_like(x, y),
        (MetaValue::Tags(x), MetaValue::Tags(y)) => x.deep_view() == y.deep_view(),
        (MetaValue::Payment(x), MetaValue::Payment(y)) => payment_like(x, y),
        (MetaValue::Absent, MetaValue::Absent) => true,
        _ => false,
    }
}

pub open spec fn metadata_like(a: Metadata, b: Metadata) -> bool {
    a.entries@.len() == b.entries@.len() && forall|i: int|
        0 <= i < a.entries@.len() ==> (#[trigger] a.entries@[i]).0@ == b.entries@[i].0@
            && meta_value_like(a.entries@[i].1, b.entries@[i].1)
}

/// The two messages carry the same content, compared by view.
pub open spec fn message_like(a: NormalizedMessage, b: NormalizedMessage) -> bool {
    &&& a.id == b.id
    &&& a.platform == b.platform
    &&& a.channel@ == b.channel@
    &&& opt_string_like(a.user_id, b.user_id)
    &&& a.username@ == b.username@
    &&& a.priority == b.priority
    &&& match (a.content, b.content) {
        (MessageContent::Text(x), MessageContent::Text(y)) => x@ == y@,
        (MessageContent::System(x), MessageContent::System(y)) => x@ == y@,
        _ => false,
    }
    &&& metadata_like(a.metadata, b.metadata)
    &&& a.timestamp_ms == b.timestamp_ms
}

fn duplicate_opt_string(v: &Option<String>) -> (r: Option<String>)
    ensures
        opt_string_like(r, *v),
{
    match v {
        Some(s) => Some(s.clone()),
        None => None,
    }
}

impl MetaValue {
    /// A copy carrying the same content.
    pub fn duplicate(&self) -> (r: MetaValue)
        ensures
            meta_value_like(r, *self),
    {
        match self {
            MetaValue::Flag(b) => MetaValue::Flag(*b),
            MetaValue::Count(c) => MetaValue::Count(*c),
            MetaValue::Text(s) => MetaValue::Text(s.clone()),
            MetaValue::List(l) => {
                let mut out: Vec<String> = Vec::new();
                let mut i: usize = 0;
                while i < l.len()
                    invariant
                        i <= l@.len(),
                        out.deep_view().len() == i,
                        forall|j: int| 0 <= j < i ==> out.deep_view()[j] == l.deep_view()[j],
                    decreases l.len() - i,
                {
                    out.push(l[i].clone());
                    i = i + 1;
                }
                proof {
                    assert(out.deep_view() =~= l.deep_view());
                }
                MetaValue::List(out)
            },
            MetaValue::Emotes(es) => {
                let mut out: Vec<EmoteSpec> = Vec::new();
                let mut i: usize = 0;
                while i < es.len()
                    invariant
                        i <= es@.len(),
                        out@.len() == i,
                        forall|j: int| 0 <= j < i ==> emote_like(#[trigger] out@[j], es@[j]),
                    decreases es.len() - i,
                {
                    let mut positions: Vec<EmoteRange> = Vec::new();
                    let mut k: usize = 0;
                    while k < es[i].positions.len()
                        invariant
                            k <= es@[i as int].positions@.len(),
                            i < es@.len(),
                            positions@ == es@[i as int].positions@.take(k as int),
                        decreases es@[i as int].positions@.len() - k,
                    {
                        positions.push(es[i].positions[k]);
                        k = k + 1;
                        proof {
                            assert(es@[i as int].positions@.take(k as int) =~= es@[
                                i as int
                            ].positions@.take(k - 1).push(es@[i as int].positions@[k - 1]));
                        }
                    }
                    proof {
                        assert(es@[i as int].positions@.take(
                            es@[i as int].positions@.len() as int,
                        ) =~= es@[i as int].positions@);
                    }
                    out.push(EmoteSpec { id: es[i].id.clone(), positions });
                    i = i + 1;
                }
                MetaValue::Emotes(out)
            },
            MetaValue::Reply(info) => MetaValue::Reply(
                ReplyInfo {
                    parent_msg_id: info.parent_msg_id.clone(),
                    parent_display_name: duplicate_opt_string(&info.parent_display_name),
                    parent_message: duplicate_opt_string(&info.parent_message),
                    parent_user_id: duplicate_opt_string(&info.parent_user_id),
                    parent_user_login: duplicate_opt_string(&info.parent_user_login),
                    thread_parent_msg_id: duplicate_opt_string(&info.thread_parent_msg_id),
                    thread_parent_user_id: duplicate_opt_string(&info.thread_parent_user_id),
                },
            ),
            MetaValue::Tags(tv) => {
                let mut out: Vec<(String, String)> = Vec::new();
                let mut i: usize = 0;
                while i < tv.len()
                    invariant
                        i <= tv@.len(),
                        out.deep_view().len() == i,
                        forall|j: int| 0 <= j < i ==> out.deep_view()[j] == tv.deep_view()[j],
                    decreases tv.len() - i,
                {
                    out.push((tv[i].0.clone(), tv[i].1.clone()));
                    i = i + 1;
                }
                proof {
                    assert(out.deep_view() =~= tv.deep_view());
                }
                MetaValue::Tags(out)
            },
            MetaValue::Payment(p) => MetaValue::Payment(
                PaymentInfo {
                    amount_display: p.amount_display.clone(),
                    amount_micros: p.amount_micros,
                    currency: duplicate_opt_string(&p.currency),
                },
            ),
            MetaValue::Absent => MetaValue::Absent,
        }
    }
}

impl Metadata {
    /// A copy carrying the same entries.
    pub fn duplicate(&self) -> (r: Metadata)
        ensures
            metadata_like(r, *self),
    {
        let mut entries: Vec<(String, MetaValue)> = Vec::new();
        let mut i: usize = 0;
        while i < self.entries.len()
            invariant
                i <= self.entries@.len(),
                entries@.len() == i,
                forall|j: int|
                    0 <= j < i ==> (#[trigger] entries@[j]).0@ == self.entries@[j].0@
                        && meta_value_like(entries@[j].1, self.entries@[j].1),
            decreases self.entries.len() - i,
        {
            entries.push((self.entries[i].0.clone(), self.entries[i].1.duplicate()));
            i = i + 1;
        }
        Metadata { entries }
    }
}

/// Relies on `uuid::Uuid::new_v4` (as a 128-bit value) for a fresh message
/// identity; nothing is assumed of the value.
#[verifier::external_body]
fn fresh_message_id() -> u128 {
    uuid::Uuid::new_v4().as_u128()
}

/// Relies on `chrono::Utc::now` for the current time in Unix milliseconds;
/// nothing is assumed of the value.
#[verifier::external_body]
pub(crate) fn now_unix_millis() -> i64 {
    chrono::Utc::now().timestamp_millis()
}

/// A chat message in the shape every component downstream understands.
#[derive(Debug, Clone)]
pub struct NormalizedMessage {
    pub id: u128,
    pub platform: Platform,
    pub channel: String,
    pub user_id: Option<String>,
    pub username: String,
    pub priority: Priority,
    pub content: MessageContent,
    pub metadata: Metadata,
    pub timestamp_ms: i64,
}

pub open spec fn platform_label(p: Platform) -> Seq<char> {
    match p {
        Platform::Twitch => "Twitch"@,
        Platform::YouTube => "YouTube"@,
    }
}

impl NormalizedMessage {
    /// A fresh text message: identity and timestamp are drawn at creation,
    /// everything else is exactly what was passed.
    pub fn new_text(
        platform: Platform,
        channel: String,
        user_id: Option<String>,
        username: String,
        priority: Priority,
        text: String,
        metadata: Metadata,
    ) -> (r: Self)
        ensures
            r.platform == platform,
            r.channel == channel,
            r.user_id == user_id,
            r.username == username,
            r.priority == priority,
            r.content == MessageContent::Text(text),
            r.metadata == metadata,
    {
        NormalizedMessage {
            id: fresh_message_id(),
            platform,
            channel,
            user_id,
            username,
            priority,
            content: MessageContent::Text(text),
            metadata,
            timestamp_ms: now_unix_millis(),
        }
    }

    /// A copy carrying the same content.
    pub fn duplicate(&self) -> (r: NormalizedMessage)
        ensures
            message_like(r, *self),
    {
        NormalizedMessage {
            id: self.id,
            platform: self.platform,
            channel: self.channel.clone(),
            user_id: duplicate_opt_string(&self.user_id),
            username: self.username.clone(),
            priority: self.priority,
            content: match &self.content {
                MessageContent::Text(s) => MessageContent::Text(s.clone()),
                MessageContent::System(s) => MessageContent::System(s.clone()),
            },
            metadata: self.metadata.duplicate(),
            timestamp_ms: self.timestamp_ms,
        }
    }

    /// The one-line rendering `[platform]#channel user: content`.
    pub fn display_string(&self) -> (r: String)
        ensures
            r@ == "["@ + platform_label(self.platform) + "]#"@ + self.channel@ + " "@
                + self.username@ + ": "@ + (match self.content {
                MessageContent::Text(ref s) => s@,
                MessageContent::System(ref s) => s@,
            }),
    {
        let mut r = String::new();
        r.append("[");
        match self.platform {
            Platform::Twitch => r.append("Twitch"),
            Platform::YouTube => r.append("YouTube"),
        }
        r.append("]#");
        r.append(self.channel.as_str());
        r.append(" ");
        r.append(self.username.as_str());
        r.append(": ");
        match &self.content {
            MessageContent::Text(s) => r.append(s.as_str()),
            MessageContent::System(s) => r.append(s.as_str()),
        }
        r
    }
}

} // verus!
