//! Playback fan-out: a bounded pending buffer replayed to new subscribers,
//! a bounded broadcast window for live ones, and the binary frame each item
//! is delivered in.

use vstd::prelude::*;
use vstd::string::StringSliceAdditionalSpecFns;
use vstd::string::StrSliceExecFns;
use vstd::utf8::encode_utf8;

use std::sync::Arc;

use crate::message::{platform_label, Platform};
use crate::text::{chars_string, str_chars};
use crate::wire::{append_json_escaped, json_escape};

verus! {

/// One synthesised utterance, ready to deliver: the audio bytes are shared
/// and read-only after creation.
#[derive(Debug, Clone)]
pub struct PlaybackItem {
    pub platform: Platform,
    pub channel: String,
    pub username: String,
    pub display_text: String,
    pub format: String,
    pub sample_rate: u32,
    pub audio: Arc<Vec<u8>>,
    pub color: Option<String>,
}

/// Relies on `Arc::clone`: the clone is the same shared value.
#[verifier::external_body]
fn share_audio(a: &Arc<Vec<u8>>) -> (r: Arc<Vec<u8>>)
    ensures
        r == *a,
{
    a.clone()
}

impl PlaybackItem {
    /// A copy of this item; the audio is shared, not duplicated.
    pub fn duplicate(&self) -> (r: Self)
        ensures
            r == *self,
    {
        PlaybackItem {
            platform: self.platform,
            channel: self.channel.clone(),
            username: self.username.clone(),
            display_text: self.display_text.clone(),
            format: self.format.clone(),
            sample_rate: self.sample_rate,
            audio: share_audio(&self.audio),
            color: match &self.color {
                Some(c) => Some(c.clone()),
                None => None,
            },
        }
    }
}

/// The predicate "is not of channel `c`", from one definition site.
pub open spec fn keeps_channel_fn(c: Seq<char>) -> spec_fn(PlaybackItem) -> bool {
    |it: PlaybackItem| it.channel@ != c
}

/// The fan-out: an ordered pending buffer for late subscribers, and a
/// window of recently published items for live ones. `base` is the sequence
/// number of the oldest retained item; `base + recent.len()` is how many
/// items were ever published.
pub struct FanOut {
    pending: Vec<PlaybackItem>,
    pending_capacity: usize,
    recent: Vec<PlaybackItem>,
    recent_capacity: usize,
    base: u64,
}

impl FanOut {
    pub closed spec fn spec_pending(self) -> Seq<PlaybackItem> {
        self.pending@
    }

    pub closed spec fn spec_pending_capacity(self) -> usize {
        self.pending_capacity
    }

    pub closed spec fn spec_recent(self) -> Seq<PlaybackItem> {
        self.recent@
    }

    pub closed spec fn spec_recent_capacity(self) -> usize {
        self.recent_capacity
    }

    /// Sequence number of the oldest item still in the broadcast window.
    pub closed spec fn spec_base(self) -> u64 {
        self.base
    }

    /// How many items were ever published.
    pub open spec fn spec_published(self) -> int {
        self.spec_base() + self.spec_recent().len()
    }

    pub open spec fn wf(self) -> bool {
        &&& self.spec_pending().len() <= self.spec_pending_capacity()
        &&& self.spec_recent().len() <= self.spec_recent_capacity()
        &&& self.spec_recent_capacity() >= 1
        &&& self.spec_pending_capacity() >= 1
        &&& self.spec_published() <= u64::MAX
    }

    /// An empty fan-out with the given bounds.
    pub fn new(pending_capacity: usize, recent_capacity: usize) -> (r: Self)
        requires
            pending_capacity >= 1,
            recent_capacity >= 1,
        ensures
            r.wf(),
            r.spec_pending() == Seq::<PlaybackItem>::empty(),
            r.spec_published() == 0,
            r.spec_base() == 0,
            r.spec_pending_capacity() == pending_capacity,
            r.spec_recent_capacity() == recent_capacity,
    {
        FanOut {
            pending: Vec::new(),
            pending_capacity,
            recent: Vec::new(),
            recent_capacity,
            base: 0,
        }
    }

    /// Appends to the pending buffer (evicting the oldest at capacity) and
    /// broadcasts into the window; never waits for a subscriber.
    pub fn publish(&mut self, item: PlaybackItem)
        requires
            old(self).wf(),
            old(self).spec_published() < u64::MAX,
        ensures
            final (self).wf(),
            final (self).spec_pending() == (if old(self).spec_pending().len() == old(
                self,
            ).spec_pending_capacity() {
                old(self).spec_pending().drop_first()
            } else {
                old(self).spec_pending()
            }).push(item),
            final (self).spec_recent() == (if old(self).spec_recent().len() == old(
                self,
            ).spec_recent_capacity() {
                old(self).spec_recent().drop_first()
            } else {
                old(self).spec_recent()
            }).push(item),
            final (self).spec_published() == old(self).spec_published() + 1,
            final (self).spec_base() == old(self).spec_published() + 1
                - final (self).spec_recent().len(),
            final (self).spec_pending_capacity() == old(self).spec_pending_capacity(),
            final (self).spec_recent_capacity() == old(self).spec_recent_capacity(),
    {
        if self.pending.len() >= self.pending_capacity {
            let _evicted = self.pending.remove(0);
            proof {
                assert(self.pending@ =~= old(self).pending@.drop_first());
            }
        }
        self.pending.push(item.duplicate());
        if self.recent.len() >= self.recent_capacity {
            let _dropped = self.recent.remove(0);
            self.base = self.base + 1;
        }
        self.recent.push(item);
    }

    /// A snapshot of the pending buffer, oldest first: what a newly
    /// connecting subscriber is shown before live items.
    pub fn pending_playback(&self) -> (r: Vec<PlaybackItem>)
        ensures
            r@ == self.spec_pending(),
    {
        let mut r: Vec<PlaybackItem> = Vec::new();
        let mut i: usize = 0;
        while i < self.pending.len()
            invariant
                i <= self.pending@.len(),
                r@ == self.pending@.take(i as int),
            decreases self.pending.len() - i,
        {
            r.push(self.pending[i].duplicate());
            i = i + 1;
            proof {
                assert(self.pending@.take(i as int) =~= self.pending@.take(i - 1).push(
                    self.pending@[i - 1],
                ));
            }
        }
        proof {
            assert(self.pending@.take(self.pending@.len() as int) =~= self.pending@);
        }
        r
    }

    /// A live subscription, starting after everything already published.
    pub fn subscribe(&self) -> (r: Subscriber)
        requires
            self.wf(),
        ensures
            r.spec_cursor() == self.spec_published(),
    {
        Subscriber { cursor: self.base + self.recent.len() as u64 }
    }

    /// How many items were ever published.
    pub fn published(&self) -> (r: u64)
        requires
            self.wf(),
        ensures
            r == self.spec_published(),
    {
        self.base + self.recent.len() as u64
    }

    /// Removes every pending item of `channel`; other channels are
    /// untouched. Returns whether anything was removed.
    pub fn purge_channel(&mut self, channel: &str) -> (r: bool)
        ensures
            final (self).spec_pending() == old(self).spec_pending().filter(
                keeps_channel_fn(channel@),
            ),
            r == (final (self).spec_pending().len() != old(self).spec_pending().len()),
            final (self).spec_recent() == old(self).spec_recent(),
            final (self).spec_base() == old(self).spec_base(),
            final (self).spec_pending_capacity() == old(self).spec_pending_capacity(),
            final (self).spec_recent_capacity() == old(self).spec_recent_capacity(),
            old(self).wf() ==> final (self).wf(),
    {
        let p = keep_other_channels(&self.pending, channel);
        let changed = p.len() != self.pending.len();
        self.pending = p;
        proof {
            old(self).pending@.lemma_filter_len(keeps_channel_fn(channel@));
        }
        changed
    }
}

/// The pending items whose channel differs from `channel`.
fn keep_other_channels(v: &Vec<PlaybackItem>, channel: &str) -> (r: Vec<PlaybackItem>)
    ensures
        r@ == v@.filter(keeps_channel_fn(channel@)),
{
    let cname = String::from_str(channel);
    let mut r: Vec<PlaybackItem> = Vec::new();
    proof {
        reveal(Seq::filter);
        assert(v@.take(0) =~= Seq::<PlaybackItem>::empty());
        assert(v@.take(0).filter(keeps_channel_fn(channel@)) =~= Seq::<PlaybackItem>::empty());
    }
    let mut i: usize = 0;
    while i < v.len()
        invariant
            i <= v@.len(),
            cname@ == channel@,
            r@ == v@.take(i as int).filter(keeps_channel_fn(channel@)),
        decreases v.len() - i,
    {
        proof {
            let p = keeps_channel_fn(channel@);
            assert(v@.take(i + 1).drop_last() =~= v@.take(i as int));
            assert(v@.take(i + 1).last() == v@[i as int]);
            reveal(Seq::filter);
            assert(v@.take(i + 1).filter(p) == if p(v@[i as int]) {
                v@.take(i as int).filter(p).push(v@[i as int])
            } else {
                v@.take(i as int).filter(p)
            });
        }
        if !(v[i].channel == cname) {
            r.push(v[i].duplicate());
        }
        i = i + 1;
    }
    proof {
        assert(v@.take(v@.len() as int) =~= v@);
    }
    r
}

/// Purging is exact: no item of the purged channel remains, every item of
/// another channel survives, and survivors keep their relative order.
pub proof fn lemma_purge_exact(s: Seq<PlaybackItem>, c: Seq<char>)
    ensures
        forall|i: int|
            0 <= i < s.filter(keeps_channel_fn(c)).len() ==> (#[trigger] s.filter(
                keeps_channel_fn(c),
            )[i]).channel@ != c,
        forall|i: int|
            0 <= i < s.len() && (#[trigger] s[i]).channel@ != c ==> s.filter(
                keeps_channel_fn(c),
            ).contains(s[i]),
{
    let p = keeps_channel_fn(c);
    assert forall|i: int| 0 <= i < s.filter(p).len() implies (#[trigger] s.filter(p)[i]).channel@
        != c by {
        s.lemma_filter_pred(p, i);
    }
    assert forall|i: int| 0 <= i < s.len() && (#[trigger] s[i]).channel@ != c implies s.filter(
        p,
    ).contains(s[i]) by {
        s.lemma_filter_contains(p, i);
    }
}

/// One live subscriber's position in the broadcast.
pub struct Subscriber {
    cursor: u64,
}

/// What one poll of a subscription yields.
pub enum RecvOutcome {
    /// The next item, in publish order.
    Item(PlaybackItem),
    /// The subscriber fell behind: this many items were skipped, and the
    /// position resumes at the oldest retained item.
    Lagged(u64),
    /// Nothing new yet.
    Empty,
}

impl Subscriber {
    /// Sequence number of the next item this subscriber will see.
    pub closed spec fn spec_cursor(self) -> u64 {
        self.cursor
    }

    /// Sequence number of the next item this subscriber will see.
    pub fn position(&self) -> (r: u64)
        ensures
            r == self.spec_cursor(),
    {
        self.cursor
    }

    /// Polls the broadcast: items come in publish order; a subscriber that
    /// fell out of the window observes the skip count instead of blocking
    /// anyone.
    pub fn recv(&mut self, fan: &FanOut) -> (r: RecvOutcome)
        requires
            fan.wf(),
            old(self).spec_cursor() <= fan.spec_published(),
        ensures
            final (self).spec_cursor() <= fan.spec_published(),
            match r {
                RecvOutcome::Item(item) => old(self).spec_cursor() >= fan.spec_base() && old(
                    self,
                ).spec_cursor() < fan.spec_published() && item == fan.spec_recent()[old(
                    self,
                ).spec_cursor() - fan.spec_base()] && final (self).spec_cursor() == old(
                    self,
                ).spec_cursor() + 1,
                RecvOutcome::Lagged(skipped) => old(self).spec_cursor() < fan.spec_base()
                    && skipped == fan.spec_base() - old(self).spec_cursor() && final (
                self).spec_cursor() == fan.spec_base(),
                RecvOutcome::Empty => old(self).spec_cursor() == fan.spec_published() && final (
                self).spec_cursor() == old(self).spec_cursor(),
            },
    {
        if self.cursor < fan.base {
            let skipped = fan.base - self.cursor;
            self.cursor = fan.base;
            return RecvOutcome::Lagged(skipped);
        }
        let offset = self.cursor - fan.base;
        if offset < fan.recent.len() as u64 {
            let item = fan.recent[offset as usize].duplicate();
            self.cursor = self.cursor + 1;
            return RecvOutcome::Item(item);
        }
        RecvOutcome::Empty
    }
}

// --- the delivery frame ---

/// The JSON header of one playback frame, fields in a fixed order; a
/// missing colour is `null`.
pub open spec fn playback_header_spec(item: PlaybackItem) -> Seq<char> {
    "{\"platform\":\""@ + json_escape(platform_label(item.platform)) + "\",\"channel\":\""@
        + json_escape(item.channel@) + "\",\"username\":\""@ + json_escape(item.username@)
        + "\",\"display_text\":\""@ + json_escape(item.display_text@) + "\",\"format\":\""@
        + json_escape(item.format@) + (match item.color {
        Some(c) => "\",\"color\":\""@ + json_escape(c@) + "\"}"@,
        None => "\",\"color\":null}"@,
    })
}

/// The little-endian length prefix.
pub open spec fn le32_bytes(x: u32) -> Seq<u8> {
    seq![
        (x & 0xff) as u8,
        ((x >> 8) & 0xff) as u8,
        ((x >> 16) & 0xff) as u8,
        ((x >> 24) & 0xff) as u8,
    ]
}

/// A frame too large to carry its header length in four bytes.
#[derive(Debug, Clone, Copy, PartialEq, Eq, Structural)]
pub struct PacketTooLarge;

/// Builds the binary frame delivered to subscribers: a four-byte
/// little-endian header length, the JSON header, then the raw audio bytes.
pub fn build_playback_packet(item: &PlaybackItem) -> (r: Result<Vec<u8>, PacketTooLarge>)
    ensures
        ({
            let hb = encode_utf8(playback_header_spec(*item));
            match r {
                Ok(v) => hb.len() <= u32::MAX && v@ == le32_bytes(hb.len() as u32) + hb
                    + item.audio@,
                Err(_) => hb.len() > u32::MAX,
            }
        }),
{
    let mut header: Vec<char> = Vec::new();
    crate::text::append_chars(&mut header, &str_chars("{\"platform\":\""));
    match item.platform {
        Platform::Twitch => append_json_escaped(&mut header, &str_chars("Twitch")),
        Platform::YouTube => append_json_escaped(&mut header, &str_chars("YouTube")),
    }
    crate::text::append_chars(&mut header, &str_chars("\",\"channel\":\""));
    append_json_escaped(&mut header, &str_chars(item.channel.as_str()));
    crate::text::append_chars(&mut header, &str_chars("\",\"username\":\""));
    append_json_escaped(&mut header, &str_chars(item.username.as_str()));
    crate::text::append_chars(&mut header, &str_chars("\",\"display_text\":\""));
    append_json_escaped(&mut header, &str_chars(item.display_text.as_str()));
    crate::text::append_chars(&mut header, &str_chars("\",\"format\":\""));
    append_json_escaped(&mut header, &str_chars(item.format.as_str()));
    match &item.color {
        Some(c) => {
            crate::text::append_chars(&mut header, &str_chars("\",\"color\":\""));
            append_json_escaped(&mut header, &str_chars(c.as_str()));
            crate::text::append_chars(&mut header, &str_chars("\"}"));
        },
        None => {
            crate::text::append_chars(&mut header, &str_chars("\",\"color\":null}"));
        },
    }
    let header_s = chars_string(&header);
    let hb = header_s.as_str().as_bytes_vec();
    proof {
        assert(header@ == playback_header_spec(*item));
        assert(hb@ == encode_utf8(playback_header_spec(*item)));
    }
    if hb.len() > 0xffff_ffff {
        return Err(PacketTooLarge);
    }
    let len: u32 = hb.len() as u32;
    let mut packet: Vec<u8> = Vec::new();
    packet.push((len & 0xff) as u8);
    packet.push(((len >> 8) & 0xff) as u8);
    packet.push(((len >> 16) & 0xff) as u8);
    packet.push(((len >> 24) & 0xff) as u8);
    proof {
        assert(packet@ =~= le32_bytes(len));
    }
    append_bytes(&mut packet, &hb);
    let audio: &Vec<u8> = &item.audio;
    append_bytes(&mut packet, audio);
    proof {
        assert(packet@ =~= le32_bytes(len) + hb@ + item.audio@);
    }
    Ok(packet)
}

/// Appends the bytes of `w` to `acc`.
fn append_bytes(acc: &mut Vec<u8>, w: &Vec<u8>)
    ensures
        final (acc)@ == old(acc)@ + w@,
{
    let mut k: usize = 0;
    while k < w.len()
        invariant
            k <= w@.len(),
            acc@ == old(acc)@ + w@.take(k as int),
        decreases w.len() - k,
    {
        acc.push(w[k]);
        k = k + 1;
        proof {
            assert(old(acc)@ + w@.take(k as int) =~= (old(acc)@ + w@.take(k - 1)).push(w@[k - 1]));
        }
    }
    proof {
        assert(w@.take(w@.len() as int) =~= w@);
    }
}

} // verus!
