//! The filter and the rate limiter: what may be spoken, in what form, and
//! how fast.

use vstd::prelude::*;

use crate::config::FilterConfig;
use crate::message::{message_like, now_unix_millis, MessageContent, NormalizedMessage};
use crate::text::{
    chars_string, contains_seq, contains_sub, is_space_char, join_chars, join_with,
    lemma_words_of_join, lemma_words_of_props, lower_of, lowercase, split_words, str_chars,
    sub_chars, trim_spaces_chars, trim_spaces_spec, words_of,
};

verus! {

/// A message the filter accepted: the source, its sanitised rendering, and
/// when it was accepted.
#[derive(Debug, Clone)]
pub struct FilteredMessage {
    pub source: NormalizedMessage,
    pub sanitized_text: String,
    pub accepted_at_ms: i64,
}

/// Carriage returns and newlines become spaces.
pub open spec fn collapse_newlines(s: Seq<char>) -> Seq<char> {
    s.map_values(|c: char| if c == '\r' || c == '\n' { ' ' } else { c })
}

/// Whether the text holds a link marker.
pub open spec fn link_pattern_in(s: Seq<char>) -> bool {
    contains_seq(s, "http://"@) || contains_seq(s, "https://"@) || contains_seq(s, "www."@)
}

/// Whether the lowered text holds any lowered banned keyword.
pub open spec fn banned_match(banned: Seq<Seq<char>>, lowered: Seq<char>) -> bool {
    exists|i: int| 0 <= i < banned.len() && contains_seq(lowered, lower_of(#[trigger] banned[i]))
}

/// The text cut to the word limit: more words than allowed are dropped and
/// the kept ones are joined by single spaces; within the limit the text
/// keeps its inner spacing.
pub open spec fn truncate_words_spec(t: Seq<char>, max_words: int) -> Seq<char> {
    let ws = words_of(t);
    if ws.len() > max_words {
        join_with(ws.take(max_words), ' ')
    } else {
        t
    }
}

/// What the sanitiser yields for a text: `None` is rejection.
pub open spec fn sanitize_text_spec(cfg: FilterConfig, text: Seq<char>) -> Option<Seq<char>> {
    let t = trim_spaces_spec(collapse_newlines(text));
    if t.len() == 0 {
        None
    } else if !cfg.allow_links && link_pattern_in(t) {
        None
    } else if banned_match(cfg.banned_keywords.deep_view(), lower_of(t)) {
        None
    } else {
        let w = truncate_words_spec(t, cfg.max_words as int);
        if w.len() > cfg.max_chars {
            Some(w.take(cfg.max_chars as int))
        } else {
            Some(w)
        }
    }
}

/// What the sanitiser yields for a message: system content is never spoken.
pub open spec fn sanitize_spec(cfg: FilterConfig, content: MessageContent) -> Option<Seq<char>> {
    match content {
        MessageContent::System(_) => None,
        MessageContent::Text(t) => sanitize_text_spec(cfg, t@),
    }
}

/// The sanitiser: rejects system content, empty results, links and banned
/// keywords, and cuts what remains to the configured size.
pub struct MessageFilter {
    config: FilterConfig,
    banned_lower: Vec<String>,
}

impl MessageFilter {
    #[verifier::type_invariant]
    spec fn wf(self) -> bool {
        &&& self.banned_lower@.len() == self.config.banned_keywords@.len()
        &&& forall|i: int|
            0 <= i < self.banned_lower@.len() ==> (#[trigger] self.banned_lower@[i])@ == lower_of(
                self.config.banned_keywords@[i]@,
            )
    }

    /// The configuration this filter was built with.
    pub closed spec fn spec_config(self) -> FilterConfig {
        self.config
    }

    pub fn config(&self) -> (r: &FilterConfig)
        ensures
            *r == self.spec_config(),
    {
        &self.config
    }

    /// Builds a filter; every configuration is accepted.
    pub fn new(config: FilterConfig) -> (r: Self)
        ensures
            r.spec_config() == config,
    {
        let mut banned_lower: Vec<String> = Vec::new();
        let mut i: usize = 0;
        while i < config.banned_keywords.len()
            invariant
                i <= config.banned_keywords@.len(),
                banned_lower@.len() == i,
                forall|j: int|
                    0 <= j < i ==> (#[trigger] banned_lower@[j])@ == lower_of(
                        config.banned_keywords@[j]@,
                    ),
            decreases config.banned_keywords.len() - i,
        {
            banned_lower.push(lowercase(config.banned_keywords[i].as_str()));
            i = i + 1;
        }
        MessageFilter { config, banned_lower }
    }

    /// Sanitises one message; `None` is the normal "not accepted" outcome.
    pub fn sanitize(&self, message: &NormalizedMessage) -> (r: Option<FilteredMessage>)
        ensures
            match r {
                Some(f) => sanitize_spec(self.spec_config(), message.content) is Some
                    && f.sanitized_text@ == sanitize_spec(
                    self.spec_config(),
                    message.content,
                ).unwrap() && message_like(f.source, *message),
                None => sanitize_spec(self.spec_config(), message.content) is None,
            },
    {
        proof {
            use_type_invariant(&*self);
        }
        let text: &String = match &message.content {
            MessageContent::Text(t) => t,
            MessageContent::System(_) => {
                return None;
            },
        };
        let chars = str_chars(text.as_str());
        let mut collapsed: Vec<char> = Vec::new();
        let mut i: usize = 0;
        while i < chars.len()
            invariant
                i <= chars@.len(),
                collapsed@ == collapse_newlines(chars@.take(i as int)),
            decreases chars.len() - i,
        {
            let c = chars[i];
            if c == '\r' || c == '\n' {
                collapsed.push(' ');
            } else {
                collapsed.push(c);
            }
            i = i + 1;
            proof {
                assert(chars@.take(i as int) =~= chars@.take(i - 1).push(chars@[i - 1]));
                assert(collapse_newlines(chars@.take(i as int)) =~= collapse_newlines(
                    chars@.take(i - 1),
                ).push(if chars@[i - 1] == '\r' || chars@[i - 1] == '\n' {
                    ' '
                } else {
                    chars@[i - 1]
                }));
            }
        }
        proof {
            assert(chars@.take(chars@.len() as int) =~= chars@);
        }
        let trimmed = trim_spaces_chars(&collapsed);
        let ghost t = trim_spaces_spec(collapse_newlines(text@));
        if trimmed.len() == 0 {
            return None;
        }
        if !self.config.allow_links {
            let http = str_chars("http://");
            let https = str_chars("https://");
            let www = str_chars("www.");
            proof {
                reveal_strlit("http://");
                reveal_strlit("https://");
                reveal_strlit("www.");
            }
            if contains_sub(&trimmed, &http) || contains_sub(&trimmed, &https) || contains_sub(
                &trimmed,
                &www,
            ) {
                return None;
            }
        }
        let lowered = lowercase(chars_string(&trimmed).as_str());
        let lchars = str_chars(lowered.as_str());
        let mut k: usize = 0;
        while k < self.banned_lower.len()
            invariant
                self.wf(),
                k <= self.banned_lower@.len(),
                lchars@ == lower_of(t),
                t == trim_spaces_spec(collapse_newlines(message.content->Text_0@)),
                forall|j: int|
                    0 <= j < k ==> !contains_seq(
                        lower_of(t),
                        lower_of(#[trigger] self.config.banned_keywords@[j]@),
                    ),
            decreases self.banned_lower.len() - k,
        {
            let kw = str_chars(self.banned_lower[k].as_str());
            if contains_sub(&lchars, &kw) {
                proof {
                    let banned = self.config.banned_keywords.deep_view();
                    assert(banned[k as int] == self.config.banned_keywords@[k as int]@);
                    assert(contains_seq(lower_of(t), lower_of(banned[k as int])));
                }
                return None;
            }
            k = k + 1;
        }
        proof {
            let banned = self.config.banned_keywords.deep_view();
            assert forall|j: int| 0 <= j < banned.len() implies !contains_seq(
                lower_of(t),
                lower_of(#[trigger] banned[j]),
            ) by {
                assert(banned[j] == self.config.banned_keywords@[j]@);
            }
            assert(!banned_match(banned, lower_of(t)));
        }
        let mut words = split_words(&trimmed);
        let w: Vec<char> = if words.len() > self.config.max_words {
            let ghost full = words.deep_view();
            words.truncate(self.config.max_words);
            proof {
                assert(words.deep_view() =~~= full.take(self.config.max_words as int));
            }
            join_chars(&words, ' ')
        } else {
            trimmed
        };
        let w2: Vec<char> = if w.len() > self.config.max_chars {
            let cut = sub_chars(&w, 0, self.config.max_chars);
            proof {
                assert(cut@ =~= w@.take(self.config.max_chars as int));
            }
            cut
        } else {
            w
        };
        Some(
            FilteredMessage {
                source: message.duplicate(),
                sanitized_text: chars_string(&w2),
                accepted_at_ms: now_unix_millis(),
            },
        )
    }
}

/// A text whose collapsed, trimmed form contains a configured banned
/// keyword once both are lowered is always rejected.
pub proof fn lemma_banned_keyword_rejected(cfg: FilterConfig, text: Seq<char>, k: int)
    requires
        0 <= k < cfg.banned_keywords@.len(),
        contains_seq(
            lower_of(trim_spaces_spec(collapse_newlines(text))),
            lower_of(cfg.banned_keywords@[k]@),
        ),
    ensures
        sanitize_text_spec(cfg, text) is None,
{
    let t = trim_spaces_spec(collapse_newlines(text));
    let banned = cfg.banned_keywords.deep_view();
    assert(banned[k] == cfg.banned_keywords@[k]@);
    assert(banned_match(banned, lower_of(t)));
}

/// An empty or whitespace-only text is always rejected, so offering such a
/// message to the queue returns false.
pub proof fn lemma_blank_text_rejected(cfg: FilterConfig, text: Seq<char>)
    requires
        forall|i: int| 0 <= i < text.len() ==> is_space_char(#[trigger] text[i]),
    ensures
        sanitize_text_spec(cfg, text) is None,
{
    let collapsed = collapse_newlines(text);
    assert forall|i: int| 0 <= i < collapsed.len() implies is_space_char(collapsed[i]) by {
        assert(is_space_char(text[i]));
    }
    let p = |c: char| is_space_char(c);
    crate::text::lemma_leading_while_eq(collapsed, p, collapsed.len() as int);
    assert(collapsed.skip(collapsed.len() as int) =~= Seq::<char>::empty());
    assert(trim_spaces_spec(collapsed).len() == 0);
}

/// A text with more words than the limit sanitises to exactly the limit of
/// words, within the character limit — provided the joined words fit the
/// character limit, which otherwise cuts into the last word.
pub proof fn lemma_word_truncation(cfg: FilterConfig, text: Seq<char>)
    requires
        sanitize_text_spec(cfg, text) is Some,
        words_of(trim_spaces_spec(collapse_newlines(text))).len() > cfg.max_words,
        join_with(
            words_of(trim_spaces_spec(collapse_newlines(text))).take(cfg.max_words as int),
            ' ',
        ).len() <= cfg.max_chars,
    ensures
        words_of(sanitize_text_spec(cfg, text).unwrap()).len() == cfg.max_words,
        sanitize_text_spec(cfg, text).unwrap().len() <= cfg.max_chars,
{
    let t = trim_spaces_spec(collapse_newlines(text));
    let ws = words_of(t);
    let kept = ws.take(cfg.max_words as int);
    lemma_words_of_props(t);
    assert forall|i: int| 0 <= i < kept.len() implies (#[trigger] kept[i]).len() > 0 by {
        assert(kept[i] == ws[i]);
    }
    assert forall|i: int, j: int|
        0 <= i < kept.len() && 0 <= j < kept[i].len() implies !is_space_char(
        #[trigger] kept[i][j],
    ) by {
        assert(kept[i] == ws[i]);
        assert(!is_space_char(ws[i][j]));
    }
    lemma_words_of_join(kept);
    assert(sanitize_text_spec(cfg, text).unwrap() == join_with(kept, ' '));
    assert(words_of(join_with(kept, ' ')) == kept);
}

// --- pacing ---

/// `a + b`, stopping at the top of the range.
pub open spec fn sat_add(a: u64, b: u64) -> u64 {
    if a + b > u64::MAX {
        u64::MAX
    } else {
        (a + b) as u64
    }
}

/// When the next emission may happen: the minimum spacing after the last
/// one, or right now when enough time has passed.
pub open spec fn emit_time(last: Option<u64>, interval: u64, now: u64) -> u64 {
    match last {
        Some(l) => if now < sat_add(l, interval) {
            sat_add(l, interval)
        } else {
            now
        },
        None => now,
    }
}

/// Paces emissions: at most one per interval.
pub struct RateLimiter {
    last_emit_ms: Option<u64>,
    interval_ms: u64,
}

impl RateLimiter {
    pub closed spec fn spec_last_emit(self) -> Option<u64> {
        self.last_emit_ms
    }

    pub closed spec fn spec_interval(self) -> u64 {
        self.interval_ms
    }

    /// A limiter with the given minimum spacing; zero spacing falls back to
    /// one second.
    pub fn new(interval_ms: u64) -> (r: Self)
        ensures
            r.spec_last_emit() is None,
            r.spec_interval() == (if interval_ms == 0 {
                1000u64
            } else {
                interval_ms
            }),
    {
        RateLimiter {
            last_emit_ms: None,
            interval_ms: if interval_ms == 0 {
                1000
            } else {
                interval_ms
            },
        }
    }

    /// Decides how long the caller must still wait before emitting at
    /// `now_ms`, and records the scheduled emission.
    pub fn throttle_wait(&mut self, now_ms: u64) -> (wait: u64)
        ensures
            final (self).spec_interval() == old(self).spec_interval(),
            final (self).spec_last_emit() == Some(
                emit_time(old(self).spec_last_emit(), old(self).spec_interval(), now_ms),
            ),
            wait == emit_time(old(self).spec_last_emit(), old(self).spec_interval(), now_ms)
                - now_ms,
    {
        match self.last_emit_ms {
            None => {
                self.last_emit_ms = Some(now_ms);
                0
            },
            Some(l) => {
                let sched: u64 = if l > u64::MAX - self.interval_ms {
                    u64::MAX
                } else {
                    l + self.interval_ms
                };
                if now_ms < sched {
                    self.last_emit_ms = Some(sched);
                    sched - now_ms
                } else {
                    self.last_emit_ms = Some(now_ms);
                    0
                }
            },
        }
    }
}

/// One throttled emission is no earlier than the interval after the
/// previous one, as long as the clock has not run out.
pub proof fn lemma_emit_spacing(prev: u64, interval: u64, now: u64)
    requires
        prev + interval <= u64::MAX,
    ensures
        emit_time(Some(prev), interval, now) >= prev + interval,
{
}

/// Emissions spaced at least `interval` apart stretch over at least
/// `(N − 1) · interval`: back-to-back throttled calls take at least that
/// long end to end.
pub proof fn lemma_throttle_spacing(e: Seq<int>, interval: int)
    requires
        interval >= 0,
        e.len() >= 1,
        forall|i: int| 0 <= i < e.len() - 1 ==> #[trigger] e[i + 1] >= e[i] + interval,
    ensures
        e.last() >= e.first() + (e.len() - 1) * interval,
    decreases e.len(),
{
    if e.len() == 1 {
    } else {
        let d = e.drop_first();
        assert forall|i: int| 0 <= i < d.len() - 1 implies #[trigger] d[i + 1] >= d[i] + interval by {
            assert(d[i + 1] == e[i + 2]);
            assert(d[i] == e[i + 1]);
        }
        lemma_throttle_spacing(d, interval);
        assert(d.last() == e.last());
        assert(d.first() == e[1]);
        assert(e[1] >= e[0] + interval);
        assert((e.len() - 1) * interval == (e.len() - 2) * interval + interval) by (nonlinear_arith);
    }
}

} // verus!
