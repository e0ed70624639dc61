//! The bounded queue between the ingestion paths and the dispatcher: it
//! filters, paces, and absorbs bursts up to a fixed capacity.

use vstd::prelude::*;

use crate::config::QueueConfig;
use crate::filter::{
    emit_time, sanitize_spec, FilteredMessage, MessageFilter, RateLimiter,
};
use crate::message::{message_like, NormalizedMessage};

verus! {

/// What one offer to the queue came to.
#[derive(Debug, Clone, Copy, PartialEq, Eq, Structural)]
pub enum EnqueueOutcome {
    /// The message was appended; the value is how long the caller must
    /// still hold off before the scheduled emission.
    Accepted(u64),
    /// The filter refused the message: a normal outcome, drop it for good.
    Rejected,
    /// The queue is at capacity: hold the message and offer it again once
    /// the consumer has drained — producers block rather than drop.
    Full,
    /// The receiving side was shut down; nothing will be drained again.
    Closed,
}

/// A fixed-capacity queue of filtered messages, paced by a rate limiter.
///
/// Producers offer normalized messages; the dispatcher drains them in
/// arrival order. A full queue answers `Full`, and the producer waits and
/// offers the message again: backpressure, never a silent drop.
pub struct MessageQueue {
    filter: MessageFilter,
    limiter: RateLimiter,
    buf: Vec<FilteredMessage>,
    capacity: usize,
    closed: bool,
}

impl MessageQueue {
    pub closed spec fn spec_contents(self) -> Seq<FilteredMessage> {
        self.buf@
    }

    pub closed spec fn spec_capacity(self) -> usize {
        self.capacity
    }

    pub closed spec fn spec_closed(self) -> bool {
        self.closed
    }

    pub closed spec fn spec_filter(self) -> MessageFilter {
        self.filter
    }

    pub closed spec fn spec_limiter(self) -> RateLimiter {
        self.limiter
    }

    /// An empty, open queue with the configured capacity and pacing.
    pub fn new(filter: MessageFilter, config: &QueueConfig) -> (r: Self)
        ensures
            r.spec_contents() == Seq::<FilteredMessage>::empty(),
            r.spec_capacity() == config.capacity,
            !r.spec_closed(),
            r.spec_filter() == filter,
            r.spec_limiter().spec_last_emit() is None,
            r.spec_limiter().spec_interval() == (if config.min_interval_ms == 0 {
                1000u64
            } else {
                config.min_interval_ms
            }),
    {
        MessageQueue {
            filter,
            limiter: RateLimiter::new(config.min_interval_ms),
            buf: Vec::new(),
            capacity: config.capacity,
            closed: false,
        }
    }

    pub fn len(&self) -> (r: usize)
        ensures
            r == self.spec_contents().len(),
    {
        self.buf.len()
    }

    pub fn capacity(&self) -> (r: usize)
        ensures
            r == self.spec_capacity(),
    {
        self.capacity
    }

    /// Shuts the receiving side; later offers are refused.
    pub fn close(&mut self)
        ensures
            final (self).spec_closed(),
            final (self).spec_contents() == old(self).spec_contents(),
            final (self).spec_capacity() == old(self).spec_capacity(),
            final (self).spec_filter() == old(self).spec_filter(),
            final (self).spec_limiter() == old(self).spec_limiter(),
    {
        self.closed = true;
    }

    /// Offers one message at time `now_ms`. A message the filter passes is
    /// never silently dropped by an open queue: at capacity the caller is
    /// told `Full` and is expected to wait for the consumer and offer the
    /// message again — that is the backpressure; only a shut receiving side
    /// refuses it for good. `Accepted` carries how long the caller must
    /// still hold off before the emission it was scheduled for.
    pub fn enqueue(&mut self, message: &NormalizedMessage, now_ms: u64) -> (r: EnqueueOutcome)
        ensures
            final (self).spec_capacity() == old(self).spec_capacity(),
            final (self).spec_closed() == old(self).spec_closed(),
            final (self).spec_filter() == old(self).spec_filter(),
            ({
                let verdict = sanitize_spec(old(self).spec_filter().spec_config(), message.content);
                match r {
                    EnqueueOutcome::Rejected => verdict is None && final (self).spec_contents()
                        == old(self).spec_contents() && final (self).spec_limiter() == old(
                        self,
                    ).spec_limiter(),
                    EnqueueOutcome::Closed => verdict is Some && old(self).spec_closed() && final (
                    self).spec_contents() == old(self).spec_contents() && final (
                    self).spec_limiter() == old(self).spec_limiter(),
                    EnqueueOutcome::Full => verdict is Some && !old(self).spec_closed() && old(
                        self,
                    ).spec_contents().len() >= old(self).spec_capacity() && final (
                    self).spec_contents() == old(self).spec_contents() && final (
                    self).spec_limiter() == old(self).spec_limiter(),
                    EnqueueOutcome::Accepted(wait) => verdict is Some && !old(self).spec_closed()
                        && old(self).spec_contents().len() < old(self).spec_capacity() && final (
                    self).spec_contents().len() == old(self).spec_contents().len() + 1 && final (
                    self).spec_contents().drop_last() == old(self).spec_contents() && {
                        let f = final (self).spec_contents().last();
                        &&& f.sanitized_text@ == verdict.unwrap()
                        &&& message_like(f.source, *message)
                        &&& final (self).spec_limiter().spec_last_emit() == Some(
                            emit_time(
                                old(self).spec_limiter().spec_last_emit(),
                                old(self).spec_limiter().spec_interval(),
                                now_ms,
                            ),
                        )
                        &&& final (self).spec_limiter().spec_interval() == old(
                            self,
                        ).spec_limiter().spec_interval()
                        &&& wait == emit_time(
                            old(self).spec_limiter().spec_last_emit(),
                            old(self).spec_limiter().spec_interval(),
                            now_ms,
                        ) - now_ms
                    },
                }
            }),
    {
        let filtered = match self.filter.sanitize(message) {
            Some(f) => f,
            None => {
                return EnqueueOutcome::Rejected;
            },
        };
        if self.closed {
            return EnqueueOutcome::Closed;
        }
        if self.buf.len() >= self.capacity {
            return EnqueueOutcome::Full;
        }
        let wait = self.limiter.throttle_wait(now_ms);
        let ghost old_buf = self.buf@;
        self.buf.push(filtered);
        proof {
            assert(self.buf@.drop_last() =~= old_buf);
        }
        EnqueueOutcome::Accepted(wait)
    }

    /// Takes the oldest queued message, if any: the dispatcher's side.
    pub fn recv(&mut self) -> (r: Option<FilteredMessage>)
        ensures
            final (self).spec_capacity() == old(self).spec_capacity(),
            final (self).spec_closed() == old(self).spec_closed(),
            final (self).spec_filter() == old(self).spec_filter(),
            final (self).spec_limiter() == old(self).spec_limiter(),
            match r {
                Some(f) => old(self).spec_contents().len() > 0 && f == old(
                    self,
                ).spec_contents().first() && final (self).spec_contents() == old(
                    self,
                ).spec_contents().drop_first(),
                None => old(self).spec_contents().len() == 0 && final (self).spec_contents()
                    == old(self).spec_contents(),
            },
    {
        if self.buf.len() == 0 {
            return None;
        }
        let f = self.buf.remove(0);
        proof {
            assert(self.buf@ =~= old(self).buf@.drop_first());
        }
        Some(f)
    }
}

} // verus!
