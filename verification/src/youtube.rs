//! The YouTube live-chat shapes, and their mapping onto the normalized
//! message model. Fetching and decoding the service's JSON stays with the
//! surrounding program; this module owns the logic on the decoded values.

use vstd::prelude::*;

use crate::message::{
    MessageContent, Metadata, MetaValue, NormalizedMessage, PaymentInfo, Platform, Priority,
};

verus! {

/// A page of live chat messages.
#[derive(Debug, Clone)]
pub struct LiveChatMessagesResponse {
    pub items: Vec<LiveChatMessageItem>,
    pub next_page_token: Option<String>,
    pub polling_interval_millis: Option<u64>,
}

/// One live chat message.
#[derive(Debug, Clone)]
pub struct LiveChatMessageItem {
    pub id: String,
    pub snippet: LiveChatSnippet,
    pub author_details: AuthorDetails,
}

/// The message body, its chat and publication time in Unix milliseconds.
#[derive(Debug, Clone)]
pub struct LiveChatSnippet {
    pub live_chat_id: String,
    pub published_at_ms: i64,
    pub display_message: String,
    pub super_chat_details: Option<SuperChatDetails>,
}

/// A paid message's amount.
#[derive(Debug, Clone)]
pub struct SuperChatDetails {
    pub amount_display_string: String,
    pub amount_micros: Option<u64>,
    pub currency: Option<String>,
}

/// Who wrote the message.
#[derive(Debug, Clone)]
pub struct AuthorDetails {
    pub channel_id: Option<String>,
    pub display_name: String,
    pub is_chat_moderator: Option<bool>,
    pub is_chat_owner: Option<bool>,
    pub is_chat_sponsor: Option<bool>,
}

/// Moderators and owners outrank paid messages, which outrank the rest.
pub open spec fn yt_priority_of(item: LiveChatMessageItem) -> Priority {
    if item.author_details.is_chat_moderator == Some(true) || item.author_details.is_chat_owner
        == Some(true) {
        Priority::Moderator
    } else if (match item.snippet.super_chat_details {
        Some(d) => (match d.amount_micros {
            Some(m) => m,
            None => 0u64,
        }),
        None => 0u64,
    }) > 0 {
        Priority::Paid
    } else {
        Priority::Normal
    }
}

impl LiveChatMessageItem {
    /// The platform-agnostic form: channel is the live chat, the priority
    /// derives from role and paid amount, the paid details ride along as
    /// metadata, and the timestamp is the publication time.
    pub fn to_normalized(&self) -> (r: NormalizedMessage)
        ensures
            r.platform == Platform::YouTube,
            r.channel@ == self.snippet.live_chat_id@,
            crate::message::opt_string_like(r.user_id, self.author_details.channel_id),
            r.username@ == self.author_details.display_name@,
            r.priority == yt_priority_of(*self),
            r.content matches MessageContent::Text(t) && t@ == self.snippet.display_message@,
            r.timestamp_ms == self.snippet.published_at_ms,
            r.metadata.entries@.len() == 1 && r.metadata.entries@[0].0@ == "super_chat"@ && (
            match self.snippet.super_chat_details {
                Some(d) => r.metadata.entries@[0].1 matches MetaValue::Payment(p)
                    && p.amount_display@ == d.amount_display_string@ && p.amount_micros
                    == d.amount_micros && crate::message::opt_string_like(p.currency, d.currency),
                None => r.metadata.entries@[0].1 is Absent,
            }),
    {
        let mut priority = Priority::Normal;
        let paid: u64 = match &self.snippet.super_chat_details {
            Some(d) => match d.amount_micros {
                Some(m) => m,
                None => 0,
            },
            None => 0,
        };
        if paid > 0 {
            priority = Priority::Paid;
        }
        let moderator = match self.author_details.is_chat_moderator {
            Some(b) => b,
            None => false,
        };
        let owner = match self.author_details.is_chat_owner {
            Some(b) => b,
            None => false,
        };
        if moderator || owner {
            priority = Priority::Moderator;
        }
        let mut metadata = Metadata::new();
        let value: MetaValue = match &self.snippet.super_chat_details {
            Some(d) => MetaValue::Payment(
                PaymentInfo {
                    amount_display: d.amount_display_string.clone(),
                    amount_micros: d.amount_micros,
                    currency: match &d.currency {
                        Some(c) => Some(c.clone()),
                        None => None,
                    },
                },
            ),
            None => MetaValue::Absent,
        };
        metadata.push(String::from_str("super_chat"), value);
        let user_id: Option<String> = match &self.author_details.channel_id {
            Some(u) => Some(u.clone()),
            None => None,
        };
        let mut r = NormalizedMessage::new_text(
            Platform::YouTube,
            self.snippet.live_chat_id.clone(),
            user_id,
            self.author_details.display_name.clone(),
            priority,
            self.snippet.display_message.clone(),
            metadata,
        );
        r.timestamp_ms = self.snippet.published_at_ms;
        r
    }
}

} // verus!
