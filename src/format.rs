//! Turns a message into a bounded notification payload.
use vstd::prelude::*;
use vstd::string::*;
use crate::message::Message;

verus! {

/// Preview length used when the configuration gives none.
pub const DEFAULT_PREVIEW_LEN: usize = 500;

/// What the gateway receives for one message.
#[derive(Clone, Debug)]
pub struct NotificationPayload {
    pub sender: String,
    pub subject: String,
    pub timestamp: u64,
    pub preview: String,
}

/// The body shown in a notification: the first `max` characters, or the
/// whole body when it is no longer than that; no marker is appended.
pub open spec fn preview_of(body: Seq<char>, max: nat) -> Seq<char> {
    if body.len() <= max {
        body
    } else {
        body.subrange(0, max as int)
    }
}

/// Builds the payload for `m`, cutting its body to at most `max_preview`
/// characters (whole characters, never part of one).
pub fn format_message(m: &Message, max_preview: usize) -> (r: NotificationPayload)
    ensures
        r.sender@ == m.sender@,
        r.subject@ == m.subject@,
        r.timestamp == m.timestamp,
        r.preview@ == preview_of(m.body@, max_preview as nat),
{
    let body: &str = m.body.as_str();
    let n = body.unicode_len();
    let cut = if n <= max_preview {
        n
    } else {
        max_preview
    };
    let preview = body.substring_char(0, cut).to_owned();
    assert(body@.subrange(0, body@.len() as int) =~= body@);
    NotificationPayload {
        sender: m.sender.clone(),
        subject: m.subject.clone(),
        timestamp: m.timestamp,
        preview,
    }
}

/// A preview never runs past the limit, and a body within the limit is
/// kept whole and unchanged.
pub proof fn lemma_preview_bounds(body: Seq<char>, max: nat)
    ensures
        body.len() > max ==> preview_of(body, max).len() == max && preview_of(body, max)
            == body.subrange(0, max as int),
        body.len() <= max ==> preview_of(body, max) == body,
{
}

} // verus!
