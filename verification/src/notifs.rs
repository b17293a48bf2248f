//! The decisions of the authenticator daemon's monitor of pending authorisation
//! requests: which requests time out, which are to be notified, and what the
//! notified subscribers' replies amount to. The daemon's loop sends the
//! notifications and keeps the lists; it asks these functions what to do.
use vstd::prelude::*;

use crate::text::{has_prefix, owned, push_decimal, push_str, decimal, str_starts_with};

verus! {

/// How often, in milliseconds, the pending requests are checked.
pub const AUTH_REQS_CHECK_FREQ: u64 = 1000;

/// How long, in milliseconds, a request may stay pending.
pub const AUTH_REQS_TIMEOUT: u64 = 3 * 60000;

/// What becomes of a pending request in a round of the monitor.
#[derive(Debug, Clone, Copy, PartialEq, Eq, Structural)]
pub enum PendingReqAction {
    /// It timed out (or its age could not be told): it leaves the list.
    Remove,
    /// Its subscribers were notified already.
    Skip,
    /// Its subscribers are to be notified.
    Notify,
}

/// Whether a request received `elapsed_ms` milliseconds ago has timed out; a
/// request whose age could not be told (`None`) counts as timed out.
pub open spec fn is_timeout(elapsed_ms: Option<u64>) -> bool {
    match elapsed_ms {
        None => true,
        Some(e) => e >= AUTH_REQS_TIMEOUT,
    }
}

/// What becomes of a pending request, given its age and whether it was notified.
pub fn pending_req_action(elapsed_ms: Option<u64>, notified: bool) -> (res: PendingReqAction)
    ensures
        res == (if is_timeout(elapsed_ms) {
            PendingReqAction::Remove
        } else if notified {
            PendingReqAction::Skip
        } else {
            PendingReqAction::Notify
        }),
{
    let timed_out = match elapsed_ms {
        None => true,
        Some(e) => e >= AUTH_REQS_TIMEOUT,
    };
    if timed_out {
        PendingReqAction::Remove
    } else if notified {
        PendingReqAction::Skip
    } else {
        PendingReqAction::Notify
    }
}

/// The URL a subscriber is notified at about a request: its endpoint, the
/// requesting application's id and the request's id, separated by `/`.
pub fn notification_url(url: &str, app_id: &str, req_id: u32) -> (res: String)
    ensures
        res@ == url@ + "/"@ + app_id@ + "/"@ + decimal(req_id as nat),
{
    let mut res = owned(url);
    push_str(&mut res, "/");
    push_str(&mut res, app_id);
    push_str(&mut res, "/");
    push_decimal(&mut res, req_id as u64);
    res
}

/// What a subscriber's reply to a notification amounts to: `None` when it did not
/// reply (it is then unsubscribed); otherwise the decision it took, if its reply
/// starts with `true` or `false`.
pub open spec fn reply_outcome(reply: Option<Seq<char>>) -> Option<Option<bool>> {
    match reply {
        None => None,
        Some(r) => Some(
            if has_prefix(r, "true"@) {
                Some(true)
            } else if has_prefix(r, "false"@) {
                Some(false)
            } else {
                None
            },
        ),
    }
}

/// What a subscriber's reply amounts to (see `reply_outcome`).
pub fn notification_response(reply: Result<String, String>) -> (res: Option<Option<bool>>)
    ensures
        res == reply_outcome(
            match reply {
                Ok(r) => Some(r@),
                Err(_) => None,
            },
        ),
{
    match reply {
        Ok(notif_resp) => {
            if str_starts_with(notif_resp.as_str(), "true") {
                Some(Some(true))
            } else if str_starts_with(notif_resp.as_str(), "false") {
                Some(Some(false))
            } else {
                Some(None)
            }
        },
        Err(_) => None,
    }
}

/// What to do after a subscriber's reply.
#[derive(Debug, Clone, Copy, PartialEq, Eq, Structural)]
pub enum NotifyStep {
    /// The subscriber did not reply: unsubscribe it, and notify the next one.
    Unsubscribe,
    /// The subscriber replied without deciding: notify the next one.
    Next,
    /// The subscriber decided: notify no one else.
    Stop,
}

/// The notification of a request to its subscribers, one after the other: whether
/// a subscriber replied, and the decision taken, if any.
#[derive(Debug, Clone, Copy, PartialEq, Eq, Structural)]
pub struct NotifyRound {
    pub response: Option<bool>,
    pub notified: bool,
}

/// The state of a notification round after the replies given, in order, up to the
/// first decision.
pub open spec fn round_after(replies: Seq<Option<Option<bool>>>) -> NotifyRound
    decreases replies.len(),
{
    if replies.len() == 0 {
        NotifyRound { response: None, notified: false }
    } else {
        let before = round_after(replies.drop_last());
        if before.response is Some {
            before
        } else {
            match replies.last() {
                None => before,
                Some(r) => NotifyRound { response: r, notified: true },
            }
        }
    }
}

impl NotifyRound {
    /// A round before any notification.
    pub fn new() -> (res: NotifyRound)
        ensures
            res == round_after(Seq::empty()),
    {
        NotifyRound { response: None, notified: false }
    }

    /// Records a subscriber's reply (see `reply_outcome`) and says what to do next.
    pub fn record_reply(&mut self, reply: Option<Option<bool>>) -> (res: NotifyStep)
        requires
            old(self).response is None,
        ensures
            match reply {
                None => res == NotifyStep::Unsubscribe && *final(self) == *old(self),
                Some(None) => res == NotifyStep::Next && *final(self) == (NotifyRound {
                    response: None,
                    notified: true,
                }),
                Some(Some(d)) => res == NotifyStep::Stop && *final(self) == (NotifyRound {
                    response: Some(d),
                    notified: true,
                }),
            },
    {
        match reply {
            None => NotifyStep::Unsubscribe,
            Some(resp) => {
                self.notified = true;
                match resp {
                    Some(d) => {
                        self.response = Some(d);
                        NotifyStep::Stop
                    },
                    None => NotifyStep::Next,
                }
            },
        }
    }
}

/// Recording the replies one after the other, up to the first decision, gives the
/// round that `round_after` describes: a subscriber that replied makes the request
/// notified, and the first decision is the request's decision.
pub proof fn lemma_round_records_replies(replies: Seq<Option<Option<bool>>>, r: Option<Option<bool>>)
    requires
        round_after(replies).response is None,
    ensures
        round_after(replies.push(r)) == (match r {
            None => round_after(replies),
            Some(resp) => NotifyRound { response: resp, notified: true },
        }),
{
    assert(replies.push(r).drop_last() =~= replies);
}

} // verus!
