//! The decisions of the Copilot device sign-in: how long to wait between
//! polls for the access token, and what each poll's answer means.

use vstd::prelude::*;
use crate::text::{push_str, str_eq};
use crate::editor::{Editor, MessageKind};
use crate::hunks::only_status;

verus! {

/// What one poll for the access token gave.
pub enum PollReply {
    /// The request failed or its answer could not be read: poll again.
    Unreadable,
    /// The answer, with its `error` and `access_token` fields.
    Answer { error: Option<String>, access_token: Option<String> },
}

/// What to do after a poll.
pub enum PollStep {
    /// Wait this many seconds, then poll again.
    Wait(u64),
    /// Stop: the access token, or the message for the failure.
    Done(Result<String, String>),
}

/// Seconds to wait before the first poll: what the device-code answer
/// asks, but at least 5.
pub fn first_poll_interval(asked: u64) -> (s: u64)
    ensures
        s == if asked < 5 { 5 } else { asked },
{
    if asked < 5 {
        5
    } else {
        asked
    }
}

/// The step after a poll made `interval` seconds after the last one:
/// past the deadline the sign-in times out; an unreadable answer or
/// `authorization_pending` polls again after the same wait, `slow_down`
/// after 5 more seconds; another error fails; a token succeeds.
pub fn poll_step(interval: u64, timed_out: bool, reply: PollReply) -> (r: PollStep)
    requires
        !timed_out ==> match reply {
            PollReply::Answer { error: Some(e), .. } => e@ == "slow_down"@ ==> interval + 5 <= u64::MAX,
            _ => true,
        },
    ensures
        timed_out ==> (r matches PollStep::Done(Err(m)) && m@ == "Copilot auth timed out"@),
        !timed_out ==> match reply {
            PollReply::Unreadable => r == PollStep::Wait(interval),
            PollReply::Answer { error: Some(e), .. } => if e@ == "authorization_pending"@ {
                r == PollStep::Wait(interval)
            } else if e@ == "slow_down"@ {
                r == PollStep::Wait((interval + 5) as u64)
            } else {
                (r matches PollStep::Done(Err(m)) && m@ == "Auth error: "@ + e@)
            },
            PollReply::Answer { error: None, access_token: Some(t) } => (r matches PollStep::Done(Ok(x)) && x@ == t@),
            PollReply::Answer { error: None, access_token: None } => (r matches PollStep::Done(Err(m)) && m@
                == "No token received"@),
        },
{
    if timed_out {
        return PollStep::Done(Err(String::from_str("Copilot auth timed out")));
    }
    match reply {
        PollReply::Unreadable => PollStep::Wait(interval),
        PollReply::Answer { error: Some(e), access_token: _ } => {
            if str_eq(e.as_str(), "authorization_pending") {
                PollStep::Wait(interval)
            } else if str_eq(e.as_str(), "slow_down") {
                PollStep::Wait(interval + 5)
            } else {
                let mut m = String::from_str("Auth error: ");
                push_str(&mut m, e.as_str());
                PollStep::Done(Err(m))
            }
        },
        PollReply::Answer { error: None, access_token: Some(t) } => PollStep::Done(Ok(t)),
        PollReply::Answer { error: None, access_token: None } => PollStep::Done(
            Err(String::from_str("No token received")),
        ),
    }
}

impl Editor {
    /// `:CopilotAuth`: start the device sign-in only when Copilot is
    /// enabled and no sign-in is already running; the status line says
    /// which.  Whether to start comes back; the caller runs the sign-in.
    pub fn copilot_auth_start(&mut self, enabled: bool, in_progress: bool) -> (start: bool)
        ensures
            start == (enabled && !in_progress),
            !enabled ==> only_status(
                *old(self),
                *final(self),
                "Copilot is disabled. Set copilot_enabled: true in config."@,
                MessageKind::Error,
            ),
            enabled && in_progress ==> only_status(
                *old(self),
                *final(self),
                "Copilot auth already in progress..."@,
                MessageKind::Info,
            ),
            start ==> only_status(*old(self), *final(self), "Requesting Copilot device code..."@, MessageKind::Info),
    {
        if !enabled {
            self.set_status_msg("Copilot is disabled. Set copilot_enabled: true in config.", MessageKind::Error);
            return false;
        }
        if in_progress {
            self.set_status_msg("Copilot auth already in progress...", MessageKind::Info);
            return false;
        }
        self.set_status_msg("Requesting Copilot device code...", MessageKind::Info);
        true
    }
}

} // verus!
