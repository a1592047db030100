//! The live-preview sub-state machine: inactive, or active with a channel
//! handle and the time of the last push. Auto-pushes are throttled; pushes
//! driven by row changes bypass the throttle.
use vstd::prelude::*;

verus! {

/// The reported status of a monitored session.
#[derive(Clone, Copy, Debug, PartialEq, Eq, Structural)]
pub enum SessionStatus {
    Working,
    WaitingForApproval,
    Idle,
}

/// The minimum interval between two automatic preview pushes, in
/// milliseconds.
pub const AUTO_PUSH_INTERVAL_MS: u64 = 2000;

/// The preview sub-state.
#[derive(Clone, Copy, Debug, PartialEq, Eq, Structural)]
pub enum Preview {
    Inactive,
    Active { channel: u64, last_push: Option<u64> },
}

/// Whether an automatic push is due: only while active, only for a session
/// that is actively working, and only when the last push is at least the
/// minimum interval past, or none has happened yet.
pub open spec fn should_auto_push(p: Preview, status: SessionStatus, now_ms: u64) -> bool {
    &&& p is Active
    &&& status is Working
    &&& match p {
        Preview::Active { channel, last_push } => match last_push {
            Some(lp) => now_ms >= lp + AUTO_PUSH_INTERVAL_MS,
            None => true,
        },
        Preview::Inactive => false,
    }
}

/// The state after one polling tick.
pub open spec fn tick_next(p: Preview, status: SessionStatus, now_ms: u64) -> Preview {
    if should_auto_push(p, status, now_ms) {
        Preview::Active { channel: p->Active_channel, last_push: Some(now_ms) }
    } else {
        p
    }
}

impl Preview {
    /// Enters the active state with a fresh channel and no push yet.
    pub fn activate(&mut self, channel: u64)
        ensures
            *final(self) == (Preview::Active { channel, last_push: None }),
    {
        *self = Preview::Active { channel, last_push: None };
    }

    /// Leaves the preview: the channel handle is discarded.
    pub fn deactivate(&mut self)
        ensures
            *final(self) == Preview::Inactive,
    {
        *self = Preview::Inactive;
    }

    /// The channel handle, while active.
    pub fn channel(&self) -> (r: Option<u64>)
        ensures
            match *self {
                Preview::Active { channel, .. } => r == Some(channel),
                Preview::Inactive => r is None,
            },
    {
        match self {
            Preview::Active { channel, .. } => Some(*channel),
            Preview::Inactive => None,
        }
    }

    /// Records a successful push at the given time; a no-op while inactive.
    pub fn note_push(&mut self, now_ms: u64)
        ensures
            *final(self) == (match *old(self) {
                Preview::Active { channel, .. } => Preview::Active {
                    channel,
                    last_push: Some(now_ms),
                },
                Preview::Inactive => Preview::Inactive,
            }),
    {
        match self {
            Preview::Active { channel, .. } => {
                let c = *channel;
                *self = Preview::Active { channel: c, last_push: Some(now_ms) };
            },
            Preview::Inactive => {},
        }
    }

    /// One polling tick: reports whether an automatic push is due and, if
    /// so, records it.
    pub fn tick(&mut self, status: SessionStatus, now_ms: u64) -> (push: bool)
        ensures
            push == should_auto_push(*old(self), status, now_ms),
            *final(self) == tick_next(*old(self), status, now_ms),
    {
        let due = match self {
            Preview::Active { channel: _, last_push } => {
                match status {
                    SessionStatus::Working => match last_push {
                        Some(lp) => *lp <= now_ms && now_ms - *lp >= AUTO_PUSH_INTERVAL_MS,
                        None => true,
                    },
                    _ => false,
                }
            },
            Preview::Inactive => false,
        };
        if due {
            self.note_push(now_ms);
        }
        due
    }
}

/// PREVIEW THROTTLE: two automatic ticks for a working session closer
/// together than the minimum interval produce exactly one push, and ticks
/// for a session that is not working produce none.
pub proof fn lemma_preview_throttle(p: Preview, t1: u64, t2: u64, status: SessionStatus)
    requires
        t1 <= t2,
        t2 < t1 + AUTO_PUSH_INTERVAL_MS,
    ensures
        should_auto_push(p, status, t1) ==> !should_auto_push(
            tick_next(p, status, t1),
            status,
            t2,
        ),
        !(status is Working) ==> !should_auto_push(p, status, t1) && !should_auto_push(
            tick_next(p, status, t1),
            status,
            t2,
        ),
{
}

} // verus!
