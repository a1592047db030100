//! The file-watch reconciler: filters raw filesystem notifications down to
//! modification events on the tracked record file, and debounces the reload
//! they ask for. Also the keyboard dispatcher, which turns one key into a
//! state transition and an action for the surrounding loop.
use vstd::prelude::*;
use crate::text::str_eq;
use crate::nav::AppState;
use crate::nav::UiAction;
use crate::nav::nav_post;

verus! {

/// The debounce window between two performed reloads, in milliseconds.
pub const DEBOUNCE_MS: u64 = 200;

/// The kind of a filesystem notification, as far as the reconciler cares:
/// content modifications trigger reloads, everything else is ignored.
#[derive(Clone, Copy, Debug, PartialEq, Eq, Structural)]
pub enum WatchEventKind {
    Modify,
    Other,
}

/// One filesystem notification, reduced to the file name it concerns and
/// its kind.
pub struct WatchEvent {
    pub name: String,
    pub kind: WatchEventKind,
}

/// Whether an event asks for a reload of the tracked file.
pub open spec fn relevant(e: &WatchEvent, file_name: Seq<char>) -> bool {
    e.name@ == file_name && e.kind is Modify
}

/// Whether any event of the batch asks for a reload.
pub open spec fn any_relevant(evs: Seq<WatchEvent>, file_name: Seq<char>) -> bool {
    exists|i: int| 0 <= i < evs.len() && relevant(&evs[i], file_name)
}

/// Whether a pending reload may be performed now.
pub open spec fn debounce_elapsed(last: Option<u64>, now_ms: u64) -> bool {
    match last {
        Some(t) => now_ms >= t + DEBOUNCE_MS,
        None => true,
    }
}

/// The debounced reconciler: remembers when the last reload was performed
/// and whether one is still owed.
pub struct EventHandler {
    pub last_reload_time: Option<u64>,
    pub pending: bool,
}

impl EventHandler {
    /// A fresh reconciler: nothing pending, no reload performed yet.
    pub fn new() -> (r: Self)
        ensures
            r.last_reload_time is None,
            !r.pending,
    {
        EventHandler { last_reload_time: None, pending: false }
    }

    /// Drains one batch of notifications and says whether to reload now.
    /// Modification events on the tracked file flag a reload; the reload is
    /// performed only when the debounce window has passed since the last
    /// one, and is otherwise deferred to a later tick.
    pub fn handle_file_watcher_events(
        &mut self,
        events: &Vec<WatchEvent>,
        file_name: &str,
        now_ms: u64,
    ) -> (reload: bool)
        ensures
            reload == ((old(self).pending || any_relevant(events@, file_name@))
                && debounce_elapsed(old(self).last_reload_time, now_ms)),
            final(self).pending == ((old(self).pending || any_relevant(events@, file_name@))
                && !reload),
            final(self).last_reload_time == if reload {
                Some(now_ms)
            } else {
                old(self).last_reload_time
            },
    {
        let mut saw = false;
        let mut i: usize = 0;
        while i < events.len()
            invariant
                i <= events@.len(),
                saw == exists|k: int| 0 <= k < i && relevant(&events@[k], file_name@),
            decreases events@.len() - i,
        {
            let e = &events[i];
            let is_modify = match e.kind {
                WatchEventKind::Modify => true,
                WatchEventKind::Other => false,
            };
            if is_modify && str_eq(e.name.as_str(), file_name) {
                proof {
                    assert(relevant(&events@[i as int], file_name@));
                }
                saw = true;
            }
            proof {
                if saw && !(exists|k: int| 0 <= k < i && relevant(&events@[k], file_name@)) {
                    assert(relevant(&events@[i as int], file_name@));
                }
            }
            i = i + 1;
        }
        proof {
            assert(saw == any_relevant(events@, file_name@));
        }
        let pending_now = self.pending || saw;
        let elapsed = match self.last_reload_time {
            Some(t) => t <= now_ms && now_ms - t >= DEBOUNCE_MS,
            None => true,
        };
        if pending_now && elapsed {
            self.last_reload_time = Some(now_ms);
            self.pending = false;
            true
        } else {
            self.pending = pending_now;
            false
        }
    }
}

impl EventHandler {
    /// Dispatches one key: `q` quits; `k j h l` navigate; `x` asks to
    /// complete the selected record; `r` asks for a manual reload; `s` asks
    /// to switch to the selected session's pane while on the monitor
    /// column. Everything else is ignored.
    pub fn handle_keyboard_event(
        &self,
        key: Option<char>,
        state: &mut AppState,
        sessions_len: usize,
    ) -> (r: (bool, UiAction))
        requires
            old(state).wf(),
        ensures
            final(state).wf(),
            match key {
                Some(c) => {
                    if c == 'q' {
                        r.0 && *final(state) == *old(state) && r.1 is Nothing
                    } else if c == 'k' || c == 'j' || c == 'h' || c == 'l' {
                        !r.0 && nav_post(*old(state), *final(state), c, sessions_len, r.1)
                    } else if c == 'x' {
                        !r.0 && *final(state) == *old(state) && r.1 is Complete
                    } else if c == 'r' {
                        !r.0 && *final(state) == *old(state) && r.1 is Reload
                    } else if c == 's' {
                        !r.0 && *final(state) == *old(state) && (if old(state).on_monitor() {
                            r.1 is SwitchPane
                        } else {
                            r.1 is Nothing
                        })
                    } else {
                        !r.0 && *final(state) == *old(state) && r.1 is Nothing
                    }
                },
                None => !r.0 && *final(state) == *old(state) && r.1 is Nothing,
            },
    {
        match key {
            Some(c) => {
                if c == 'q' {
                    (true, UiAction::Nothing)
                } else if c == 'k' || c == 'j' || c == 'h' || c == 'l' {
                    let a = state.handle_navigation_key(c, sessions_len);
                    (false, a)
                } else if c == 'x' {
                    (false, UiAction::Complete)
                } else if c == 'r' {
                    (false, UiAction::Reload)
                } else if c == 's' {
                    if state.is_on_claude_column() {
                        (false, UiAction::SwitchPane)
                    } else {
                        (false, UiAction::Nothing)
                    }
                } else {
                    (false, UiAction::Nothing)
                }
            },
            None => (false, UiAction::Nothing),
        }
    }
}

/// DEBOUNCE: starting fresh, a modification event triggers a reload at
/// once; a second one inside the debounce window does not trigger another
/// reload on its tick, while one a full window later does.
pub proof fn lemma_debounce(t1: u64, t2: u64)
    requires
        t1 <= t2,
    ensures
        debounce_elapsed(None, t1),
        t2 < t1 + DEBOUNCE_MS ==> !debounce_elapsed(Some(t1), t2),
        t2 >= t1 + DEBOUNCE_MS ==> debounce_elapsed(Some(t1), t2),
{
}

} // verus!
