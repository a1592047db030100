//! Text the interface shows for monitored sessions: elapsed time in the
//! coarsest fitting unit, and a label for each session status.
use vstd::prelude::*;
use vstd::string::*;
use crate::text::dec_str;
use crate::text::u64_to_string;
use crate::preview::SessionStatus;

verus! {

/// The elapsed-time text: whole seconds under a minute, whole minutes under
/// an hour, whole hours beyond.
pub open spec fn elapsed_text(secs: u64) -> Seq<char> {
    if secs < 60 {
        dec_str(secs as nat) + seq!['s']
    } else if secs < 3600 {
        dec_str((secs / 60) as nat) + seq!['m']
    } else {
        dec_str((secs / 3600) as nat) + seq!['h']
    }
}

/// Renders an elapsed duration, given in whole seconds.
pub fn format_elapsed(secs: u64) -> (r: String)
    ensures
        r@ == elapsed_text(secs),
{
    proof {
        reveal_strlit("s");
        reveal_strlit("m");
        reveal_strlit("h");
        assert("s"@ =~= seq!['s']);
        assert("m"@ =~= seq!['m']);
        assert("h"@ =~= seq!['h']);
    }
    if secs < 60 {
        let mut r = u64_to_string(secs);
        r.append("s");
        r
    } else if secs < 3600 {
        let mut r = u64_to_string(secs / 60);
        r.append("m");
        r
    } else {
        let mut r = u64_to_string(secs / 3600);
        r.append("h");
        r
    }
}

/// The label shown for a session status.
pub fn state_label(state: &SessionStatus) -> (r: &'static str)
    ensures
        match *state {
            SessionStatus::Working => r@ == "Running"@,
            SessionStatus::WaitingForApproval => r@ == "Approval"@,
            SessionStatus::Idle => r@ == "Idle"@,
        },
{
    match state {
        SessionStatus::Working => "Running",
        SessionStatus::WaitingForApproval => "Approval",
        SessionStatus::Idle => "Idle",
    }
}

} // verus!
