//! What the `note` and `battery` commands report back.
use vstd::prelude::*;
use crate::storage::{BatteryOutcome, NoteOutcome, SpanBoundary};
use crate::text::{decimal, from_chars, push_decimal, push_str};

verus! {

/// `Added <start|end> note to <active|latest> span for <address>`.
pub fn note_message(outcome: &NoteOutcome, boundary: SpanBoundary) -> (r: String)
    ensures
        r@ == match outcome {
            NoteOutcome::ActiveSpan(a) => "Added "@ + boundary.spec_label()
                + " note to active span for "@ + a@,
            NoteOutcome::LatestSpan(a) => "Added "@ + boundary.spec_label()
                + " note to latest span for "@ + a@,
        },
{
    proof {
        reveal_strlit("Added ");
        reveal_strlit(" note to active span for ");
        reveal_strlit(" note to latest span for ");
    }
    let mut out: Vec<char> = Vec::new();
    push_str(&mut out, "Added ");
    push_str(&mut out, boundary.label());
    match outcome {
        NoteOutcome::ActiveSpan(a) => {
            push_str(&mut out, " note to active span for ");
            push_str(&mut out, a.as_str());
        },
        NoteOutcome::LatestSpan(a) => {
            push_str(&mut out, " note to latest span for ");
            push_str(&mut out, a.as_str());
        },
    }
    from_chars(out.as_slice())
}

/// `Recorded <p>% for <address> at <time> on the <active span|latest completed span>`.
pub fn battery_message(outcome: &BatteryOutcome, percentage: u8, time: &str) -> (r: String)
    ensures
        r@ == match outcome {
            BatteryOutcome::ActiveSpan(a) => "Recorded "@ + decimal(percentage as nat) + "% for "@
                + a@ + " at "@ + time@ + " on the active span"@,
            BatteryOutcome::LatestSpan(a) => "Recorded "@ + decimal(percentage as nat) + "% for "@
                + a@ + " at "@ + time@ + " on the latest completed span"@,
        },
{
    proof {
        reveal_strlit("Recorded ");
        reveal_strlit("% for ");
        reveal_strlit(" at ");
        reveal_strlit(" on the active span");
        reveal_strlit(" on the latest completed span");
    }
    let mut out: Vec<char> = Vec::new();
    push_str(&mut out, "Recorded ");
    push_decimal(&mut out, percentage as u64);
    push_str(&mut out, "% for ");
    match outcome {
        BatteryOutcome::ActiveSpan(a) => {
            push_str(&mut out, a.as_str());
            push_str(&mut out, " at ");
            push_str(&mut out, time);
            push_str(&mut out, " on the active span");
        },
        BatteryOutcome::LatestSpan(a) => {
            push_str(&mut out, a.as_str());
            push_str(&mut out, " at ");
            push_str(&mut out, time);
            push_str(&mut out, " on the latest completed span");
        },
    }
    from_chars(out.as_slice())
}

} // verus!
