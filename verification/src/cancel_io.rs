//! Does `CancelSynchronousIo` return when there is nothing to cancel, and
//! what does it report?
//!
//! The call and its watchdog run outside this library; what the call
//! returned comes back here and is classified.

use vstd::prelude::*;

use crate::text::{dec, push_dec, push_str};

verus! {

/// What one cancellation did.
#[derive(Clone, Copy, Debug, PartialEq, Eq, Structural)]
pub enum CancelOutcome {
    /// The call reported that it cancelled something.
    Cancelled,
    /// The call failed, with this `GetLastError` code.
    NotFound {
        /// The Win32 error.
        code: u32,
    },
    /// The call did not return before the watchdog gave up on it.
    Wedged,
}

impl CancelOutcome {
    /// The call came back at all, whatever it said.
    pub fn returned(self) -> (returned: bool)
        ensures
            returned == !(self is Wedged),
    {
        match self {
            CancelOutcome::Wedged => false,
            _ => true,
        }
    }
}

/// The outcome of a cancellation that returned: `CancelSynchronousIo`'s
/// result, and `GetLastError` as read right after it.
pub fn outcome_of(cancelled: i32, last_error: u32) -> (outcome: CancelOutcome)
    ensures
        outcome == (if cancelled != 0 { CancelOutcome::Cancelled } else { CancelOutcome::NotFound { code: last_error } }),
        outcome.returned_spec(),
{
    if cancelled != 0 {
        CancelOutcome::Cancelled
    } else {
        CancelOutcome::NotFound { code: last_error }
    }
}

impl CancelOutcome {
    /// Whether the outcome is one of a call that came back.
    pub open spec fn returned_spec(self) -> bool {
        !(self is Wedged)
    }
}

/// How long each cancellation may take before it is judged wedged, in
/// seconds.
pub const WATCHDOG_SECONDS: u64 = 5;

/// What a report says one outcome was.
pub open spec fn outcome_text(outcome: CancelOutcome) -> Seq<char> {
    match outcome {
        CancelOutcome::Cancelled => "returned: cancelled an operation"@,
        CancelOutcome::NotFound { code } => "returned: found nothing (error "@ + dec(code as nat) + ")"@,
        CancelOutcome::Wedged => "WEDGED: did not return within "@ + dec(WATCHDOG_SECONDS as nat) + "s"@,
    }
}

/// What a report says one outcome was.
pub fn describe(outcome: CancelOutcome) -> (text: String)
    ensures
        text@ == outcome_text(outcome),
{
    let mut text = String::new();
    match outcome {
        CancelOutcome::Cancelled => push_str(&mut text, "returned: cancelled an operation"),
        CancelOutcome::NotFound { code } => {
            push_str(&mut text, "returned: found nothing (error ");
            push_dec(&mut text, code as u64);
            push_str(&mut text, ")");
        },
        CancelOutcome::Wedged => {
            push_str(&mut text, "WEDGED: did not return within ");
            push_dec(&mut text, WATCHDOG_SECONDS);
            push_str(&mut text, "s");
        },
    }
    proof {
        assert(text@ =~= outcome_text(outcome));
    }
    text
}

/// One line per attempt against the busy thread, numbered from 1.
pub open spec fn attempt_lines(busy: Seq<CancelOutcome>) -> Seq<char>
    decreases busy.len(),
{
    if busy.len() == 0 {
        Seq::empty()
    } else {
        attempt_lines(busy.drop_last()) + "  attempt "@ + dec(busy.len()) + ": "@ + outcome_text(busy.last()) + "\n"@
    }
}

/// Whether any attempt did not return.
pub open spec fn any_wedged(busy: Seq<CancelOutcome>) -> bool {
    exists|i: int| 0 <= i < busy.len() && busy[i] is Wedged
}

/// The conclusion: a wedge is the finding; no wedge does not clear the
/// design.
pub open spec fn conclusion_text(wedged: bool) -> Seq<char> {
    if wedged {
        "  CancelSynchronousIo DID NOT RETURN against a thread that keeps\n  re-entering synchronous I/O. In the proposed mid-flight\n  cancellation design the canceller is a control-plane thread and\n  the target is a shared pool worker -- so a control plane can be\n  wedged by the very thing it is trying to rescue.\n  This is why mid-flight cancellation stays deferred.\n"@
    } else {
        "  every attempt returned on this host and this Windows build.\n  That does NOT clear the design: the original measurement wedged\n  with four identical noninvasive samples over twelve seconds, so\n  a non-wedge here is a timing difference rather than a refutation.\n  Re-run, and vary the hammer loop, before concluding otherwise.\n"@
    }
}

/// The cancellation probe's report, from the idle-thread outcome and each
/// busy-thread attempt's.
pub open spec fn render_text(idle: CancelOutcome, busy: Seq<CancelOutcome>) -> Seq<char> {
    "== is CancelSynchronousIo safe to point at a shared thread? ==\n\n"@ + "watchdog: "@ + dec(
        WATCHDOG_SECONDS as nat,
    ) + "s per attempt\n\n"@ + "case 1: cancel against a thread with no I/O outstanding\n"@ + "  "@
        + outcome_text(idle) + "\n"@
        + "  -> a point-in-time cancel finds nothing here; a standing request\n     against the thread would not.\n"@
        + "\ncase 2: cancel against a thread hammering synchronous reads\n"@ + attempt_lines(busy)
        + "\nconclusion:\n"@ + conclusion_text(any_wedged(busy))
}

/// The cancellation probe's report.
pub fn render(idle: CancelOutcome, busy: &[CancelOutcome]) -> (text: String)
    ensures
        text@ == render_text(idle, busy@),
{
    let mut text = String::new();
    push_str(&mut text, "== is CancelSynchronousIo safe to point at a shared thread? ==\n\n");
    proof {
        assert(text@ =~= "== is CancelSynchronousIo safe to point at a shared thread? ==\n\n"@);
    }
    push_str(&mut text, "watchdog: ");
    push_dec(&mut text, WATCHDOG_SECONDS);
    push_str(&mut text, "s per attempt\n\n");
    push_str(&mut text, "case 1: cancel against a thread with no I/O outstanding\n");
    push_str(&mut text, "  ");
    let idle_text = describe(idle);
    push_str(&mut text, idle_text.as_str());
    push_str(&mut text, "\n");
    push_str(&mut text, "  -> a point-in-time cancel finds nothing here; a standing request\n     against the thread would not.\n");
    push_str(&mut text, "\ncase 2: cancel against a thread hammering synchronous reads\n");
    let mut lines = String::new();
    let mut wedged = false;
    let mut i: usize = 0;
    while i < busy.len()
        invariant
            i <= busy.len(),
            lines@ == attempt_lines(busy@.take(i as int)),
            wedged == any_wedged(busy@.take(i as int)),
        decreases busy.len() - i,
    {
        let outcome = busy[i];
        let ghost before = lines@;
        push_str(&mut lines, "  attempt ");
        push_dec(&mut lines, (i + 1) as u64);
        push_str(&mut lines, ": ");
        let described = describe(outcome);
        push_str(&mut lines, described.as_str());
        push_str(&mut lines, "\n");
        proof {
            let after = busy@.take(i + 1);
            assert(after.drop_last() =~= busy@.take(i as int));
            assert(after.last() == outcome);
            assert(lines@ =~= attempt_lines(after));
            if outcome is Wedged {
                assert(after[i as int] is Wedged);
            }
            if any_wedged(busy@.take(i as int)) {
                let k = choose|k: int| 0 <= k < i && busy@.take(i as int)[k] is Wedged;
                assert(after[k] is Wedged);
            }
            if any_wedged(after) && !(outcome is Wedged) {
                let k = choose|k: int| 0 <= k < i + 1 && after[k] is Wedged;
                assert(busy@.take(i as int)[k] is Wedged);
            }
        }
        if !outcome.returned() {
            wedged = true;
        }
        i = i + 1;
    }
    proof {
        assert(busy@.take(i as int) =~= busy@);
    }
    push_str(&mut text, lines.as_str());
    push_str(&mut text, "\nconclusion:\n");
    if wedged {
        push_str(&mut text, "  CancelSynchronousIo DID NOT RETURN against a thread that keeps\n  re-entering synchronous I/O. In the proposed mid-flight\n  cancellation design the canceller is a control-plane thread and\n  the target is a shared pool worker -- so a control plane can be\n  wedged by the very thing it is trying to rescue.\n  This is why mid-flight cancellation stays deferred.\n");
    } else {
        push_str(&mut text, "  every attempt returned on this host and this Windows build.\n  That does NOT clear the design: the original measurement wedged\n  with four identical noninvasive samples over twelve seconds, so\n  a non-wedge here is a timing difference rather than a refutation.\n  Re-run, and vary the hammer loop, before concluding otherwise.\n");
    }
    text
}

} // verus!
