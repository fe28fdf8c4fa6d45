//! Which `SEM_` bits are settable per thread, and how the thread error mode
//! relates to the process error mode.
//!
//! The calls into the error-mode API happen outside this library; what they
//! report comes back here as plain readings, and the findings are read off
//! them.

use vstd::prelude::*;

pub mod bits;

use crate::text::{dec, hex_upper, pad_right, push_dec, push_hex_upper, push_padded_right, push_str};
use self::bits::{FAIL_CRITICAL_ERRORS, NO_ALIGNMENT_FAULT_EXCEPT, NO_GP_FAULT_ERROR_BOX, NO_OPEN_FILE_ERROR_BOX};

verus! {

/// The bits probed one at a time, in order.
pub const PROBED_BITS: [u32; 4] = [FAIL_CRITICAL_ERRORS, NO_GP_FAULT_ERROR_BOX, NO_ALIGNMENT_FAULT_EXCEPT, NO_OPEN_FILE_ERROR_BOX];

/// The two bits every platform accepts per thread.
pub const VALID_PAIR: u32 = FAIL_CRITICAL_ERRORS | NO_GP_FAULT_ERROR_BOX;

/// The valid pair together with the bit the thread-scoped call refuses: the
/// mode whose fate decides whether one invalid bit costs the whole call.
pub const COMBINED_WITH_INVALID: u32 = VALID_PAIR | NO_ALIGNMENT_FAULT_EXCEPT;

/// What one `SetThreadErrorMode` call and the read-back after it reported.
#[derive(Clone, Copy, Debug, PartialEq, Eq, Structural)]
pub struct ThreadModeReading {
    /// Whether the set reported success.
    pub set_ok: bool,
    /// `GetLastError` when it did not, else 0.
    pub last_error: u32,
    /// What `GetThreadErrorMode` reported afterwards.
    pub read_back: u32,
}

/// What happened when one bit was set on its own.
#[derive(Clone, Copy, Debug, PartialEq, Eq, Structural)]
pub struct BitOutcome {
    /// The bit that was attempted.
    pub bit: u32,
    /// Whether `SetThreadErrorMode` reported success.
    pub set_ok: bool,
    /// `GetLastError` when it did not.
    pub last_error: u32,
    /// What `GetThreadErrorMode` reported afterwards.
    pub read_back: u32,
}

impl BitOutcome {
    /// The bit was accepted and is in force.
    pub open spec fn settable(self) -> bool {
        self.set_ok && self.read_back & self.bit == self.bit
    }

    /// The bit was accepted **and** is actually in force: a bit accepted but
    /// not installed would let a caller believe it applied a value it did
    /// not apply.
    pub fn is_settable(self) -> (settable: bool)
        ensures
            settable == self.settable(),
    {
        self.set_ok && self.read_back & self.bit == self.bit
    }

    /// The bit was accepted and then silently dropped.
    pub fn is_silently_dropped(self) -> (dropped: bool)
        ensures
            dropped == (self.set_ok && self.read_back & self.bit != self.bit),
    {
        self.set_ok && self.read_back & self.bit != self.bit
    }
}

/// Whether an outcome can be both settable and silently dropped: it cannot,
/// and an accepted bit is always exactly one of the two.
pub proof fn lemma_settable_or_dropped(outcome: BitOutcome)
    ensures
        !(outcome.settable() && (outcome.set_ok && outcome.read_back & outcome.bit != outcome.bit)),
        outcome.set_ok ==> (outcome.settable() || outcome.read_back & outcome.bit != outcome.bit),
{
}

/// The outcome of attempting `bit` on its own, given what the thread-mode
/// call reported for it.
pub fn probe_bit(bit: u32, reading: ThreadModeReading) -> (outcome: BitOutcome)
    ensures
        outcome == (BitOutcome {
            bit,
            set_ok: reading.set_ok,
            last_error: reading.last_error,
            read_back: reading.read_back,
        }),
{
    BitOutcome { bit, set_ok: reading.set_ok, last_error: reading.last_error, read_back: reading.read_back }
}

/// The mask of the settable bits among `outcomes`.
pub open spec fn settable_mask(outcomes: Seq<BitOutcome>) -> u32
    decreases outcomes.len(),
{
    if outcomes.len() == 0 {
        0
    } else {
        let rest = settable_mask(outcomes.drop_last());
        if outcomes.last().settable() {
            rest | outcomes.last().bit
        } else {
            rest
        }
    }
}

/// Every bit the probes found settable, as a mask.
pub fn settable_bits(outcomes: &[BitOutcome]) -> (mask: u32)
    ensures
        mask == settable_mask(outcomes@),
{
    let mut mask: u32 = 0;
    let mut i: usize = 0;
    while i < outcomes.len()
        invariant
            i <= outcomes.len(),
            mask == settable_mask(outcomes@.take(i as int)),
        decreases outcomes.len() - i,
    {
        let outcome = outcomes[i];
        proof {
            assert(outcomes@.take(i + 1).drop_last() =~= outcomes@.take(i as int));
            assert(outcomes@.take(i + 1).last() == outcome);
        }
        if outcome.is_settable() {
            mask = mask | outcome.bit;
        }
        i = i + 1;
    }
    proof {
        assert(outcomes@.take(i as int) =~= outcomes@);
    }
    mask
}

/// Whether setting [`COMBINED_WITH_INVALID`] from a zero baseline installed
/// nothing, given the mode read back afterwards: `(installed_nothing,
/// read_back)`.
pub fn combined_invalid_installs_nothing(read_back: u32) -> (finding: (bool, u32))
    ensures
        finding == (read_back & VALID_PAIR == 0, read_back),
{
    (read_back & VALID_PAIR == 0, read_back)
}

/// What the thread mode reported while the process mode held `bit`.
#[derive(Clone, Copy, Debug, PartialEq, Eq, Structural)]
pub struct ProcessVersusThread {
    /// The bit installed at process scope.
    pub process_bit: u32,
    /// The process mode actually observed.
    pub process_mode: u32,
    /// The thread mode observed at the same moment.
    pub thread_mode: u32,
}

impl ProcessVersusThread {
    /// The process bit is in force at process scope and did **not** show
    /// through the thread mode.
    pub fn is_independent(self) -> (independent: bool)
        ensures
            independent == (self.process_mode & self.process_bit == self.process_bit && self.thread_mode
                & self.process_bit == 0),
    {
        self.process_mode & self.process_bit == self.process_bit && self.thread_mode & self.process_bit == 0
    }
}

/// The name a report gives a bit, with its value.
pub open spec fn bit_name(bit: u32) -> Seq<char> {
    if bit == FAIL_CRITICAL_ERRORS {
        "SEM_FAILCRITICALERRORS     (0x0001)"@
    } else if bit == NO_GP_FAULT_ERROR_BOX {
        "SEM_NOGPFAULTERRORBOX      (0x0002)"@
    } else if bit == NO_ALIGNMENT_FAULT_EXCEPT {
        "SEM_NOALIGNMENTFAULTEXCEPT (0x0004)"@
    } else if bit == NO_OPEN_FILE_ERROR_BOX {
        "SEM_NOOPENFILEERRORBOX     (0x8000)"@
    } else {
        "unknown"@
    }
}

/// The name a report gives `bit`, aligned with the others.
pub fn name(bit: u32) -> (text: &'static str)
    ensures
        text@ == bit_name(bit),
{
    if bit == FAIL_CRITICAL_ERRORS {
        "SEM_FAILCRITICALERRORS     (0x0001)"
    } else if bit == NO_GP_FAULT_ERROR_BOX {
        "SEM_NOGPFAULTERRORBOX      (0x0002)"
    } else if bit == NO_ALIGNMENT_FAULT_EXCEPT {
        "SEM_NOALIGNMENTFAULTEXCEPT (0x0004)"
    } else if bit == NO_OPEN_FILE_ERROR_BOX {
        "SEM_NOOPENFILEERRORBOX     (0x8000)"
    } else {
        "unknown"
    }
}

/// What a report says a bit's outcome was.
pub open spec fn outcome_verdict(outcome: BitOutcome) -> Seq<char> {
    if outcome.settable() {
        "SETTABLE"@
    } else if outcome.set_ok && outcome.read_back & outcome.bit != outcome.bit {
        "ACCEPTED BUT SILENTLY DROPPED"@
    } else {
        "REJECTED"@
    }
}

/// One bit's line.
pub open spec fn outcome_line(outcome: BitOutcome) -> Seq<char> {
    bit_name(outcome.bit) + "  ok="@ + (if outcome.set_ok { "true"@ } else { "false"@ }) + " last_error="@
        + pad_right(dec(outcome.last_error as nat), 5) + " read_back=0x"@ + hex_upper(outcome.read_back as nat, 4)
        + "  -> "@ + outcome_verdict(outcome) + "\n"@
}

/// Every bit's line, in order.
pub open spec fn outcome_lines(outcomes: Seq<BitOutcome>) -> Seq<char>
    decreases outcomes.len(),
{
    if outcomes.len() == 0 {
        Seq::empty()
    } else {
        outcome_lines(outcomes.drop_last()) + outcome_line(outcomes.last())
    }
}

fn push_outcome_line(out: &mut String, outcome: BitOutcome)
    ensures
        final(out)@ == old(out)@ + outcome_line(outcome),
{
    let mut line = String::new();
    push_str(&mut line, name(outcome.bit));
    proof {
        assert(line@ =~= bit_name(outcome.bit));
    }
    push_str(&mut line, "  ok=");
    push_str(&mut line, if outcome.set_ok { "true" } else { "false" });
    push_str(&mut line, " last_error=");
    let mut error = String::new();
    push_dec(&mut error, outcome.last_error as u64);
    proof {
        assert(error@ =~= dec(outcome.last_error as nat));
    }
    push_padded_right(&mut line, error.as_str(), 5);
    push_str(&mut line, " read_back=0x");
    push_hex_upper(&mut line, outcome.read_back as u64, 4);
    push_str(&mut line, "  -> ");
    push_str(
        &mut line,
        if outcome.is_settable() {
            "SETTABLE"
        } else if outcome.is_silently_dropped() {
            "ACCEPTED BUT SILENTLY DROPPED"
        } else {
            "REJECTED"
        },
    );
    push_str(&mut line, "\n");
    push_str(out, line.as_str());
}

/// Everything the error-mode probe found, as its report prints it: each bit
/// on its own, the settable mask, the fate of one invalid bit beside valid
/// ones, process against thread mode, and the alignment bit's stickiness
/// (`(before, after)` the attempted restore).
pub open spec fn render_text(
    banner: Seq<char>,
    outcomes: Seq<BitOutcome>,
    mask: u32,
    combined: (bool, u32),
    modes: ProcessVersusThread,
    sticky: (u32, u32),
) -> Seq<char> {
    banner + "\n"@ + "--- each bit on its own, set then read back ---\n"@ + outcome_lines(outcomes)
        + "\nsettable mask: 0x"@ + hex_upper(mask as nat, 4) + "\n"@
        + "\n--- one invalid bit alongside two valid ones ---\n"@ + "read back 0x"@ + hex_upper(
        combined.1 as nat,
        4,
    ) + "  -> "@ + (if combined.0 {
        "the WHOLE call failed; none of the valid bits was installed"@
    } else {
        "the valid bits survived"@
    }) + "\n"@ + "\n--- process mode versus thread mode ---\n"@ + "process=0x"@ + hex_upper(
        modes.process_mode as nat,
        4,
    ) + " thread=0x"@ + hex_upper(modes.thread_mode as nat, 4) + "  -> "@ + (if modes.process_mode
        & modes.process_bit == modes.process_bit && modes.thread_mode & modes.process_bit == 0 {
        "INDEPENDENT storage"@
    } else {
        "the process bit SHOWS THROUGH the thread mode"@
    }) + "\n"@ + "\n--- irreversible: the alignment bit at process scope ---\n"@
        + "(this permanently alters this process, which is why no test does it)\n"@ + "before=0x"@
        + hex_upper(sticky.0 as nat, 4) + " after restore attempt=0x"@ + hex_upper(sticky.1 as nat, 4)
        + "  -> "@ + (if sticky.1 & NO_ALIGNMENT_FAULT_EXCEPT != 0 {
        "STICKY: the restore was ignored"@
    } else {
        "clearable"@
    }) + "\n"@
}

/// The error-mode probe's report, from what it measured.
pub fn render(
    banner: &str,
    outcomes: &[BitOutcome],
    mask: u32,
    combined: (bool, u32),
    modes: ProcessVersusThread,
    sticky: (u32, u32),
) -> (text: String)
    ensures
        text@ == render_text(banner@, outcomes@, mask, combined, modes, sticky),
{
    let mut text = String::new();
    push_str(&mut text, banner);
    proof {
        assert(text@ =~= banner@);
    }
    push_str(&mut text, "\n");
    push_str(&mut text, "--- each bit on its own, set then read back ---\n");
    let mut lines = String::new();
    let mut i: usize = 0;
    while i < outcomes.len()
        invariant
            i <= outcomes.len(),
            lines@ == outcome_lines(outcomes@.take(i as int)),
        decreases outcomes.len() - i,
    {
        push_outcome_line(&mut lines, outcomes[i]);
        proof {
            assert(outcomes@.take(i + 1).drop_last() =~= outcomes@.take(i as int));
        }
        i = i + 1;
    }
    proof {
        assert(outcomes@.take(i as int) =~= outcomes@);
    }
    push_str(&mut text, lines.as_str());
    push_str(&mut text, "\nsettable mask: 0x");
    push_hex_upper(&mut text, mask as u64, 4);
    push_str(&mut text, "\n");
    push_str(&mut text, "\n--- one invalid bit alongside two valid ones ---\n");
    push_str(&mut text, "read back 0x");
    push_hex_upper(&mut text, combined.1 as u64, 4);
    push_str(&mut text, "  -> ");
    push_str(
        &mut text,
        if combined.0 {
            "the WHOLE call failed; none of the valid bits was installed"
        } else {
            "the valid bits survived"
        },
    );
    push_str(&mut text, "\n");
    push_str(&mut text, "\n--- process mode versus thread mode ---\n");
    push_str(&mut text, "process=0x");
    push_hex_upper(&mut text, modes.process_mode as u64, 4);
    push_str(&mut text, " thread=0x");
    push_hex_upper(&mut text, modes.thread_mode as u64, 4);
    push_str(&mut text, "  -> ");
    push_str(&mut text, if modes.is_independent() { "INDEPENDENT storage" } else { "the process bit SHOWS THROUGH the thread mode" });
    push_str(&mut text, "\n");
    push_str(&mut text, "\n--- irreversible: the alignment bit at process scope ---\n");
    push_str(&mut text, "(this permanently alters this process, which is why no test does it)\n");
    push_str(&mut text, "before=0x");
    push_hex_upper(&mut text, sticky.0 as u64, 4);
    push_str(&mut text, " after restore attempt=0x");
    push_hex_upper(&mut text, sticky.1 as u64, 4);
    push_str(&mut text, "  -> ");
    push_str(&mut text, if sticky.1 & NO_ALIGNMENT_FAULT_EXCEPT != 0 { "STICKY: the restore was ignored" } else { "clearable" });
    push_str(&mut text, "\n");
    text
}

} // verus!
