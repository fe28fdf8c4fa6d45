//! What the I/O ring does with a second registration of file handles, and
//! whether its operations survive the thread that submitted them.
//!
//! The ring calls live outside this library; their result codes come back
//! here and the findings are read off them. A result code is an `HRESULT`:
//! negative means failure.

use vstd::prelude::*;

use crate::text::{alt_hex, push_alt_hex, push_str};

verus! {

/// The length of the file every read is issued against.
pub const FIXTURE_LEN: usize = 4096;

/// The byte that file is filled with: `x`.
pub const FILL: u8 = 0x78;

/// Either the platform has no I/O ring, or a measurement of `T`.
#[derive(Clone, Debug, PartialEq, Eq)]
pub enum IoRingSupport<T> {
    /// `CreateIoRing` failed, so nothing could be measured.
    Unavailable,
    /// The ring exists and this is what it did.
    Measured(T),
}

impl<T> IoRingSupport<T> {
    /// The measurement, if there is one.
    pub fn measured(self) -> (value: Option<T>)
        ensures
            value == (match self {
                IoRingSupport::Unavailable => None,
                IoRingSupport::Measured(v) => Some(v),
            }),
    {
        match self {
            IoRingSupport::Unavailable => None,
            IoRingSupport::Measured(value) => Some(value),
        }
    }
}

/// Whether an `HRESULT` reports success.
pub open spec fn succeeded(result: i32) -> bool {
    result >= 0
}

/// Whether the platform offers an I/O ring, given what `CreateIoRing`
/// returned.
pub fn is_available(create_result: i32) -> (available: bool)
    ensures
        available == succeeded(create_result),
{
    create_result >= 0
}

/// What a second registration of file handles did to the first.
#[derive(Clone, Copy, Debug, PartialEq, Eq, Structural)]
pub struct RegistrationObservation {
    /// Whether index 1, only present in the first registration, still reads.
    pub index_one_usable_after_second: bool,
    /// Whether index 0 reads after the second registration.
    pub index_zero_usable_after_second: bool,
}

impl RegistrationObservation {
    /// The observation, given the result codes of reading through index 0
    /// and index 1 after the second registration.
    pub fn from_reads(index_zero_result: i32, index_one_result: i32) -> (observation: Self)
        ensures
            observation == (RegistrationObservation {
                index_one_usable_after_second: succeeded(index_one_result),
                index_zero_usable_after_second: succeeded(index_zero_result),
            }),
    {
        RegistrationObservation {
            index_one_usable_after_second: index_one_result >= 0,
            index_zero_usable_after_second: index_zero_result >= 0,
        }
    }

    /// Whether the second registration replaced the table: index 0 is the
    /// new handle and index 1 is gone.
    pub open spec fn replacing(self) -> bool {
        self.index_zero_usable_after_second && !self.index_one_usable_after_second
    }

    /// Whether the second registration added to the table: both indices
    /// still read.
    pub open spec fn appending(self) -> bool {
        self.index_zero_usable_after_second && self.index_one_usable_after_second
    }

    /// The second registration replaced the table: index 0 is the new
    /// handle and index 1 is gone.
    pub fn replaces(self) -> (replaces: bool)
        ensures
            replaces == self.replacing(),
            replaces == (self.index_zero_usable_after_second && !self.index_one_usable_after_second),
    {
        self.index_zero_usable_after_second && !self.index_one_usable_after_second
    }

    /// The second registration added to the table.
    pub fn appends(self) -> (appends: bool)
        ensures
            appends == self.appending(),
            appends == (self.index_zero_usable_after_second && self.index_one_usable_after_second),
    {
        self.index_zero_usable_after_second && self.index_one_usable_after_second
    }
}

/// A registration never both replaces and appends.
pub proof fn lemma_replaces_excludes_appends(observation: RegistrationObservation)
    ensures
        !((observation.index_zero_usable_after_second && !observation.index_one_usable_after_second) && (
        observation.index_zero_usable_after_second && observation.index_one_usable_after_second)),
{
}

/// Whether an operation outlived the thread that submitted it.
#[derive(Clone, Copy, Debug, PartialEq, Eq, Structural)]
pub struct ThreadAgnosticism {
    /// Whether the submitting thread had exited before completion was read.
    pub submitter_exited: bool,
    /// The completion's result code.
    pub result_code: i32,
}

impl ThreadAgnosticism {
    /// The operation completed successfully after its submitter exited.
    pub fn survives_submitter_exit(self) -> (survives: bool)
        ensures
            survives == (self.submitter_exited && succeeded(self.result_code)),
    {
        self.submitter_exited && self.result_code >= 0
    }
}

/// The report's opening: the machine, and the question.
pub open spec fn heading(banner: Seq<char>) -> Seq<char> {
    banner + "\n"@ + "== IoRing registration and thread agnosticism ==\n\n"@
}

/// The report when the host has no ring: unable to ask is not the answer no.
pub open spec fn unavailable_text(banner: Seq<char>) -> Seq<char> {
    heading(banner)
        + "this host has no usable IoRing, so nothing was measured.\n(Reported rather than measured: 'we could not ask' and 'the answer\nis no' are different facts, and conflating them is how a design note\nends up citing a measurement that never ran.)\n"@
}

/// What a second registration's outcome means.
pub open spec fn registration_text(support: IoRingSupport<RegistrationObservation>) -> Seq<char> {
    "registration semantics:\n"@ + match support {
        IoRingSupport::Unavailable => "  (no ring)\n"@,
        IoRingSupport::Measured(observed) => "  after re-registering ONE handle: index 0 usable "@ + (if observed.index_zero_usable_after_second {
            "true"@
        } else {
            "false"@
        }) + ", index 1 usable "@ + (if observed.index_one_usable_after_second {
            "true"@
        } else {
            "false"@
        }) + "\n"@ + if observed.index_zero_usable_after_second && !observed.index_one_usable_after_second {
            "  -> REPLACES the whole table, which is what\n     windows-ioring-sys assumes and refuses a second call on.\n"@
        } else if observed.index_zero_usable_after_second && observed.index_one_usable_after_second {
            "  -> APPENDS. windows-ioring-sys's index bookkeeping would be\n     WRONG and its refusal a needless restriction.\n"@
        } else {
            "  -> neither: even index 0 stopped working, so the probe\n     broke rather than the platform answering.\n"@
        },
    }
}

/// What the thread-agnosticism outcome means.
pub open spec fn agnosticism_text(support: IoRingSupport<ThreadAgnosticism>) -> Seq<char> {
    "\nthread agnosticism:\n"@ + match support {
        IoRingSupport::Unavailable => "  (no ring)\n"@,
        IoRingSupport::Measured(observed) => "  submitter exited before completion was read: "@ + (if observed.submitter_exited {
            "true"@
        } else {
            "false"@
        }) + " | result code: "@ + alt_hex((observed.result_code as u32) as nat, 10) + "\n"@ + if observed.submitter_exited
            && succeeded(observed.result_code) {
            "  -> an operation OUTLIVES the thread that submitted it, so a\n     design whose threads are transient by construction is safe.\n"@
        } else {
            "  -> the operation did NOT survive its submitter. Every thread\n     in the proposed design is transient, so this would fail\n     only under load -- the worst place to discover it.\n"@
        },
    }
}

/// The sentence a report gives a registration that replaced the table.
pub open spec fn replaces_sentence() -> Seq<char> {
    "  -> REPLACES the whole table, which is what\n     windows-ioring-sys assumes and refuses a second call on.\n"@
}

/// The sentence a report gives a registration that added to the table.
pub open spec fn appends_sentence() -> Seq<char> {
    "  -> APPENDS. windows-ioring-sys's index bookkeeping would be\n     WRONG and its refusal a needless restriction.\n"@
}

/// The sentence a report gives a registration after which even index 0
/// failed.
pub open spec fn neither_sentence() -> Seq<char> {
    "  -> neither: even index 0 stopped working, so the probe\n     broke rather than the platform answering.\n"@
}

/// The report of both measurements.
pub open spec fn render_text(
    banner: Seq<char>,
    registration: IoRingSupport<RegistrationObservation>,
    agnosticism: IoRingSupport<ThreadAgnosticism>,
) -> Seq<char> {
    heading(banner) + registration_text(registration) + agnosticism_text(agnosticism)
}

/// The report when the host has no ring.
pub fn render_unavailable(banner: &str) -> (text: String)
    ensures
        text@ == unavailable_text(banner@),
{
    let mut text = String::new();
    push_str(&mut text, banner);
    proof {
        assert(text@ =~= banner@);
    }
    push_str(&mut text, "\n");
    push_str(&mut text, "== IoRing registration and thread agnosticism ==\n\n");
    push_str(&mut text, "this host has no usable IoRing, so nothing was measured.\n(Reported rather than measured: 'we could not ask' and 'the answer\nis no' are different facts, and conflating them is how a design note\nends up citing a measurement that never ran.)\n");
    text
}

/// The report of both measurements.
pub fn render(
    banner: &str,
    registration: IoRingSupport<RegistrationObservation>,
    agnosticism: IoRingSupport<ThreadAgnosticism>,
) -> (text: String)
    ensures
        text@ == render_text(banner@, registration, agnosticism),
{
    let mut text = String::new();
    push_str(&mut text, banner);
    proof {
        assert(text@ =~= banner@);
    }
    push_str(&mut text, "\n");
    push_str(&mut text, "== IoRing registration and thread agnosticism ==\n\n");
    let mut first = String::new();
    push_str(&mut first, "registration semantics:\n");
    proof {
        assert(first@ =~= "registration semantics:\n"@);
    }
    match registration {
        IoRingSupport::Unavailable => push_str(&mut first, "  (no ring)\n"),
        IoRingSupport::Measured(observed) => {
            push_str(&mut first, "  after re-registering ONE handle: index 0 usable ");
            push_str(&mut first, if observed.index_zero_usable_after_second { "true" } else { "false" });
            push_str(&mut first, ", index 1 usable ");
            push_str(&mut first, if observed.index_one_usable_after_second { "true" } else { "false" });
            push_str(&mut first, "\n");
            if observed.replaces() {
                push_str(&mut first, "  -> REPLACES the whole table, which is what\n     windows-ioring-sys assumes and refuses a second call on.\n");
            } else if observed.appends() {
                push_str(&mut first, "  -> APPENDS. windows-ioring-sys's index bookkeeping would be\n     WRONG and its refusal a needless restriction.\n");
            } else {
                push_str(&mut first, "  -> neither: even index 0 stopped working, so the probe\n     broke rather than the platform answering.\n");
            }
        },
    }
    proof {
        assert(first@ =~= registration_text(registration));
    }
    let mut second = String::new();
    push_str(&mut second, "\nthread agnosticism:\n");
    proof {
        assert(second@ =~= "\nthread agnosticism:\n"@);
    }
    match agnosticism {
        IoRingSupport::Unavailable => push_str(&mut second, "  (no ring)\n"),
        IoRingSupport::Measured(observed) => {
            push_str(&mut second, "  submitter exited before completion was read: ");
            push_str(&mut second, if observed.submitter_exited { "true" } else { "false" });
            push_str(&mut second, " | result code: ");
            push_alt_hex(&mut second, observed.result_code as u32 as u64, 10);
            push_str(&mut second, "\n");
            if observed.survives_submitter_exit() {
                push_str(&mut second, "  -> an operation OUTLIVES the thread that submitted it, so a\n     design whose threads are transient by construction is safe.\n");
            } else {
                push_str(&mut second, "  -> the operation did NOT survive its submitter. Every thread\n     in the proposed design is transient, so this would fail\n     only under load -- the worst place to discover it.\n");
            }
        },
    }
    proof {
        assert(second@ =~= agnosticism_text(agnosticism));
    }
    push_str(&mut text, first.as_str());
    push_str(&mut text, second.as_str());
    text
}

/// The registration section of a report ends with the sentence its
/// observation earns: REPLACES for a replacing registration, APPENDS for an
/// appending one, and the broken-probe sentence when index 0 failed too.
pub proof fn lemma_registration_verdict_follows_observation(observed: RegistrationObservation)
    ensures
        observed.replacing() ==> exists|head: Seq<char>|
            registration_text(IoRingSupport::Measured(observed)) == head + replaces_sentence(),
        observed.appending() ==> exists|head: Seq<char>|
            registration_text(IoRingSupport::Measured(observed)) == head + appends_sentence(),
        !observed.replacing() && !observed.appending() ==> exists|head: Seq<char>|
            registration_text(IoRingSupport::Measured(observed)) == head + neither_sentence(),
{
    let head = "registration semantics:\n"@ + ("  after re-registering ONE handle: index 0 usable "@ + (
    if observed.index_zero_usable_after_second {
        "true"@
    } else {
        "false"@
    }) + ", index 1 usable "@ + (if observed.index_one_usable_after_second {
        "true"@
    } else {
        "false"@
    }) + "\n"@);
    let text = registration_text(IoRingSupport::Measured(observed));
    if observed.replacing() {
        assert(text =~= head + replaces_sentence());
    } else if observed.appending() {
        assert(text =~= head + appends_sentence());
    } else {
        assert(text =~= head + neither_sentence());
    }
}

/// A full report carries the registration verdict its observation earns:
/// REPLACES exactly for a replacing registration and APPENDS for an
/// appending one, whatever the banner and the other measurement.
pub proof fn lemma_report_states_the_registration_verdict(
    banner: Seq<char>,
    observed: RegistrationObservation,
    agnosticism: IoRingSupport<ThreadAgnosticism>,
)
    ensures
        observed.replacing() ==> exists|head: Seq<char>, tail: Seq<char>|
            render_text(banner, IoRingSupport::Measured(observed), agnosticism) == head + replaces_sentence() + tail,
        observed.appending() ==> exists|head: Seq<char>, tail: Seq<char>|
            render_text(banner, IoRingSupport::Measured(observed), agnosticism) == head + appends_sentence() + tail,
{
    lemma_registration_verdict_follows_observation(observed);
    let section = registration_text(IoRingSupport::Measured(observed));
    let text = render_text(banner, IoRingSupport::Measured(observed), agnosticism);
    let tail = agnosticism_text(agnosticism);
    if observed.replacing() {
        let head = choose|head: Seq<char>| section == head + replaces_sentence();
        assert(text =~= (heading(banner) + head) + replaces_sentence() + tail);
    }
    if observed.appending() {
        let head = choose|head: Seq<char>| section == head + appends_sentence();
        assert(text =~= (heading(banner) + head) + appends_sentence() + tail);
    }
}

} // verus!
