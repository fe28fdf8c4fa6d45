//! Does associating a handle with a completion port, or with thread-pool
//! I/O, foreclose reading it through an I/O ring?
//!
//! The reads and associations happen outside this library; each read's
//! outcome comes back here, and the finding is read off the five cases.

use vstd::prelude::*;

use crate::ioring::{IoRingSupport, FILL, FIXTURE_LEN};
use crate::text::{alt_hex, dec, pad_right, push_alt_hex, push_dec, push_padded_right, push_str};

verus! {

/// What one ring read through a handle returned.
#[derive(Clone, Copy, Debug, PartialEq, Eq, Structural)]
pub struct ReadAttempt {
    /// The completion's result code, an `HRESULT`.
    pub result_code: i32,
    /// Bytes read.
    pub bytes: usize,
    /// The first byte read.
    pub first_byte: u8,
}

impl ReadAttempt {
    /// The read succeeded and returned the whole fixture.
    pub open spec fn read_whole(self) -> bool {
        self.result_code >= 0 && self.bytes == FIXTURE_LEN && self.first_byte == FILL
    }

    /// The read succeeded **and** returned the fixture's contents: a success
    /// code with the wrong bytes is not a working read.
    pub fn succeeded(self) -> (ok: bool)
        ensures
            ok == self.read_whole(),
    {
        self.result_code >= 0 && self.bytes == FIXTURE_LEN && self.first_byte == FILL
    }
}

/// Everything the probe observed.
#[derive(Clone, Copy, Debug, PartialEq, Eq, Structural)]
pub struct CompletionPortFinding {
    /// A handle with no association at all: the negative control.
    pub control_unassociated: ReadAttempt,
    /// The ring read after associating the handle with a completion port.
    pub after_iocp_association: ReadAttempt,
    /// The ring read before a late association, which must work.
    pub before_late_association: ReadAttempt,
    /// The ring read after that late association.
    pub after_late_association: ReadAttempt,
    /// Whether the associated handle still completes through its port.
    pub port_still_works: bool,
    /// The ring read before thread-pool I/O was created on the handle.
    pub before_threadpool_io: ReadAttempt,
    /// The ring read after.
    pub after_threadpool_io: ReadAttempt,
}

impl CompletionPortFinding {
    /// Every control read worked, so the other readings mean something.
    pub open spec fn valid(self) -> bool {
        self.control_unassociated.read_whole() && self.before_late_association.read_whole()
            && self.before_threadpool_io.read_whole()
    }

    /// Every control read worked.
    pub fn is_valid(self) -> (valid: bool)
        ensures
            valid == self.valid(),
    {
        self.control_unassociated.succeeded() && self.before_late_association.succeeded()
            && self.before_threadpool_io.succeeded()
    }

    /// A completion-port association, early or late, stops ring reads.
    pub fn association_forecloses_ioring(self) -> (forecloses: bool)
        ensures
            forecloses == (self.valid() && !self.after_iocp_association.read_whole()
                && !self.after_late_association.read_whole()),
    {
        self.is_valid() && !self.after_iocp_association.succeeded() && !self.after_late_association.succeeded()
    }

    /// Creating thread-pool I/O on a handle stops ring reads.
    pub fn threadpool_io_forecloses_ioring(self) -> (forecloses: bool)
        ensures
            forecloses == (self.valid() && !self.after_threadpool_io.read_whole()),
    {
        self.is_valid() && !self.after_threadpool_io.succeeded()
    }
}

/// No finding is drawn from an invalid run: both verdicts presume every
/// control read worked.
pub proof fn lemma_findings_need_controls(finding: CompletionPortFinding)
    requires
        !finding.valid(),
    ensures
        !(finding.valid() && !finding.after_iocp_association.read_whole()
            && !finding.after_late_association.read_whole()),
        !(finding.valid() && !finding.after_threadpool_io.read_whole()),
{
}

/// `PASS` or `FAIL`.
pub open spec fn pass_text(pass: bool) -> Seq<char> {
    if pass { "PASS"@ } else { "FAIL"@ }
}

/// One case's line: its label, what the read returned, and whether it
/// passed.
pub open spec fn case_line(label: Seq<char>, attempt: ReadAttempt) -> Seq<char> {
    "  "@ + pad_right(label, 46) + " result="@ + alt_hex((attempt.result_code as u32) as nat, 10) + " bytes="@
        + dec(attempt.bytes as nat) + " first="@ + alt_hex(attempt.first_byte as nat, 4) + "  ["@ + pass_text(
        attempt.read_whole(),
    ) + "]\n"@
}

/// Appends one case's line.
pub fn describe(out: &mut String, label: &str, attempt: ReadAttempt)
    ensures
        final(out)@ == old(out)@ + case_line(label@, attempt),
{
    let mut line = String::new();
    push_str(&mut line, "  ");
    proof {
        assert(line@ =~= "  "@);
    }
    push_padded_right(&mut line, label, 46);
    push_str(&mut line, " result=");
    push_alt_hex(&mut line, attempt.result_code as u32 as u64, 10);
    push_str(&mut line, " bytes=");
    push_dec(&mut line, attempt.bytes as u64);
    push_str(&mut line, " first=");
    push_alt_hex(&mut line, attempt.first_byte as u64, 4);
    push_str(&mut line, "  [");
    push_str(&mut line, if attempt.succeeded() { "PASS" } else { "FAIL" });
    push_str(&mut line, "]\n");
    push_str(out, line.as_str());
}

/// The conclusion about completion-port association.
pub open spec fn association_text(finding: CompletionPortFinding) -> Seq<char> {
    if finding.valid() && !finding.after_iocp_association.read_whole() && !finding.after_late_association.read_whole() {
        "  IOCP association FORECLOSES IoRing use of the same handle.\n"@ + if finding.port_still_works {
            "  The handle is still healthy -- it completes through the port -- so it\n  is the IoRing path specifically that is refused, not the handle.\n"@
        } else {
            "  NOTE: the port control also failed, so the handle may be broken\n  outright rather than only the IoRing path being refused.\n"@
        }
    } else {
        "  COEXIST: association does NOT prevent IoRing use of the handle.\n  This contradicts the reading windows-namespace-request-sys rests on;\n  the handle-destination fork would need revisiting.\n"@
    }
}

/// The conclusion about thread-pool I/O.
pub open spec fn threadpool_text(finding: CompletionPortFinding) -> Seq<char> {
    if finding.valid() && !finding.after_threadpool_io.read_whole() {
        "\n  CreateThreadpoolIo forecloses it the SAME way. That is the path this\n  workspace actually uses, so the consequence lands on\n  windows-threadpool-sys's own users.\n"@
    } else {
        "\n  CreateThreadpoolIo does NOT foreclose it, which differs from raw IOCP.\n  Worth knowing: the two are not interchangeable for this purpose.\n"@
    }
}

/// The labels of the five cases' reads, in the order they are reported.
pub open spec fn cases_text(finding: CompletionPortFinding) -> Seq<char> {
    case_line("case 1 CONTROL: no association at all"@, finding.control_unassociated) + case_line(
        "case 2 TEST: associated, then IoRing read"@,
        finding.after_iocp_association,
    ) + case_line("case 3a: IoRing read BEFORE association"@, finding.before_late_association) + case_line(
        "case 3b: IoRing read AFTER association"@,
        finding.after_late_association,
    ) + "  "@ + pad_right("case 4 CONTROL: overlapped read via the port"@, 46) + " ["@ + pass_text(
        finding.port_still_works,
    ) + "]\n"@ + case_line("case 5a: IoRing BEFORE CreateThreadpoolIo"@, finding.before_threadpool_io)
        + case_line("case 5b: IoRing AFTER CreateThreadpoolIo"@, finding.after_threadpool_io)
}

/// The whole report of a finding: every case, then the verdict, which is
/// withheld when a control failed.
pub open spec fn report_text(finding: CompletionPortFinding) -> Seq<char> {
    "a PASS needs all three: success code, full byte count, and the fill byte.\n\n"@ + cases_text(finding)
        + "\n--- verdict ---\n"@ + if !finding.valid() {
        "  INVALID: a negative control failed, so nothing can be concluded.\n  The probe is broken rather than the platform answering.\n"@
    } else {
        association_text(finding) + threadpool_text(finding)
    }
}

/// Appends the report of a finding.
pub fn report(out: &mut String, finding: CompletionPortFinding)
    ensures
        final(out)@ == old(out)@ + report_text(finding),
{
    let mut text = String::new();
    push_str(&mut text, "a PASS needs all three: success code, full byte count, and the fill byte.\n\n");
    proof {
        assert(text@ =~= "a PASS needs all three: success code, full byte count, and the fill byte.\n\n"@);
    }
    let mut cases = String::new();
    describe(&mut cases, "case 1 CONTROL: no association at all", finding.control_unassociated);
    proof {
        assert(cases@ =~= case_line("case 1 CONTROL: no association at all"@, finding.control_unassociated));
    }
    describe(&mut cases, "case 2 TEST: associated, then IoRing read", finding.after_iocp_association);
    describe(&mut cases, "case 3a: IoRing read BEFORE association", finding.before_late_association);
    describe(&mut cases, "case 3b: IoRing read AFTER association", finding.after_late_association);
    push_str(&mut cases, "  ");
    push_padded_right(&mut cases, "case 4 CONTROL: overlapped read via the port", 46);
    push_str(&mut cases, " [");
    push_str(&mut cases, if finding.port_still_works { "PASS" } else { "FAIL" });
    push_str(&mut cases, "]\n");
    describe(&mut cases, "case 5a: IoRing BEFORE CreateThreadpoolIo", finding.before_threadpool_io);
    describe(&mut cases, "case 5b: IoRing AFTER CreateThreadpoolIo", finding.after_threadpool_io);
    push_str(&mut text, cases.as_str());
    push_str(&mut text, "\n--- verdict ---\n");
    if !finding.is_valid() {
        push_str(&mut text, "  INVALID: a negative control failed, so nothing can be concluded.\n  The probe is broken rather than the platform answering.\n");
        push_str(out, text.as_str());
        return;
    }
    let mut verdict = String::new();
    if finding.association_forecloses_ioring() {
        push_str(&mut verdict, "  IOCP association FORECLOSES IoRing use of the same handle.\n");
        proof {
            assert(verdict@ =~= "  IOCP association FORECLOSES IoRing use of the same handle.\n"@);
        }
        if finding.port_still_works {
            push_str(&mut verdict, "  The handle is still healthy -- it completes through the port -- so it\n  is the IoRing path specifically that is refused, not the handle.\n");
        } else {
            push_str(&mut verdict, "  NOTE: the port control also failed, so the handle may be broken\n  outright rather than only the IoRing path being refused.\n");
        }
    } else {
        push_str(&mut verdict, "  COEXIST: association does NOT prevent IoRing use of the handle.\n  This contradicts the reading windows-namespace-request-sys rests on;\n  the handle-destination fork would need revisiting.\n");
        proof {
            assert(verdict@ =~= association_text(finding));
        }
    }
    if finding.threadpool_io_forecloses_ioring() {
        push_str(&mut verdict, "\n  CreateThreadpoolIo forecloses it the SAME way. That is the path this\n  workspace actually uses, so the consequence lands on\n  windows-threadpool-sys's own users.\n");
    } else {
        push_str(&mut verdict, "\n  CreateThreadpoolIo does NOT foreclose it, which differs from raw IOCP.\n  Worth knowing: the two are not interchangeable for this purpose.\n");
    }
    push_str(&mut text, verdict.as_str());
    push_str(out, text.as_str());
}

/// The probe's whole report: the banner naming the machine, the question,
/// then either the finding or why there is none. A host without a ring is
/// reported as unable to answer, not as answering no.
pub open spec fn render_text(banner: Seq<char>, support: IoRingSupport<CompletionPortFinding>) -> Seq<char> {
    banner + "\n"@ + "== IOCP association vs IoRing, on one handle ==\n\n"@ + match support {
        IoRingSupport::Unavailable => "this host has no usable IoRing, so nothing was measured.\n('cannot ask' is not 'the answer is no'.)\n"@,
        IoRingSupport::Measured(finding) => report_text(finding),
    }
}

/// The probe's whole report, as text.
pub fn render(banner: &str, support: IoRingSupport<CompletionPortFinding>) -> (text: String)
    ensures
        text@ == render_text(banner@, support),
{
    let mut text = String::new();
    push_str(&mut text, banner);
    push_str(&mut text, "\n");
    push_str(&mut text, "== IOCP association vs IoRing, on one handle ==\n\n");
    let mut rest = String::new();
    match support {
        IoRingSupport::Unavailable => {
            push_str(&mut rest, "this host has no usable IoRing, so nothing was measured.\n('cannot ask' is not 'the answer is no'.)\n");
        },
        IoRingSupport::Measured(finding) => {
            report(&mut rest, finding);
        },
    }
    proof {
        assert(rest@ =~= match support {
            IoRingSupport::Unavailable => "this host has no usable IoRing, so nothing was measured.\n('cannot ask' is not 'the answer is no'.)\n"@,
            IoRingSupport::Measured(finding) => report_text(finding),
        });
        assert(text@ =~= banner@ + "\n"@ + "== IOCP association vs IoRing, on one handle ==\n\n"@);
    }
    push_str(&mut text, rest.as_str());
    text
}

} // verus!
