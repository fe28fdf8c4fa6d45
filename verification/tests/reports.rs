use windows_platform_probes::cancel_io::{describe as describe_outcome, render as render_cancel, CancelOutcome};
use windows_platform_probes::completion_port::{describe, render, report, CompletionPortFinding, ReadAttempt};
use windows_platform_probes::error_mode::bits::{FAIL_CRITICAL_ERRORS, NO_ALIGNMENT_FAULT_EXCEPT};
use windows_platform_probes::error_mode::{name, probe_bit, render as render_error_mode, ProcessVersusThread, ThreadModeReading};
use windows_platform_probes::ioring::{IoRingSupport, FILL, FIXTURE_LEN};

fn good() -> ReadAttempt {
    ReadAttempt { result_code: 0, bytes: FIXTURE_LEN, first_byte: FILL }
}

fn refused() -> ReadAttempt {
    ReadAttempt { result_code: -2147024809, bytes: 0, first_byte: 0 }
}

fn foreclosed() -> CompletionPortFinding {
    CompletionPortFinding {
        control_unassociated: good(),
        after_iocp_association: refused(),
        before_late_association: good(),
        after_late_association: refused(),
        port_still_works: true,
        before_threadpool_io: good(),
        after_threadpool_io: refused(),
    }
}

#[test]
fn a_case_line_shows_the_code_bytes_and_fill_byte_in_hex() {
    let mut out = String::new();
    describe(&mut out, "case 1 CONTROL: no association at all", good());
    assert_eq!(out, "  case 1 CONTROL: no association at all          result=0x00000000 bytes=4096 first=0x78  [PASS]\n");
    let mut failed = String::new();
    describe(&mut failed, "case 2 TEST: associated, then IoRing read", refused());
    assert_eq!(failed, "  case 2 TEST: associated, then IoRing read      result=0x80070057 bytes=0 first=0x00  [FAIL]\n");
}

#[test]
fn a_foreclosing_association_is_reported_with_its_control() {
    let mut out = String::new();
    report(&mut out, foreclosed());
    assert!(out.starts_with("a PASS needs all three: success code, full byte count, and the fill byte.\n\n"));
    assert!(out.contains("  case 4 CONTROL: overlapped read via the port   [PASS]\n"), "got {out}");
    assert!(out.contains("\n--- verdict ---\n  IOCP association FORECLOSES IoRing use of the same handle.\n  The handle is still healthy"), "got {out}");
    assert!(out.ends_with("  windows-threadpool-sys's own users.\n"), "got {out}");
}

#[test]
fn a_failed_control_withholds_the_verdict() {
    let mut out = String::new();
    report(&mut out, CompletionPortFinding { before_late_association: refused(), ..foreclosed() });
    assert!(out.ends_with(
        "\n--- verdict ---\n  INVALID: a negative control failed, so nothing can be concluded.\n  The probe is broken rather than the platform answering.\n"
    ), "got {out}");
    assert!(!out.contains("FORECLOSES"));
}

#[test]
fn a_host_without_a_ring_is_reported_as_unable_to_answer() {
    let text = render("host:  test", IoRingSupport::Unavailable);
    assert_eq!(
        text,
        "host:  test\n== IOCP association vs IoRing, on one handle ==\n\nthis host has no usable IoRing, so nothing was measured.\n('cannot ask' is not 'the answer is no'.)\n"
    );
    let measured = render("host:  test", IoRingSupport::Measured(foreclosed()));
    assert!(measured.contains("COEXIST") == false && measured.contains("FORECLOSES"));
}

#[test]
fn the_error_mode_report_names_each_bit_and_its_fate() {
    assert_eq!(name(FAIL_CRITICAL_ERRORS), "SEM_FAILCRITICALERRORS     (0x0001)");
    assert_eq!(name(3), "unknown");
    let outcomes = vec![
        probe_bit(FAIL_CRITICAL_ERRORS, ThreadModeReading { set_ok: true, last_error: 0, read_back: 1 }),
        probe_bit(NO_ALIGNMENT_FAULT_EXCEPT, ThreadModeReading { set_ok: false, last_error: 87, read_back: 0 }),
    ];
    let text = render_error_mode(
        "host:  test",
        &outcomes,
        1,
        (true, 0),
        ProcessVersusThread { process_bit: 1, process_mode: 1, thread_mode: 0 },
        (0, 4),
    );
    let expected = "host:  test\n--- each bit on its own, set then read back ---\n\
SEM_FAILCRITICALERRORS     (0x0001)  ok=true last_error=0     read_back=0x0001  -> SETTABLE\n\
SEM_NOALIGNMENTFAULTEXCEPT (0x0004)  ok=false last_error=87    read_back=0x0000  -> REJECTED\n\
\nsettable mask: 0x0001\n\
\n--- one invalid bit alongside two valid ones ---\n\
read back 0x0000  -> the WHOLE call failed; none of the valid bits was installed\n\
\n--- process mode versus thread mode ---\n\
process=0x0001 thread=0x0000  -> INDEPENDENT storage\n\
\n--- irreversible: the alignment bit at process scope ---\n\
(this permanently alters this process, which is why no test does it)\n\
before=0x0000 after restore attempt=0x0004  -> STICKY: the restore was ignored\n";
    assert_eq!(text, expected);
}

#[test]
fn the_cancellation_report_describes_every_attempt_and_concludes() {
    assert_eq!(describe_outcome(CancelOutcome::Wedged), "WEDGED: did not return within 5s");
    assert_eq!(describe_outcome(CancelOutcome::NotFound { code: 1168 }), "returned: found nothing (error 1168)");
    let text = render_cancel(
        CancelOutcome::NotFound { code: 1168 },
        &[CancelOutcome::Cancelled, CancelOutcome::Wedged],
    );
    assert!(text.starts_with("== is CancelSynchronousIo safe to point at a shared thread? ==\n\nwatchdog: 5s per attempt\n\n"), "got {text}");
    assert!(text.contains("  attempt 1: returned: cancelled an operation\n  attempt 2: WEDGED: did not return within 5s\n"), "got {text}");
    assert!(text.contains("\nconclusion:\n  CancelSynchronousIo DID NOT RETURN"), "got {text}");
    let calm = render_cancel(CancelOutcome::Cancelled, &[CancelOutcome::Cancelled]);
    assert!(calm.contains("\nconclusion:\n  every attempt returned on this host"), "got {calm}");
}
