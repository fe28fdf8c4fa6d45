use windows_platform_probes::cancel_io::{outcome_of, CancelOutcome};
use windows_platform_probes::completion_port::{CompletionPortFinding, ReadAttempt};
use windows_platform_probes::device_map::{
    free_letters, target_for, wide, DeviceMapFinding, MapObservation, SubstDrive,
};
use windows_platform_probes::error_mode::bits::{
    FAIL_CRITICAL_ERRORS, NO_ALIGNMENT_FAULT_EXCEPT, NO_GP_FAULT_ERROR_BOX, NO_OPEN_FILE_ERROR_BOX,
};
use windows_platform_probes::error_mode::{
    combined_invalid_installs_nothing, probe_bit, settable_bits, BitOutcome, ProcessVersusThread,
    ThreadModeReading, COMBINED_WITH_INVALID, PROBED_BITS, VALID_PAIR,
};
use windows_platform_probes::handle_state::{
    closing_sentence, control_sentence, disturbance_word, ground_truth, sharing_sentence, CursorObservation,
};
use windows_platform_probes::ioring::{is_available, IoRingSupport, RegistrationObservation, ThreadAgnosticism, FILL, FIXTURE_LEN};
use windows_platform_probes::pool_growth::{
    push_duration, render as render_growth, report as report_growth, GrowthObservation, RaiseObservation,
};

fn names(list: &[&str]) -> Vec<String> {
    list.iter().map(|name| name.to_string()).collect()
}

fn observation(letter: &str, target: Option<&str>, session: Option<(u32, i32)>) -> MapObservation {
    MapObservation { letter: letter.to_string(), target: target.map(str::to_string), logon_session: session }
}

#[test]
fn a_cancel_that_returns_reports_what_it_found() {
    assert_eq!(outcome_of(1, 0), CancelOutcome::Cancelled);
    assert_eq!(outcome_of(0, 1168), CancelOutcome::NotFound { code: 1168 });
    assert!(outcome_of(0, 1168).returned());
    assert!(!CancelOutcome::Wedged.returned());
}

#[test]
fn a_read_succeeds_only_with_the_whole_fixture() {
    let good = ReadAttempt { result_code: 0, bytes: FIXTURE_LEN, first_byte: FILL };
    assert!(good.succeeded());
    assert!(!ReadAttempt { bytes: 1, ..good }.succeeded());
    assert!(!ReadAttempt { first_byte: 0, ..good }.succeeded());
    assert!(!ReadAttempt { result_code: -1, ..good }.succeeded());
    assert_eq!(FILL, b'x');
}

#[test]
fn the_completion_port_findings_need_their_controls() {
    let good = ReadAttempt { result_code: 0, bytes: FIXTURE_LEN, first_byte: FILL };
    let refused = ReadAttempt { result_code: -2147024809, bytes: 0, first_byte: 0 };
    let finding = CompletionPortFinding {
        control_unassociated: good,
        after_iocp_association: refused,
        before_late_association: good,
        after_late_association: refused,
        port_still_works: true,
        before_threadpool_io: good,
        after_threadpool_io: refused,
    };
    assert!(finding.is_valid());
    assert!(finding.association_forecloses_ioring());
    assert!(finding.threadpool_io_forecloses_ioring());
    let broken = CompletionPortFinding { control_unassociated: refused, ..finding };
    assert!(!broken.is_valid());
    assert!(!broken.association_forecloses_ioring());
    assert!(!broken.threadpool_io_forecloses_ioring());
    let open = CompletionPortFinding { after_late_association: good, ..finding };
    assert!(!open.association_forecloses_ioring());
}

#[test]
fn a_multi_sz_target_is_read_as_its_nonempty_entries() {
    let stacked = observation("Q:", Some("\\Device\\A\0\\Device\\B\0\0"), None);
    assert!(stacked.is_found());
    assert_eq!(stacked.entries(), vec!["\\Device\\A".to_string(), "\\Device\\B".to_string()]);
    assert!(!stacked.is_exactly("\\Device\\A"));
    let single = observation("Q:", Some("\\Device\\A"), None);
    assert!(single.is_exactly("\\Device\\A"));
    let absent = observation("Q:", None, None);
    assert!(!absent.is_found());
    assert!(absent.entries().is_empty());
}

#[test]
fn the_device_map_finding_reads_its_three_questions() {
    let finding = DeviceMapFinding {
        own_session: observation("H:", Some("\\Device\\probe"), Some((1, 0))),
        anonymous_session: observation("H:", None, Some((998, 0))),
        target: "\\Device\\probe".to_string(),
    };
    assert!(finding.impersonation_changes_the_map());
    assert!(finding.claim_is_exclusive());
    assert!(finding.sessions_differ());
    let same = DeviceMapFinding {
        own_session: observation("H:", Some("\\Device\\probe"), Some((1, 0))),
        anonymous_session: observation("H:", Some("\\Device\\probe"), Some((1, 0))),
        target: "\\Device\\other".to_string(),
    };
    assert!(!same.impersonation_changes_the_map());
    assert!(!same.claim_is_exclusive());
    assert!(!same.sessions_differ());
}

#[test]
fn free_letters_start_at_h_and_skip_those_in_use() {
    let used = (1u32 << 2) | (1u32 << 7) | (1u32 << 9);
    let letters = free_letters(used);
    assert_eq!(letters.first(), Some(&'I'));
    assert!(!letters.contains(&'J'));
    assert_eq!(letters.len(), 17);
    assert_eq!(free_letters(u32::MAX), Vec::<char>::new());
}

#[test]
fn a_claim_target_names_the_process_label_and_claim() {
    assert_eq!(target_for(42, "map", 7), "\\Device\\HarddiskVolume1\\probe-42-map-7");
    let drive = SubstDrive::new("H:".to_string(), "\\Device\\x".to_string());
    assert_eq!(drive.letter(), "H:");
    assert_eq!(drive.target(), "\\Device\\x");
}

#[test]
fn wide_strings_are_utf16_and_nul_terminated() {
    assert_eq!(wide("H:"), vec![0x48, 0x3a, 0]);
    assert_eq!(wide("😀"), vec![0xd83d, 0xde00, 0]);
}

#[test]
fn each_bit_is_settable_dropped_or_rejected() {
    let reading = ThreadModeReading { set_ok: true, last_error: 0, read_back: FAIL_CRITICAL_ERRORS };
    let settable = probe_bit(FAIL_CRITICAL_ERRORS, reading);
    assert!(settable.is_settable());
    assert!(!settable.is_silently_dropped());
    let dropped = probe_bit(NO_OPEN_FILE_ERROR_BOX, reading);
    assert!(!dropped.is_settable());
    assert!(dropped.is_silently_dropped());
    let rejected = probe_bit(
        NO_ALIGNMENT_FAULT_EXCEPT,
        ThreadModeReading { set_ok: false, last_error: 87, read_back: 0 },
    );
    assert!(!rejected.is_settable() && !rejected.is_silently_dropped());
    assert_eq!(rejected.last_error, 87);
}

#[test]
fn the_settable_mask_holds_exactly_the_settable_bits() {
    let outcomes: Vec<BitOutcome> = PROBED_BITS
        .iter()
        .map(|&bit| {
            let set_ok = bit != NO_ALIGNMENT_FAULT_EXCEPT;
            probe_bit(bit, ThreadModeReading { set_ok, last_error: 0, read_back: if set_ok { bit } else { 0 } })
        })
        .collect();
    assert_eq!(settable_bits(&outcomes), FAIL_CRITICAL_ERRORS | NO_GP_FAULT_ERROR_BOX | NO_OPEN_FILE_ERROR_BOX);
    assert_eq!(settable_bits(&[]), 0);
}

#[test]
fn one_invalid_bit_is_judged_by_what_was_read_back() {
    assert_eq!(COMBINED_WITH_INVALID, 0x0007);
    assert_eq!(combined_invalid_installs_nothing(0), (true, 0));
    assert_eq!(combined_invalid_installs_nothing(VALID_PAIR), (false, VALID_PAIR));
    assert_eq!(combined_invalid_installs_nothing(NO_GP_FAULT_ERROR_BOX), (false, NO_GP_FAULT_ERROR_BOX));
}

#[test]
fn the_thread_mode_is_independent_only_when_the_process_bit_does_not_show_through() {
    let independent = ProcessVersusThread { process_bit: 1, process_mode: 1, thread_mode: 0 };
    assert!(independent.is_independent());
    assert!(!ProcessVersusThread { thread_mode: 1, ..independent }.is_independent());
    assert!(!ProcessVersusThread { process_mode: 0, ..independent }.is_independent());
}

#[test]
fn the_ground_truth_is_both_calls_in_order() {
    let all = ground_truth(&names(&["a", "b"]), &names(&["c"]));
    assert_eq!(all, names(&["a", "b", "c"]));
}

#[test]
fn a_cursor_that_continued_is_told_apart_from_one_that_restarted() {
    let truth = names(&["a", "b", "c", "d"]);
    let continued = CursorObservation { source_first: names(&["a", "b"]), other_next: Ok(names(&["c", "d"])) };
    assert!(continued.continued(&truth));
    assert!(!continued.restarted());
    assert!(continued.left_mid_directory(&truth));
    let restarted = CursorObservation { source_first: names(&["a", "b"]), other_next: Ok(names(&["a", "b"])) };
    assert!(!restarted.continued(&truth));
    assert!(restarted.restarted());
    let failed = CursorObservation { source_first: names(&["a"]), other_next: Err(18) };
    assert!(!failed.continued(&truth));
    assert!(!failed.restarted());
    let drained = CursorObservation { source_first: truth.clone(), other_next: Ok(Vec::new()) };
    assert!(!drained.continued(&truth));
    assert!(!drained.left_mid_directory(&truth));
    let overrun = CursorObservation { source_first: names(&["a", "b", "c"]), other_next: Ok(names(&["d", "e"])) };
    assert!(!overrun.continued(&truth));
}

#[test]
fn a_second_registration_replaces_or_appends() {
    let replaced = RegistrationObservation::from_reads(0, -1);
    assert!(replaced.replaces() && !replaced.appends());
    let appended = RegistrationObservation::from_reads(0, 1);
    assert!(appended.appends() && !appended.replaces());
    assert!(is_available(0) && !is_available(-2147024809));
    assert_eq!(IoRingSupport::Measured(3).measured(), Some(3));
    assert_eq!(IoRingSupport::<u8>::Unavailable.measured(), None);
    assert!(ThreadAgnosticism { submitter_exited: true, result_code: 0 }.survives_submitter_exit());
    assert!(!ThreadAgnosticism { submitter_exited: false, result_code: 0 }.survives_submitter_exit());
    assert!(!ThreadAgnosticism { submitter_exited: true, result_code: -1 }.survives_submitter_exit());
}

#[test]
fn growth_is_read_off_the_arrival_times() {
    let growth = GrowthObservation {
        maximum: 4,
        submitted: 6,
        started_while_blocked: 4,
        distinct_threads: 4,
        arrivals_us: vec![10, 20, 35, 535],
    };
    assert!(growth.saturated());
    assert!(growth.one_thread_each());
    assert_eq!(growth.slowest_arrival(), 535);
    assert_eq!(growth.largest_gap(), 500);
    assert_eq!(growth.throttles_after(100), Some(3));
    assert_eq!(growth.throttles_after(501), None);
    let huge = GrowthObservation { arrivals_us: vec![0, u128::MAX], ..growth.clone() };
    assert_eq!(huge.slowest_arrival(), u64::MAX);
    assert_eq!(huge.largest_gap(), u64::MAX);
    let empty = GrowthObservation { arrivals_us: Vec::new(), ..growth };
    assert_eq!(empty.slowest_arrival(), 0);
    assert_eq!(empty.largest_gap(), 0);
    assert_eq!(empty.throttles_after(0), None);
}

#[test]
fn a_raise_is_tested_against_saturation() {
    let raise = RaiseObservation { base_max: 2, started_before_raise: 2, delay_us: 1000, took_effect: true };
    assert!(raise.saturated_before_raise());
    assert!(!RaiseObservation { started_before_raise: 1, ..raise }.saturated_before_raise());
}

#[test]
fn durations_read_as_debug_writes_them() {
    for (micros, expected) in [
        (0u64, "0ns"),
        (535, "535\u{b5}s"),
        (1_500, "1.5ms"),
        (1_001, "1.001ms"),
        (1_000_000, "1s"),
        (2_000_123, "2.000123s"),
    ] {
        let mut out = String::new();
        push_duration(&mut out, micros);
        assert_eq!(out, expected);
        assert_eq!(out, format!("{:?}", std::time::Duration::from_micros(micros)));
    }
}

#[test]
fn the_growth_report_lists_every_run_and_the_raise() {
    let growth = GrowthObservation {
        maximum: 4,
        submitted: 8,
        started_while_blocked: 4,
        distinct_threads: 4,
        arrivals_us: vec![10, 20, 1_500],
    };
    let mut out = String::new();
    report_growth(&mut out, "P1 growth curve, max 4:", &growth);
    assert_eq!(
        out,
        "P1 growth curve, max 4:\n  max 4 / submitted 8 -> started while blocked 4, distinct threads 4\n  saturated true | one thread each true | slowest arrival 1.5ms\n  arrivals (us): [10, 20, 1500]\n"
    );
    let raise = RaiseObservation { base_max: 2, started_before_raise: 1, delay_us: 535, took_effect: false };
    let text = render_growth(&growth, &growth, &growth, raise);
    assert!(text.starts_with("== how a blocked pool grows ==\n\nP1 growth curve, max 4:\n"), "got {text}");
    assert!(text.contains("  NOT saturated before the raise (1 of 2 started), so the delay\n"), "got {text}");
    assert!(text.contains("  elapsed: 535\u{b5}s\n  the settle window expired with no extra callback started.\n"), "got {text}");
    assert!(text.ends_with("Re-run on another architecture rather than assuming they carry over.\n"));
}

#[test]
fn the_handle_findings_name_what_the_cursor_did() {
    let truth = names(&["a", "b", "c", "d"]);
    let shared = CursorObservation { source_first: names(&["a", "b"]), other_next: Ok(names(&["c"])) };
    assert_eq!(sharing_sentence(&shared, &truth), "SHARED: the duplicate continued where the source stopped");
    let restarted = CursorObservation { source_first: names(&["a", "b"]), other_next: Ok(names(&["a", "b"])) };
    assert_eq!(sharing_sentence(&restarted, &truth), "INDEPENDENT: the duplicate restarted");
    assert_eq!(
        control_sentence(&restarted),
        "INDEPENDENT, as expected -- so the result above is attributable to duplication"
    );
    let failed = CursorObservation { source_first: names(&["a", "b"]), other_next: Err(5) };
    assert_eq!(sharing_sentence(&failed, &truth), "UNCLEAR: neither a clean continuation nor a clean restart");
    assert_eq!(control_sentence(&failed), "UNEXPECTED: a separate open did not start from the beginning");
    assert_eq!(closing_sentence(true), "no: the source kept enumerating");
    assert_eq!(closing_sentence(false), "YES: the source was broken, so owning a duplicate is unsafe to drop");
    assert_eq!(disturbance_word(true), "DISTURBED");
    assert_eq!(disturbance_word(false), "undisturbed");
}
