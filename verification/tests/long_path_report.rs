use windows_platform_probes::long_path::{Attempt, Observation, Shape, ERROR_PATH_NOT_FOUND};
use windows_platform_probes::long_path_report::{body, preamble, render, verdict};

/// `ERROR_ACCESS_DENIED`.
const ERROR_ACCESS_DENIED: u32 = 5;

const SHAPES: [Shape; 3] = [Shape::Plain, Shape::DotDot, Shape::ForwardSlash];

/// An attempt that landed under the ceiling.
fn below(shape: Shape, opened: bool) -> Attempt {
    Attempt {
        shape,
        resolved_len: 78,
        over_max_path: false,
        opened,
        error: if opened { 0 } else { ERROR_PATH_NOT_FOUND },
    }
}

/// An attempt that landed over the ceiling.
fn above(shape: Shape, opened: bool, error: u32) -> Attempt {
    Attempt {
        shape,
        resolved_len: 429,
        over_max_path: true,
        opened,
        error: if opened { 0 } else { error },
    }
}

/// The three below-ceiling attempts of a healthy run: every shape opened.
fn healthy_below() -> Vec<Attempt> {
    SHAPES.into_iter().map(|shape| below(shape, true)).collect()
}

/// The three above-ceiling attempts, all with the same outcome.
fn all_above(opened: bool, error: u32) -> Vec<Attempt> {
    SHAPES
        .into_iter()
        .map(|shape| above(shape, opened, error))
        .collect()
}

fn observation(
    manifest_aware: bool,
    registry_enabled: bool,
    attempts: Vec<Attempt>,
) -> Observation {
    Observation {
        manifest_aware,
        registry_enabled: Some(registry_enabled),
        attempts,
        apparatus_error: None,
    }
}

/// A run in which everything is in place and the ceiling genuinely lifted.
fn opted_in_and_lifted() -> Observation {
    let mut attempts = healthy_below();
    attempts.extend(all_above(true, 0));
    observation(true, true, attempts)
}

#[test]
fn a_refusal_without_the_opt_in_is_not_evidence_against_the_documentation() {
    let mut attempts = healthy_below();
    attempts.extend(all_above(false, ERROR_PATH_NOT_FOUND));
    let text = verdict(&observation(false, true, attempts));

    assert!(
        text.contains("BASELINE"),
        "an un-opted-in refusal is the baseline the opted-in half is read against: {text}"
    );
    assert!(
        !text.contains("documented reading is wrong"),
        "nothing here bears on the documentation, which describes the opted-in case: {text}"
    );
    assert!(
        text.contains("longPathAware"),
        "the report must name which half was missing, or the reader cannot tell: {text}"
    );
}

#[test]
fn a_refusal_with_the_opt_in_in_effect_is_evidence_against_the_documentation() {
    let mut attempts = healthy_below();
    attempts.extend(all_above(false, ERROR_PATH_NOT_FOUND));
    let text = verdict(&observation(true, true, attempts));

    assert!(
        text.contains("documented reading is wrong"),
        "with both halves in effect a refusal *is* the counter-example: {text}"
    );
    assert!(
        !text.contains("BASELINE"),
        "this run opted in, so it is not the baseline: {text}"
    );
}

#[test]
fn a_ceiling_that_lifts_without_the_opt_in_is_not_credited_to_the_opt_in() {
    let text = verdict(&opted_in_and_lifted_but(false, true));

    assert!(
        text.contains("UNEXPECTED"),
        "a ceiling raised with no opt-in must be flagged as unexpected: {text}"
    );
    assert!(
        !text.contains("No evidence of a prefix-then-parse"),
        "that conclusion is about how the opt-in behaves, and it was not on: {text}"
    );
}

/// [`opted_in_and_lifted`] with the two halves of the opt-in overridden.
fn opted_in_and_lifted_but(manifest_aware: bool, registry_enabled: bool) -> Observation {
    Observation {
        manifest_aware,
        registry_enabled: Some(registry_enabled),
        ..opted_in_and_lifted()
    }
}

#[test]
fn a_shape_never_tried_below_the_ceiling_is_not_reported_as_a_fault() {
    let attempts = vec![
        below(Shape::Plain, true),
        above(Shape::DotDot, true, 0),
        below(Shape::ForwardSlash, true),
        above(Shape::Plain, true, 0),
        above(Shape::DotDot, true, 0),
        above(Shape::ForwardSlash, true, 0),
    ];
    let text = verdict(&observation(true, true, attempts));

    assert!(
        text.contains("never tried"),
        "the missing baseline is the fact, and it is not a failure: {text}"
    );
    assert!(
        !text.contains("apparatus is wrong"),
        "nothing failed, so naming a fault sends the reader hunting for one: {text}"
    );
}

#[test]
fn a_shape_that_failed_below_the_ceiling_is_reported_as_a_fault() {
    let attempts = vec![
        below(Shape::Plain, true),
        below(Shape::DotDot, false),
        below(Shape::ForwardSlash, true),
        above(Shape::Plain, false, ERROR_PATH_NOT_FOUND),
        above(Shape::DotDot, false, ERROR_PATH_NOT_FOUND),
        above(Shape::ForwardSlash, false, ERROR_PATH_NOT_FOUND),
    ];
    let text = verdict(&observation(true, true, attempts));

    assert!(
        text.contains("apparatus is wrong"),
        "a shape failing below the ceiling is a broken apparatus: {text}"
    );
    assert!(
        !text.contains("documented reading is wrong"),
        "a broken apparatus cannot support a claim about the documentation: {text}"
    );
}

#[test]
fn a_long_failure_that_is_not_a_length_refusal_yields_no_verdict() {
    let mut attempts = healthy_below();
    attempts.extend(all_above(false, ERROR_ACCESS_DENIED));
    let text = verdict(&observation(true, true, attempts));

    assert!(
        text.contains("NO VERDICT") && text.contains("not a length refusal"),
        "an access denial says nothing about the ceiling: {text}"
    );
    assert!(
        !text.contains("documented reading is wrong"),
        "that headline needs a length refusal, which this is not: {text}"
    );
    assert!(
        text.contains(&format!("(error {ERROR_ACCESS_DENIED})")),
        "the unexpected error must be named, or it cannot be chased: {text}"
    );
}

#[test]
fn a_reference_shape_never_tried_above_the_ceiling_yields_no_verdict() {
    let attempts = vec![
        below(Shape::Plain, true),
        below(Shape::DotDot, true),
        below(Shape::ForwardSlash, true),
        below(Shape::Plain, true),
        above(Shape::DotDot, false, ERROR_PATH_NOT_FOUND),
        below(Shape::ForwardSlash, true),
    ];
    let text = verdict(&observation(true, true, attempts));

    assert!(
        text.contains("NO VERDICT"),
        "with no plain attempt above the ceiling there is nothing to conclude: {text}"
    );
    assert!(
        !text.contains("even the plain shape was refused"),
        "plain was never tried above the ceiling, so it was not refused there: {text}"
    );
}

#[test]
fn the_sharp_edge_names_only_shapes_that_worked_below_the_ceiling() {
    let attempts = vec![
        below(Shape::Plain, true),
        below(Shape::DotDot, true),
        below(Shape::ForwardSlash, true),
        above(Shape::Plain, true, 0),
        above(Shape::DotDot, false, ERROR_PATH_NOT_FOUND),
        above(Shape::ForwardSlash, true, 0),
    ];
    let text = verdict(&observation(true, true, attempts));

    assert!(
        text.contains("SHARP EDGE") && text.contains(Shape::DotDot.label()),
        "`..` worked below and failed above, which is exactly the sharp edge: {text}"
    );
    assert!(
        !text.contains(Shape::ForwardSlash.label()),
        "forward slashes resolved past the ceiling, so naming them is false: {text}"
    );
}

#[test]
fn a_fully_opted_in_run_that_lifts_reports_no_prefix_then_parse() {
    let text = verdict(&opted_in_and_lifted());

    assert!(
        text.contains("No evidence of a prefix-then-parse"),
        "every shape resolved past the ceiling, which is the negative result: {text}"
    );
    assert!(
        !text.contains("NO VERDICT") && !text.contains("SHARP EDGE"),
        "nothing was withheld and nothing broke: {text}"
    );
}

#[test]
fn a_run_with_no_long_attempt_tested_nothing_and_says_so() {
    let text = verdict(&observation(true, true, healthy_below()));

    assert!(
        text.contains("tested nothing"),
        "without an attempt past the ceiling the run establishes nothing: {text}"
    );
    assert!(
        !text.contains("lifted") && !text.contains("SHARP EDGE"),
        "no conclusion is available from attempts that never crossed: {text}"
    );
}

#[test]
fn an_absent_registry_half_is_named_even_when_the_manifest_is_present() {
    let mut attempts = healthy_below();
    attempts.extend(all_above(false, ERROR_PATH_NOT_FOUND));
    let text = verdict(&observation(true, false, attempts));

    assert!(
        text.contains("BASELINE"),
        "one half is not an opt-in, so this is still the baseline: {text}"
    );
    assert!(
        text.contains("LongPathsEnabled"),
        "the missing half is the machine setting, and must be the one named: {text}"
    );
    assert!(
        !text.contains("no `longPathAware` manifest"),
        "this binary *has* the manifest; naming it sends the reader to the wrong half: {text}"
    );
}

#[test]
fn both_halves_absent_are_reported_as_neither_rather_than_as_one() {
    let mut attempts = healthy_below();
    attempts.extend(all_above(false, ERROR_PATH_NOT_FOUND));
    let text = verdict(&observation(false, false, attempts));

    assert!(
        text.contains("BASELINE") && text.contains("neither half"),
        "with both absent the report must say so, not pick one: {text}"
    );
    assert!(
        !text.contains("LongPathsEnabled") && !text.contains("no `longPathAware` manifest"),
        "naming a single half implies the other was present: {text}"
    );
}

#[test]
fn a_broken_apparatus_outranks_a_missing_baseline() {
    let attempts = vec![
        below(Shape::Plain, false),
        above(Shape::DotDot, true, 0),
        below(Shape::ForwardSlash, true),
        above(Shape::Plain, false, ERROR_PATH_NOT_FOUND),
        above(Shape::DotDot, true, 0),
        above(Shape::ForwardSlash, true, 0),
    ];
    let text = verdict(&observation(true, true, attempts));

    assert!(
        text.contains("apparatus is wrong") && text.contains(Shape::Plain.label()),
        "the fault is the cause and must be what the reader is told: {text}"
    );
    assert!(
        !text.contains("never tried"),
        "the missing baseline is a consequence here, and would hide the fault: {text}"
    );
}

#[test]
fn a_run_with_nothing_below_the_ceiling_claims_nothing_about_the_apparatus() {
    let attempts = all_above(false, ERROR_PATH_NOT_FOUND);
    let text = verdict(&observation(true, true, attempts));

    assert!(
        text.contains("No attempt landed below"),
        "with nothing under the ceiling that is the fact to report: {text}"
    );
    assert!(
        text.contains("says nothing about the apparatus"),
        "an untested apparatus must be described as untested, not as sound: {text}"
    );
    assert!(
        !text.contains("did land below the ceiling opened"),
        "nothing landed below the ceiling, so that claim has no subject: {text}"
    );
    assert!(
        !text.contains("apparatus fault:"),
        "the run never exercised the apparatus, so it cannot clear it: {text}"
    );
}

#[test]
fn a_run_with_something_below_the_ceiling_still_clears_the_apparatus() {
    let attempts = vec![
        below(Shape::Plain, true),
        above(Shape::DotDot, false, ERROR_PATH_NOT_FOUND),
        below(Shape::ForwardSlash, true),
        above(Shape::Plain, false, ERROR_PATH_NOT_FOUND),
        above(Shape::ForwardSlash, false, ERROR_PATH_NOT_FOUND),
    ];
    let text = verdict(&observation(true, true, attempts));

    assert!(
        text.contains("did land below the ceiling opened") && text.contains("apparatus fault:"),
        "plain and forward slashes opened below, so the apparatus is demonstrably sound: {text}"
    );
    assert!(
        !text.contains("No attempt landed below"),
        "two attempts did land below the ceiling: {text}"
    );
}

/// The report body for an observation, as a string.
fn body_of(observation: &Observation) -> String {
    let mut out = String::new();
    body(&mut out, observation);
    out
}

#[test]
fn the_ceiling_column_prints_the_number_it_actually_compares() {
    let text = body_of(&observation(true, true, healthy_below()));

    assert!(
        text.contains("> 259"),
        "the column must name the ceiling it compares against: {text}"
    );
    assert!(
        !text.contains("> MAX"),
        "`> MAX` is read as 'over 260', which is the one wrong reading: {text}"
    );
}

#[test]
fn a_not_found_below_the_ceiling_is_not_called_a_length_refusal() {
    let attempts = vec![below(Shape::Plain, false)];
    let text = body_of(&observation(true, true, attempts));

    assert!(
        text.contains("BELOW the ceiling") && text.contains("apparatus is wrong"),
        "a not-found under the ceiling is an apparatus fault: {text}"
    );
    assert!(
        !text.contains("this is the length refusal"),
        "length is the one thing that annotation asserts and this row is not over: {text}"
    );
}

#[test]
fn a_not_found_above_the_ceiling_is_called_a_length_refusal() {
    let attempts = vec![above(Shape::Plain, false, ERROR_PATH_NOT_FOUND)];
    let text = body_of(&observation(true, true, attempts));

    assert!(
        text.contains("this is the length refusal"),
        "over the ceiling, a not-found on a file that exists is the length refusal: {text}"
    );
}

#[test]
fn an_absent_registry_half_is_flagged_before_any_row_is_read() {
    let text = body_of(&observation(true, false, healthy_below()));

    let warning = text
        .find("machine half of the opt-in is absent")
        .expect("the absent registry half must be reported");
    let table = text
        .find("shape")
        .expect("the table header must be present");
    assert!(
        warning < table,
        "the warning must precede the rows it qualifies: {text}"
    );
}

#[test]
fn an_apparatus_failure_stops_the_report_before_the_rows() {
    let attempts = vec![above(Shape::Plain, false, ERROR_PATH_NOT_FOUND)];
    let observation = Observation {
        apparatus_error: Some("could not build the tree".to_string()),
        ..observation(true, true, attempts)
    };
    let text = body_of(&observation);

    assert!(
        text.contains("APPARATUS FAILED") && text.contains("could not build the tree"),
        "the failure and its cause must both be reported: {text}"
    );
    assert!(
        !text.contains("shape") && !text.contains("REFUSED"),
        "rows gathered by a broken apparatus must not be shown at all: {text}"
    );
}

#[test]
fn a_refused_run_claims_nothing_about_the_registry() {
    let observation = Observation {
        manifest_aware: true,
        registry_enabled: None,
        attempts: Vec::new(),
        apparatus_error: Some("%TMP% is too long".to_string()),
    };
    let text = body_of(&observation);

    assert!(
        text.contains("not consulted"),
        "an unread setting must be reported as unread: {text}"
    );
    assert!(
        !text.contains("unset or 0"),
        "that is a claim about the machine, and no query was issued: {text}"
    );
    assert!(
        !text.contains("machine half of the opt-in is absent"),
        "warning that it is absent asserts the same unmade measurement: {text}"
    );
    assert!(
        text.contains("APPARATUS FAILED"),
        "the reason the run established nothing must still be reported: {text}"
    );
}

#[test]
fn a_registry_half_that_was_read_and_is_off_is_still_flagged() {
    let text = body_of(&observation(true, false, healthy_below()));

    assert!(
        text.contains("machine half of the opt-in is absent"),
        "a registry half that was read and is off is a real finding: {text}"
    );
    assert!(
        text.contains("unset or 0") && !text.contains("not consulted"),
        "it was consulted, and the report should say what it found: {text}"
    );
}

#[test]
fn a_shape_that_cannot_survive_verbatim_parsing_is_not_called_a_length_refusal() {
    let attempts = vec![above(Shape::DotDot, false, ERROR_PATH_NOT_FOUND)];
    let text = body_of(&observation(true, true, attempts));

    assert!(
        text.contains("either the length refusal or this shape ceasing to"),
        "for a shape `\\\\?\\` would break, the cause is genuinely undecided here: {text}"
    );
    assert!(
        !text.contains("so this is the length refusal"),
        "asserting the length refusal would rule out the sharp edge by fiat: {text}"
    );
}

#[test]
fn the_table_prints_each_row_in_its_columns() {
    let attempts = vec![below(Shape::Plain, true), above(Shape::DotDot, false, ERROR_PATH_NOT_FOUND)];
    let text = body_of(&observation(true, true, attempts));
    let expected_head = "manifest longPathAware : yes\nLongPathsEnabled       : 1\n\nshape              resolved    > 259  result     error\nplain                    78       no  opened     \nwith `..`               429      yes  REFUSED    3 (not-found; either the length refusal or this shape ceasing to resolve past the ceiling -- the verdict below decides which)\n\n";
    assert!(text.starts_with(expected_head), "got {text}");
    assert!(text.ends_with(".\n"), "got {text}");
}

#[test]
fn a_refused_run_reports_only_its_reason() {
    let observation = Observation {
        manifest_aware: false,
        registry_enabled: None,
        attempts: Vec::new(),
        apparatus_error: Some("%TMP% is too long".to_string()),
    };
    assert_eq!(
        body_of(&observation),
        "manifest longPathAware : no\nLongPathsEnabled       : not consulted (the run was refused first)\n\n*** APPARATUS FAILED: %TMP% is too long\n*** Nothing below says anything about the machine.\n"
    );
}

#[test]
fn the_report_opens_with_the_banner_and_the_question() {
    let mut out = String::new();
    preamble(&mut out, "host:  x86_64 4p/4c smt- L-[4] ec[0:4] numa[4]");
    assert_eq!(
        out,
        "host:  x86_64 4p/4c smt- L-[4] ec[0:4] numa[4]\n== does the long-path opt-in lift MAX_PATH for a relative path? ==\n\n"
    );
    let mut whole = String::new();
    render(&mut whole, "host:  test", &opted_in_and_lifted());
    assert!(whole.starts_with("host:  test\n== does"), "got {whole}");
    assert!(whole.ends_with(&(verdict(&opted_in_and_lifted()) + "\n")), "got {whole}");
}

#[test]
fn the_lifted_verdict_is_stated_in_full() {
    assert_eq!(
        verdict(&opted_in_and_lifted()),
        "-- MAX_PATH was lifted for a relative path, and the path was still parsed\nnormally: `..` and forward slashes resolved past the ceiling exactly as\nthey do below it. No evidence of a prefix-then-parse implementation."
    );
}
