//! The report of one long-path run: the table of attempts, and the verdict
//! that says what the rows mean.
//!
//! The verdict turns data into English, and English can be false in ways a
//! type cannot see, so every sentence it may say is written down below with
//! the exact conditions under which it is said.

use vstd::prelude::*;

use crate::long_path::{refused, Attempt, Observation, Shape, is_refusal, MAX_PATH_CONTENT};
use crate::text::{
    dec, join_text, pad_left, pad_right, push_dec, push_joined, push_padded_left, push_padded_right,
    push_str, texts,
};

verus! {

/// Whether `shape` was tried below the ceiling.
pub open spec fn tried_below(attempts: Seq<Attempt>, shape: Shape) -> bool {
    exists|i: int| 0 <= i < attempts.len() && attempts[i].shape == shape && !attempts[i].over_max_path
}

/// Whether `shape` opened below the ceiling.
pub open spec fn opened_below(attempts: Seq<Attempt>, shape: Shape) -> bool {
    exists|i: int|
        0 <= i < attempts.len() && attempts[i].shape == shape && !attempts[i].over_max_path
            && attempts[i].opened
}

/// Whether any attempt went past the ceiling.
pub open spec fn any_long(attempts: Seq<Attempt>) -> bool {
    exists|i: int| 0 <= i < attempts.len() && attempts[i].over_max_path
}

/// Whether any attempt landed below the ceiling.
pub open spec fn any_below(attempts: Seq<Attempt>) -> bool {
    exists|i: int| 0 <= i < attempts.len() && !attempts[i].over_max_path
}

/// Whether the plain shape was tried past the ceiling.
pub open spec fn plain_long(attempts: Seq<Attempt>) -> bool {
    exists|i: int| 0 <= i < attempts.len() && attempts[i].over_max_path && attempts[i].shape == Shape::Plain
}

/// Whether the plain shape opened past the ceiling.
pub open spec fn plain_long_opened(attempts: Seq<Attempt>) -> bool {
    exists|i: int|
        0 <= i < attempts.len() && attempts[i].over_max_path && attempts[i].shape == Shape::Plain
            && attempts[i].opened
}

/// The labels of the three shapes, in order, that satisfy `keep`.
pub open spec fn shape_labels(keep: spec_fn(Shape) -> bool) -> Seq<Seq<char>> {
    (if keep(Shape::Plain) { seq![Shape::Plain.label_text()] } else { Seq::empty() }) + (if keep(
        Shape::DotDot,
    ) {
        seq![Shape::DotDot.label_text()]
    } else {
        Seq::empty()
    }) + (if keep(Shape::ForwardSlash) { seq![Shape::ForwardSlash.label_text()] } else { Seq::empty() })
}

/// The shapes tried below the ceiling that did not open there.
pub open spec fn broken_shapes(attempts: Seq<Attempt>) -> Seq<Seq<char>> {
    shape_labels(|shape: Shape| tried_below(attempts, shape) && !opened_below(attempts, shape))
}

/// The shapes never tried below the ceiling.
pub open spec fn untried_shapes(attempts: Seq<Attempt>) -> Seq<Seq<char>> {
    shape_labels(|shape: Shape| !tried_below(attempts, shape))
}

/// How an unexplained failure is named: its shape and its error.
pub open spec fn unexplained_entry(attempt: Attempt) -> Seq<char> {
    attempt.shape.label_text() + " (error "@ + dec(attempt.error as nat) + ")"@
}

/// The attempts past the ceiling that failed for something other than a
/// length refusal, in order.
pub open spec fn unexplained(attempts: Seq<Attempt>) -> Seq<Seq<char>>
    decreases attempts.len(),
{
    if attempts.len() == 0 {
        Seq::empty()
    } else {
        let a = attempts.last();
        let rest = unexplained(attempts.drop_last());
        if a.over_max_path && !a.opened && !refused(a) {
            rest.push(unexplained_entry(a))
        } else {
            rest
        }
    }
}

/// The shapes that `\\?\` parsing would break and that failed past the
/// ceiling, in the order of the attempts.
pub open spec fn reparsing(attempts: Seq<Attempt>) -> Seq<Seq<char>>
    decreases attempts.len(),
{
    if attempts.len() == 0 {
        Seq::empty()
    } else {
        let a = attempts.last();
        let rest = reparsing(attempts.drop_last());
        if a.over_max_path && a.shape != Shape::Plain && !a.opened {
            rest.push(a.shape.label_text())
        } else {
            rest
        }
    }
}

/// Which half of the opt-in was missing, if either was.
pub open spec fn missing_half(manifest_aware: bool, registry_enabled: Option<bool>) -> Option<Seq<char>> {
    match registry_enabled {
        None => Some("the machine's `LongPathsEnabled` was never read"@),
        Some(true) => if manifest_aware {
            None
        } else {
            Some("this binary carries no `longPathAware` manifest"@)
        },
        Some(false) => if manifest_aware {
            Some("the machine's `LongPathsEnabled` is unset or 0"@)
        } else {
            Some("neither half of the opt-in was in effect"@)
        },
    }
}

/// The continuation of a verdict line.
pub open spec fn indent() -> Seq<char> {
    "\n   "@
}

/// Which sentence a verdict is.
#[derive(Clone, Copy, Debug, PartialEq, Eq, Structural)]
pub enum VerdictKind {
    /// No attempt went past the ceiling.
    TestedNothing,
    /// A shape failed below the ceiling: the apparatus is the finding.
    BrokenApparatus,
    /// Some shape was never tried below the ceiling, and nothing was.
    NothingBelow,
    /// Some shape was never tried below the ceiling.
    NoBaseline,
    /// The plain shape was never tried past the ceiling.
    NoReference,
    /// A long attempt failed for something other than a length refusal.
    Unexplained,
    /// The ceiling lifted without the opt-in in effect.
    Unexpected,
    /// The ceiling held without the opt-in in effect: the baseline.
    Baseline,
    /// The ceiling held with the opt-in in effect.
    NotLifted,
    /// The ceiling lifted and every shape still resolved.
    Lifted,
    /// The ceiling lifted and some shapes stopped resolving.
    SharpEdge,
}

/// Whether both halves of the opt-in were in effect.
pub open spec fn opted_in(manifest_aware: bool, registry_enabled: Option<bool>) -> bool {
    manifest_aware && registry_enabled == Some(true)
}

/// Which verdict a run earns. Each is guarded by everything it presumes:
/// nothing is said about the ceiling without an attempt past it; a shape
/// that failed below the ceiling makes the apparatus the finding; a missing
/// baseline is named as such; the plain shape must have been tried past the
/// ceiling; every long failure must be a length refusal; and only with both
/// halves of the opt-in in effect does a result bear on the documented
/// reading.
pub open spec fn verdict_kind(manifest_aware: bool, registry_enabled: Option<bool>, attempts: Seq<Attempt>) -> VerdictKind {
    if !any_long(attempts) {
        VerdictKind::TestedNothing
    } else if broken_shapes(attempts).len() > 0 {
        VerdictKind::BrokenApparatus
    } else if untried_shapes(attempts).len() > 0 && !any_below(attempts) {
        VerdictKind::NothingBelow
    } else if untried_shapes(attempts).len() > 0 {
        VerdictKind::NoBaseline
    } else if !plain_long(attempts) {
        VerdictKind::NoReference
    } else if unexplained(attempts).len() > 0 {
        VerdictKind::Unexplained
    } else if missing_half(manifest_aware, registry_enabled) is Some {
        if plain_long_opened(attempts) {
            VerdictKind::Unexpected
        } else {
            VerdictKind::Baseline
        }
    } else if !plain_long_opened(attempts) {
        VerdictKind::NotLifted
    } else if reparsing(attempts).len() == 0 {
        VerdictKind::Lifted
    } else {
        VerdictKind::SharpEdge
    }
}

/// What the rows of a run mean, stated rather than left to the reader: the
/// sentence of [`verdict_kind`], with the shapes, errors or missing half it
/// names.
pub open spec fn verdict_text(manifest_aware: bool, registry_enabled: Option<bool>, attempts: Seq<Attempt>) -> Seq<char> {
    let kind = verdict_kind(manifest_aware, registry_enabled, attempts);
    if kind == VerdictKind::TestedNothing {
        "-- no attempt exceeded MAX_PATH, so this run tested nothing."@
    } else if kind == VerdictKind::BrokenApparatus {
        "-- NO VERDICT. These shapes were tried below the ceiling and did not open:"@ + indent()
            + join_text(broken_shapes(attempts), ", "@)
            + ". The apparatus is wrong, so nothing here is a finding about"@ + indent()
            + "the ceiling."@
    } else if kind == VerdictKind::NothingBelow {
        "-- NO VERDICT. No attempt landed below "@ + dec(MAX_PATH_CONTENT as nat)
            + " on this run, so there is no"@ + indent()
            + "baseline to read the long case against for any shape: "@ + join_text(
            untried_shapes(attempts),
            ", "@,
        ) + "."@ + indent() + "This says nothing about the apparatus either way -- it was never"@
            + indent() + "exercised under the ceiling. The shallow depth is meant to land"@ + indent()
            + "there, so either it or the segment length has been changed."@
    } else if kind == VerdictKind::NoBaseline {
        "-- NO VERDICT. These shapes were never tried *below* "@ + dec(MAX_PATH_CONTENT as nat)
            + " on this run,"@ + indent() + "so there is no baseline to read the long case against: "@
            + join_text(untried_shapes(attempts), ", "@) + "."@ + indent()
            + "Every attempt that did land below the ceiling opened, so this is not an"@ + indent()
            + "apparatus fault: the shallow depth is meant to land under the ceiling"@ + indent()
            + "for every shape, and for these it did not."@
    } else if kind == VerdictKind::NoReference {
        "-- NO VERDICT. No plain-shape attempt exceeded MAX_PATH, so the reference"@ + indent()
            + "shape was never tested against the ceiling on this run and there is"@ + indent()
            + "nothing to say about lifting."@
    } else if kind == VerdictKind::Unexplained {
        "-- NO VERDICT. These attempts past the ceiling failed for something that is"@ + indent()
            + "not a length refusal, so nothing here bears on MAX_PATH: "@ + join_text(
            unexplained(attempts),
            ", "@,
        ) + "."@
    } else if kind == VerdictKind::Unexpected || kind == VerdictKind::Baseline {
        let missing = missing_half(manifest_aware, registry_enabled).unwrap();
        if kind == VerdictKind::Unexpected {
            "-- UNEXPECTED, and not a verdict on the opt-in. A relative path resolved"@ + indent()
                + "past the ceiling while the opt-in was NOT in effect:"@ + indent() + missing + "."@
                + indent() + "Nothing here credits the opt-in with that, because it was not on."@
                + indent() + "Establish why this host lifts the ceiling unopted before reading any"@
                + indent() + "comparison against it."@
        } else {
            "-- BASELINE, not a finding. `MAX_PATH` applied to a relative path past the"@ + indent()
                + "ceiling, which is what it does when the opt-in is not in effect:"@ + indent()
                + missing + "."@ + indent()
                + "This is the case the opted-in half is read against; it neither supports"@
                + indent() + "nor contradicts the documented reading."@
        }
    } else if kind == VerdictKind::NotLifted {
        "-- MAX_PATH was NOT lifted for a relative path: the opt-in was in effect --"@ + indent()
            + "manifest and registry both -- and even the plain shape was refused past"@ + indent()
            + "the ceiling. The documented reading is wrong for this configuration."@
    } else if kind == VerdictKind::Lifted {
        "-- MAX_PATH was lifted for a relative path, and the path was still parsed\n"@
            + "normally: `..` and forward slashes resolved past the ceiling exactly as\n"@
            + "they do below it. No evidence of a prefix-then-parse implementation."@
    } else {
        "-- SHARP EDGE. Length was lifted, but these shapes stopped resolving past\n"@
            + "the ceiling while working below it: "@ + join_text(reparsing(attempts), ", "@)
            + ".\n"@ + "That is the signature of regularize-then-prefix: `\\\\?\\` disables exactly\n"@
            + "these features, so a relative path changes meaning at MAX_PATH."@
    }
}

/// Whether a verdict draws a conclusion about the ceiling.
pub open spec fn concludes(kind: VerdictKind) -> bool {
    kind == VerdictKind::Unexpected || kind == VerdictKind::Baseline || kind == VerdictKind::NotLifted
        || kind == VerdictKind::Lifted || kind == VerdictKind::SharpEdge
}

/// Whether every long attempt that failed was refused for length.
pub open spec fn long_failures_are_refusals(attempts: Seq<Attempt>) -> bool {
    forall|i: int|
        0 <= i < attempts.len() && attempts[i].over_max_path && !attempts[i].opened ==> #[trigger] refused(
            attempts[i],
        )
}

proof fn lemma_no_unexplained(attempts: Seq<Attempt>)
    requires
        unexplained(attempts).len() == 0,
    ensures
        long_failures_are_refusals(attempts),
    decreases attempts.len(),
{
    if attempts.len() > 0 {
        lemma_no_unexplained(attempts.drop_last());
        assert forall|i: int|
            0 <= i < attempts.len() && attempts[i].over_max_path && !attempts[i].opened implies #[trigger] refused(
            attempts[i],
        ) by {
            if i < attempts.len() - 1 {
                assert(attempts.drop_last()[i] == attempts[i]);
            }
        }
    }
}

/// The shapes a sharp edge names are shapes `\\?\` would break that failed
/// past the ceiling.
pub proof fn lemma_reparsing_names_long_failures(attempts: Seq<Attempt>, k: int)
    requires
        0 <= k < reparsing(attempts).len(),
    ensures
        exists|i: int|
            0 <= i < attempts.len() && attempts[i].over_max_path && attempts[i].shape != Shape::Plain
                && !attempts[i].opened && #[trigger] attempts[i].shape.label_text() == reparsing(attempts)[k],
    decreases attempts.len(),
{
    let rest = reparsing(attempts.drop_last());
    if k < rest.len() {
        lemma_reparsing_names_long_failures(attempts.drop_last(), k);
        let i = choose|i: int|
            0 <= i < attempts.drop_last().len() && attempts.drop_last()[i].over_max_path
                && attempts.drop_last()[i].shape != Shape::Plain && !attempts.drop_last()[i].opened
                && #[trigger] attempts.drop_last()[i].shape.label_text() == rest[k];
        assert(attempts[i] == attempts.drop_last()[i]);
    } else {
        let last = attempts.len() - 1;
        assert(attempts[last].shape.label_text() == reparsing(attempts)[k]);
    }
}

/// A sharp edge leaves no failure out: every shape `\\?\` would break that
/// failed past the ceiling is named among the shapes that stopped resolving.
pub proof fn lemma_reparsing_misses_no_long_failure(attempts: Seq<Attempt>, i: int)
    requires
        0 <= i < attempts.len(),
        attempts[i].over_max_path,
        attempts[i].shape != Shape::Plain,
        !attempts[i].opened,
    ensures
        reparsing(attempts).contains(attempts[i].shape.label_text()),
    decreases attempts.len(),
{
    let rest = reparsing(attempts.drop_last());
    if i < attempts.len() - 1 {
        assert(attempts.drop_last()[i] == attempts[i]);
        lemma_reparsing_misses_no_long_failure(attempts.drop_last(), i);
        let k = choose|k: int| 0 <= k < rest.len() && rest[k] == attempts[i].shape.label_text();
        if reparsing(attempts) != rest {
            assert(reparsing(attempts) == rest.push(attempts.last().shape.label_text()));
            assert(reparsing(attempts)[k] == rest[k]);
        }
        assert(reparsing(attempts)[k] == attempts[i].shape.label_text());
    } else {
        let all = reparsing(attempts);
        assert(all == rest.push(attempts[i].shape.label_text()));
        assert(all[rest.len() as int] == attempts[i].shape.label_text());
    }
}

/// Only with both halves of the opt-in in effect does a verdict bear on the
/// documented reading; without them a result past the ceiling is the
/// baseline, or an unexpected lift that is not credited to the opt-in.
pub proof fn lemma_opt_in_decides_what_a_result_means(
    manifest_aware: bool,
    registry_enabled: Option<bool>,
    attempts: Seq<Attempt>,
)
    ensures
        ({
            let kind = verdict_kind(manifest_aware, registry_enabled, attempts);
            &&& (kind == VerdictKind::NotLifted || kind == VerdictKind::Lifted || kind == VerdictKind::SharpEdge)
                ==> opted_in(manifest_aware, registry_enabled)
            &&& (kind == VerdictKind::Unexpected || kind == VerdictKind::Baseline) ==> !opted_in(
                manifest_aware,
                registry_enabled,
            )
            &&& concludes(kind) ==> (opted_in(manifest_aware, registry_enabled) <==> !(kind
                == VerdictKind::Unexpected || kind == VerdictKind::Baseline))
        }),
{
}

/// A verdict that draws any conclusion about the ceiling rests on every
/// control: every shape was tried below the ceiling and opened there, the
/// plain shape was tried past it, and every long failure was a length
/// refusal. A sharp edge therefore names only shapes that worked below the
/// ceiling.
pub proof fn lemma_conclusions_rest_on_controls(
    manifest_aware: bool,
    registry_enabled: Option<bool>,
    attempts: Seq<Attempt>,
)
    requires
        concludes(verdict_kind(manifest_aware, registry_enabled, attempts)),
    ensures
        forall|shape: Shape| #[trigger] tried_below(attempts, shape) && opened_below(attempts, shape),
        any_long(attempts),
        plain_long(attempts),
        long_failures_are_refusals(attempts),
{
    assert forall|shape: Shape| #[trigger] tried_below(attempts, shape) && opened_below(attempts, shape) by {
        assert(broken_shapes(attempts).len() == 0);
        assert(untried_shapes(attempts).len() == 0);
        match shape {
            Shape::Plain => {},
            Shape::DotDot => {},
            Shape::ForwardSlash => {},
        }
    }
    lemma_no_unexplained(attempts);
}

/// Whether some attempt at index below `end` satisfies the shape and
/// ceiling conditions given, and has opened when `need_open` is set.
fn any_attempt(
    attempts: &Vec<Attempt>,
    shape: Option<Shape>,
    over: Option<bool>,
    need_open: bool,
) -> (found: bool)
    ensures
        found == exists|i: int|
            0 <= i < attempts@.len() && (shape is Some ==> attempts@[i].shape == shape.unwrap()) && (
            over is Some ==> attempts@[i].over_max_path == over.unwrap()) && (need_open
                ==> attempts@[i].opened),
{
    let mut i: usize = 0;
    while i < attempts.len()
        invariant
            i <= attempts.len(),
            forall|j: int|
                0 <= j < i ==> !((shape is Some ==> attempts@[j].shape == shape.unwrap()) && (over is Some
                    ==> attempts@[j].over_max_path == over.unwrap()) && (need_open
                    ==> attempts@[j].opened)),
        decreases attempts.len() - i,
    {
        let a = attempts[i];
        let shape_ok = match shape {
            Some(s) => a.shape == s,
            None => true,
        };
        let over_ok = match over {
            Some(o) => a.over_max_path == o,
            None => true,
        };
        if shape_ok && over_ok && (!need_open || a.opened) {
            return true;
        }
        i = i + 1;
    }
    false
}

/// The labels of the shapes, in order, for which `keep` is set.
fn labels_where(plain: bool, dot_dot: bool, forward_slash: bool) -> (labels: Vec<String>)
    ensures
        texts(labels@) == (if plain { seq![Shape::Plain.label_text()] } else { Seq::empty() }) + (
        if dot_dot {
            seq![Shape::DotDot.label_text()]
        } else {
            Seq::empty()
        }) + (if forward_slash { seq![Shape::ForwardSlash.label_text()] } else { Seq::empty() }),
{
    let mut labels: Vec<String> = Vec::new();
    if plain {
        labels.push(Shape::Plain.label().to_owned());
    }
    if dot_dot {
        labels.push(Shape::DotDot.label().to_owned());
    }
    if forward_slash {
        labels.push(Shape::ForwardSlash.label().to_owned());
    }
    proof {
        assert(texts(labels@) =~= (if plain { seq![Shape::Plain.label_text()] } else { Seq::empty() })
            + (if dot_dot { seq![Shape::DotDot.label_text()] } else { Seq::empty() }) + (if forward_slash {
            seq![Shape::ForwardSlash.label_text()]
        } else {
            Seq::empty()
        }));
    }
    labels
}

/// The unexplained long failures, named.
fn unexplained_entries(attempts: &Vec<Attempt>) -> (entries: Vec<String>)
    ensures
        texts(entries@) == unexplained(attempts@),
{
    let mut entries: Vec<String> = Vec::new();
    let mut i: usize = 0;
    while i < attempts.len()
        invariant
            i <= attempts.len(),
            texts(entries@) == unexplained(attempts@.take(i as int)),
        decreases attempts.len() - i,
    {
        let a = attempts[i];
        proof {
            assert(attempts@.take(i + 1).drop_last() =~= attempts@.take(i as int));
            assert(attempts@.take(i + 1).last() == a);
        }
        if a.over_max_path && !a.opened && !is_refusal(&a) {
            let mut entry = String::new();
            push_str(&mut entry, a.shape.label());
            push_str(&mut entry, " (error ");
            push_dec(&mut entry, a.error as u64);
            push_str(&mut entry, ")");
            let ghost before = texts(entries@);
            proof {
                assert(entry@ =~= unexplained_entry(a));
            }
            entries.push(entry);
            proof {
                assert(texts(entries@) =~= before.push(unexplained_entry(a)));
            }
        }
        i = i + 1;
    }
    assert(attempts@.take(i as int) =~= attempts@);
    entries
}

/// The shapes `\\?\` would break that failed past the ceiling.
fn reparsing_labels(attempts: &Vec<Attempt>) -> (labels: Vec<String>)
    ensures
        texts(labels@) == reparsing(attempts@),
{
    let mut labels: Vec<String> = Vec::new();
    let mut i: usize = 0;
    while i < attempts.len()
        invariant
            i <= attempts.len(),
            texts(labels@) == reparsing(attempts@.take(i as int)),
        decreases attempts.len() - i,
    {
        let a = attempts[i];
        proof {
            assert(attempts@.take(i + 1).drop_last() =~= attempts@.take(i as int));
            assert(attempts@.take(i + 1).last() == a);
        }
        if a.over_max_path && !a.shape.survives_verbatim_parsing() && !a.opened {
            let ghost before = texts(labels@);
            labels.push(a.shape.label().to_owned());
            proof {
                assert(texts(labels@) =~= before.push(a.shape.label_text()));
            }
        }
        i = i + 1;
    }
    assert(attempts@.take(i as int) =~= attempts@);
    labels
}

/// Appends the continuation of a verdict line.
fn push_indent(out: &mut String)
    ensures
        final(out)@ == old(out)@ + indent(),
{
    push_str(out, "\n   ");
}

/// What the rows mean, stated rather than left for the reader to infer.
pub fn verdict(observation: &Observation) -> (text: String)
    ensures
        text@ == verdict_text(observation.manifest_aware, observation.registry_enabled, observation.attempts@),
{
    let attempts = &observation.attempts;
    let ghost a = attempts@;
    let mut out = String::new();
    let long = any_attempt(attempts, None, Some(true), false);
    if !long {
        push_str(&mut out, "-- no attempt exceeded MAX_PATH, so this run tested nothing.");
        return out;
    }
    let tried_plain = any_attempt(attempts, Some(Shape::Plain), Some(false), false);
    let tried_dot_dot = any_attempt(attempts, Some(Shape::DotDot), Some(false), false);
    let tried_forward = any_attempt(attempts, Some(Shape::ForwardSlash), Some(false), false);
    let opened_plain = any_attempt(attempts, Some(Shape::Plain), Some(false), true);
    let opened_dot_dot = any_attempt(attempts, Some(Shape::DotDot), Some(false), true);
    let opened_forward = any_attempt(attempts, Some(Shape::ForwardSlash), Some(false), true);
    let broken = labels_where(
        tried_plain && !opened_plain,
        tried_dot_dot && !opened_dot_dot,
        tried_forward && !opened_forward,
    );
    proof {
        assert(texts(broken@) =~= broken_shapes(a));
    }
    if broken.len() > 0 {
        push_str(&mut out, "-- NO VERDICT. These shapes were tried below the ceiling and did not open:");
        push_indent(&mut out);
        push_joined(&mut out, &broken, ", ");
        push_str(&mut out, ". The apparatus is wrong, so nothing here is a finding about");
        push_indent(&mut out);
        push_str(&mut out, "the ceiling.");
        return out;
    }
    let untried = labels_where(!tried_plain, !tried_dot_dot, !tried_forward);
    proof {
        assert(texts(untried@) =~= untried_shapes(a));
    }
    if untried.len() > 0 {
        let anything_below = any_attempt(attempts, None, Some(false), false);
        if !anything_below {
            push_str(&mut out, "-- NO VERDICT. No attempt landed below ");
            push_dec(&mut out, MAX_PATH_CONTENT as u64);
            push_str(&mut out, " on this run, so there is no");
            push_indent(&mut out);
            push_str(&mut out, "baseline to read the long case against for any shape: ");
            push_joined(&mut out, &untried, ", ");
            push_str(&mut out, ".");
            push_indent(&mut out);
            push_str(&mut out, "This says nothing about the apparatus either way -- it was never");
            push_indent(&mut out);
            push_str(&mut out, "exercised under the ceiling. The shallow depth is meant to land");
            push_indent(&mut out);
            push_str(&mut out, "there, so either it or the segment length has been changed.");
            return out;
        }
        push_str(&mut out, "-- NO VERDICT. These shapes were never tried *below* ");
        push_dec(&mut out, MAX_PATH_CONTENT as u64);
        push_str(&mut out, " on this run,");
        push_indent(&mut out);
        push_str(&mut out, "so there is no baseline to read the long case against: ");
        push_joined(&mut out, &untried, ", ");
        push_str(&mut out, ".");
        push_indent(&mut out);
        push_str(&mut out, "Every attempt that did land below the ceiling opened, so this is not an");
        push_indent(&mut out);
        push_str(&mut out, "apparatus fault: the shallow depth is meant to land under the ceiling");
        push_indent(&mut out);
        push_str(&mut out, "for every shape, and for these it did not.");
        return out;
    }
    let plain_long_tried = any_attempt(attempts, Some(Shape::Plain), Some(true), false);
    if !plain_long_tried {
        push_str(&mut out, "-- NO VERDICT. No plain-shape attempt exceeded MAX_PATH, so the reference");
        push_indent(&mut out);
        push_str(&mut out, "shape was never tested against the ceiling on this run and there is");
        push_indent(&mut out);
        push_str(&mut out, "nothing to say about lifting.");
        return out;
    }
    let unexplained_list = unexplained_entries(attempts);
    if unexplained_list.len() > 0 {
        push_str(&mut out, "-- NO VERDICT. These attempts past the ceiling failed for something that is");
        push_indent(&mut out);
        push_str(&mut out, "not a length refusal, so nothing here bears on MAX_PATH: ");
        push_joined(&mut out, &unexplained_list, ", ");
        push_str(&mut out, ".");
        return out;
    }
    let plain_opened = any_attempt(attempts, Some(Shape::Plain), Some(true), true);
    let missing: Option<&'static str> = match observation.registry_enabled {
        None => Some("the machine's `LongPathsEnabled` was never read"),
        Some(true) => if observation.manifest_aware {
            None
        } else {
            Some("this binary carries no `longPathAware` manifest")
        },
        Some(false) => if observation.manifest_aware {
            Some("the machine's `LongPathsEnabled` is unset or 0")
        } else {
            Some("neither half of the opt-in was in effect")
        },
    };
    if let Some(missing) = missing {
        if plain_opened {
            push_str(&mut out, "-- UNEXPECTED, and not a verdict on the opt-in. A relative path resolved");
            push_indent(&mut out);
            push_str(&mut out, "past the ceiling while the opt-in was NOT in effect:");
            push_indent(&mut out);
            push_str(&mut out, missing);
            push_str(&mut out, ".");
            push_indent(&mut out);
            push_str(&mut out, "Nothing here credits the opt-in with that, because it was not on.");
            push_indent(&mut out);
            push_str(&mut out, "Establish why this host lifts the ceiling unopted before reading any");
            push_indent(&mut out);
            push_str(&mut out, "comparison against it.");
            return out;
        }
        push_str(&mut out, "-- BASELINE, not a finding. `MAX_PATH` applied to a relative path past the");
        push_indent(&mut out);
        push_str(&mut out, "ceiling, which is what it does when the opt-in is not in effect:");
        push_indent(&mut out);
        push_str(&mut out, missing);
        push_str(&mut out, ".");
        push_indent(&mut out);
        push_str(&mut out, "This is the case the opted-in half is read against; it neither supports");
        push_indent(&mut out);
        push_str(&mut out, "nor contradicts the documented reading.");
        return out;
    }
    if !plain_opened {
        push_str(&mut out, "-- MAX_PATH was NOT lifted for a relative path: the opt-in was in effect --");
        push_indent(&mut out);
        push_str(&mut out, "manifest and registry both -- and even the plain shape was refused past");
        push_indent(&mut out);
        push_str(&mut out, "the ceiling. The documented reading is wrong for this configuration.");
        return out;
    }
    let reparsed = reparsing_labels(attempts);
    if reparsed.len() == 0 {
        push_str(&mut out, "-- MAX_PATH was lifted for a relative path, and the path was still parsed\n");
        push_str(&mut out, "normally: `..` and forward slashes resolved past the ceiling exactly as\n");
        push_str(&mut out, "they do below it. No evidence of a prefix-then-parse implementation.");
        return out;
    }
    push_str(&mut out, "-- SHARP EDGE. Length was lifted, but these shapes stopped resolving past\n");
    push_str(&mut out, "the ceiling while working below it: ");
    push_joined(&mut out, &reparsed, ", ");
    push_str(&mut out, ".\n");
    push_str(&mut out, "That is the signature of regularize-then-prefix: `\\\\?\\` disables exactly\n");
    push_str(&mut out, "these features, so a relative path changes meaning at MAX_PATH.");
    out
}

/// The note the error column adds to a failed attempt: only a not-found
/// past the ceiling, on a shape `\\?\` parsing leaves intact, is the length
/// refusal; on the other shapes it is undecided; below the ceiling it is an
/// apparatus fault.
pub open spec fn error_note(attempt: Attempt) -> Seq<char> {
    if attempt.over_max_path && refused(attempt) && attempt.shape == Shape::Plain {
        " (not-found; this shape survives `\\\\?\\` parsing and the target exists, so this is the length refusal)"@
    } else if attempt.over_max_path && refused(attempt) {
        " (not-found; either the length refusal or this shape ceasing to resolve past the ceiling -- the verdict below decides which)"@
    } else if !attempt.over_max_path && refused(attempt) {
        " (not-found BELOW the ceiling; the apparatus is wrong, not the path length)"@
    } else {
        Seq::empty()
    }
}

/// One row of the table.
pub open spec fn row_text(attempt: Attempt) -> Seq<char> {
    pad_right(attempt.shape.label_text(), 18) + " "@ + pad_left(dec(attempt.resolved_len as nat), 8, ' ')
        + " "@ + pad_left(if attempt.over_max_path { "yes"@ } else { "no"@ }, 8, ' ') + "  "@
        + pad_right(if attempt.opened { "opened"@ } else { "REFUSED"@ }, 10) + " "@ + (if attempt.opened {
        Seq::empty()
    } else {
        dec(attempt.error as nat) + error_note(attempt)
    }) + "\n"@
}

/// The rows of the table, one per attempt in order.
pub open spec fn rows_text(attempts: Seq<Attempt>) -> Seq<char>
    decreases attempts.len(),
{
    if attempts.len() == 0 {
        Seq::empty()
    } else {
        rows_text(attempts.drop_last()) + row_text(attempts.last())
    }
}

/// The table's header, which prints the ceiling it compares against.
pub open spec fn header_text() -> Seq<char> {
    "\n"@ + pad_right("shape"@, 18) + " "@ + pad_left("resolved"@, 8, ' ') + " "@ + pad_left(
        "> "@ + dec(MAX_PATH_CONTENT as nat),
        8,
        ' ',
    ) + "  "@ + pad_right("result"@, 10) + " error\n"@
}

/// What the report says of the registry half.
pub open spec fn registry_text(registry_enabled: Option<bool>) -> Seq<char> {
    match registry_enabled {
        Some(true) => "1"@,
        Some(false) => "unset or 0"@,
        None => "not consulted (the run was refused first)"@,
    }
}

/// The warning given, before any row, when the registry half was read and
/// is off.
pub open spec fn registry_warning() -> Seq<char> {
    "\n*** The machine half of the opt-in is absent, so this run measures the\n*** un-opted-in case whatever the manifest says. The rows below are still\n*** real, but they answer a different question than the one intended.\n"@
}

/// Everything the report says once the measurement is in hand: the two
/// halves of the opt-in, the registry warning, then either the apparatus
/// failure alone or the table and the verdict.
pub open spec fn body_text(observation: Observation) -> Seq<char> {
    let start = "manifest longPathAware : "@ + (if observation.manifest_aware { "yes"@ } else { "no"@ }) + "\n"@
        + "LongPathsEnabled       : "@ + registry_text(observation.registry_enabled) + "\n"@ + (
    if observation.registry_enabled == Some(false) {
        registry_warning()
    } else {
        Seq::empty()
    });
    match observation.apparatus_error {
        Some(error) => start + "\n*** APPARATUS FAILED: "@ + error@
            + "\n*** Nothing below says anything about the machine.\n"@,
        None => start + header_text() + rows_text(observation.attempts@) + "\n"@ + verdict_text(
            observation.manifest_aware,
            observation.registry_enabled,
            observation.attempts@,
        ) + "\n"@,
    }
}

/// What precedes the measurement: the banner naming the machine, and the
/// question.
pub open spec fn preamble_text(banner: Seq<char>) -> Seq<char> {
    banner + "\n"@ + "== does the long-path opt-in lift MAX_PATH for a relative path? ==\n\n"@
}

/// The error column of a row.
fn error_cell(attempt: &Attempt) -> (cell: String)
    ensures
        cell@ == (if attempt.opened { Seq::empty() } else { dec(attempt.error as nat) + error_note(*attempt) }),
{
    let mut cell = String::new();
    if !attempt.opened {
        push_dec(&mut cell, attempt.error as u64);
        proof {
            assert(cell@ =~= dec(attempt.error as nat));
        }
        let refusal = is_refusal(attempt);
        if attempt.over_max_path && refusal && attempt.shape.survives_verbatim_parsing() {
            push_str(&mut cell, " (not-found; this shape survives `\\\\?\\` parsing and the target exists, so this is the length refusal)");
        } else if attempt.over_max_path && refusal {
            push_str(&mut cell, " (not-found; either the length refusal or this shape ceasing to resolve past the ceiling -- the verdict below decides which)");
        } else if !attempt.over_max_path && refusal {
            push_str(&mut cell, " (not-found BELOW the ceiling; the apparatus is wrong, not the path length)");
        } else {
            proof {
                assert(cell@ =~= dec(attempt.error as nat) + error_note(*attempt));
            }
        }
    } else {
        proof {
            assert(cell@ =~= Seq::<char>::empty());
        }
    }
    cell
}

/// One row of the table.
fn row(attempt: &Attempt) -> (text: String)
    ensures
        text@ == row_text(*attempt),
{
    let mut text = String::new();
    push_padded_right(&mut text, attempt.shape.label(), 18);
    proof {
        assert(text@ =~= pad_right(attempt.shape.label_text(), 18));
    }
    push_str(&mut text, " ");
    let mut resolved = String::new();
    push_dec(&mut resolved, attempt.resolved_len as u64);
    proof {
        assert(resolved@ =~= dec(attempt.resolved_len as nat));
    }
    push_padded_left(&mut text, resolved.as_str(), 8, ' ');
    push_str(&mut text, " ");
    push_padded_left(&mut text, if attempt.over_max_path { "yes" } else { "no" }, 8, ' ');
    push_str(&mut text, "  ");
    push_padded_right(&mut text, if attempt.opened { "opened" } else { "REFUSED" }, 10);
    push_str(&mut text, " ");
    let cell = error_cell(attempt);
    push_str(&mut text, cell.as_str());
    push_str(&mut text, "\n");
    text
}

/// The table's header.
fn header() -> (text: String)
    ensures
        text@ == header_text(),
{
    let mut text = String::new();
    push_str(&mut text, "\n");
    proof {
        assert(text@ =~= "\n"@);
    }
    push_padded_right(&mut text, "shape", 18);
    push_str(&mut text, " ");
    push_padded_left(&mut text, "resolved", 8, ' ');
    push_str(&mut text, " ");
    let mut ceiling = String::new();
    push_str(&mut ceiling, "> ");
    push_dec(&mut ceiling, MAX_PATH_CONTENT as u64);
    proof {
        assert(ceiling@ =~= "> "@ + dec(MAX_PATH_CONTENT as nat));
    }
    push_padded_left(&mut text, ceiling.as_str(), 8, ' ');
    push_str(&mut text, "  ");
    push_padded_right(&mut text, "result", 10);
    push_str(&mut text, " error\n");
    text
}

/// The opening lines: both halves of the opt-in, and the registry warning.
fn opening(observation: &Observation) -> (text: String)
    ensures
        text@ == "manifest longPathAware : "@ + (if observation.manifest_aware { "yes"@ } else { "no"@ })
            + "\n"@ + "LongPathsEnabled       : "@ + registry_text(observation.registry_enabled) + "\n"@ + (
        if observation.registry_enabled == Some(false) {
            registry_warning()
        } else {
            Seq::empty()
        }),
{
    let mut text = String::new();
    push_str(&mut text, "manifest longPathAware : ");
    proof {
        assert(text@ =~= "manifest longPathAware : "@);
    }
    push_str(&mut text, if observation.manifest_aware { "yes" } else { "no" });
    push_str(&mut text, "\n");
    push_str(&mut text, "LongPathsEnabled       : ");
    push_str(&mut text, match observation.registry_enabled {
        Some(true) => "1",
        Some(false) => "unset or 0",
        None => "not consulted (the run was refused first)",
    });
    push_str(&mut text, "\n");
    let off = match observation.registry_enabled {
        Some(false) => true,
        _ => false,
    };
    if off {
        push_str(&mut text, "\n*** The machine half of the opt-in is absent, so this run measures the\n*** un-opted-in case whatever the manifest says. The rows below are still\n*** real, but they answer a different question than the one intended.\n");
    } else {
        let ghost before = text@;
        proof {
            assert(before =~= before + Seq::<char>::empty());
        }
    }
    text
}

/// Everything the report says once the measurement is in hand.
///
/// A pure function of the observation: the length-refusal gating, the
/// ceiling the column compares against, the registry warning and the
/// apparatus-error early return all live here, where a test can reach them.
pub fn body(out: &mut String, observation: &Observation)
    ensures
        final(out)@ == old(out)@ + body_text(*observation),
{
    let mut text = opening(observation);
    match &observation.apparatus_error {
        Some(error) => {
            push_str(&mut text, "\n*** APPARATUS FAILED: ");
            push_str(&mut text, error.as_str());
            push_str(&mut text, "\n*** Nothing below says anything about the machine.\n");
            push_str(out, text.as_str());
            return;
        },
        None => {},
    }
    let head = header();
    push_str(&mut text, head.as_str());
    let ghost table = text@;
    let attempts = &observation.attempts;
    let mut i: usize = 0;
    while i < attempts.len()
        invariant
            i <= attempts.len(),
            attempts == &observation.attempts,
            text@ == table + rows_text(attempts@.take(i as int)),
        decreases attempts.len() - i,
    {
        let line = row(&attempts[i]);
        push_str(&mut text, line.as_str());
        proof {
            assert(attempts@.take(i + 1).drop_last() =~= attempts@.take(i as int));
            assert(text@ =~= table + rows_text(attempts@.take(i + 1)));
        }
        i = i + 1;
    }
    proof {
        assert(attempts@.take(i as int) =~= attempts@);
    }
    push_str(&mut text, "\n");
    let conclusion = verdict(observation);
    push_str(&mut text, conclusion.as_str());
    push_str(&mut text, "\n");
    push_str(out, text.as_str());
}

/// Everything that can be written before the measurement runs: the banner
/// naming the machine, and the question. Written first, so that a report
/// survives whatever the measurement does.
pub fn preamble(out: &mut String, banner: &str)
    ensures
        final(out)@ == old(out)@ + preamble_text(banner@),
{
    push_str(out, banner);
    push_str(out, "\n");
    push_str(out, "== does the long-path opt-in lift MAX_PATH for a relative path? ==\n\n");
    proof {
        assert(final(out)@ =~= old(out)@ + preamble_text(banner@));
    }
}

/// The probe's whole report: the preamble, then the body of the run
/// observed.
pub fn render(out: &mut String, banner: &str, observation: &Observation)
    ensures
        final(out)@ == old(out)@ + preamble_text(banner@) + body_text(*observation),
{
    preamble(out, banner);
    body(out, observation);
}

} // verus!
