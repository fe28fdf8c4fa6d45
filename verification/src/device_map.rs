//! Does impersonation change which DOS device map a drive letter resolves
//! in?
//!
//! The object-manager and token calls live outside this library; what they
//! return comes back here, and the finding, the fixture check and the
//! control are read off it.

use vstd::prelude::*;

use crate::text::{
    completed_pieces, dec, digits, lemma_split_on_shape, pad_left, push_padded_left, lemma_split_push, push_char, push_dec, push_str, split_on,
    texts, trailing_piece,
};

verus! {

/// What one observation of a drive letter found.
#[derive(Debug)]
pub struct MapObservation {
    /// The drive letter asked about, such as `"Q:"`.
    pub letter: String,
    /// What the letter resolved to, if anything: the `MULTI_SZ` the query
    /// returned, its terminating NULs trimmed.
    pub target: Option<String>,
    /// The logon-session id of the token in effect, when it could be read.
    pub logon_session: Option<(u32, i32)>,
}

/// Whether an entry holds anything.
pub open spec fn is_entry() -> spec_fn(Seq<char>) -> bool {
    |entry: Seq<char>| entry.len() > 0
}

/// The nonempty entries of a `MULTI_SZ` text, in order.
pub open spec fn nonempty_entries(text: Seq<char>) -> Seq<Seq<char>> {
    split_on(text, '\0').filter(is_entry())
}

impl MapObservation {
    /// The entries the letter resolves to.
    pub open spec fn entry_texts(&self) -> Seq<Seq<char>> {
        match self.target {
            Some(text) => nonempty_entries(text@),
            None => Seq::empty(),
        }
    }

    /// The letter resolved to something.
    pub fn is_found(&self) -> (found: bool)
        ensures
            found == self.target is Some,
    {
        self.target.is_some()
    }

    /// The individual targets the letter resolves to: a letter can carry
    /// several, because definitions stack rather than replace.
    pub fn entries(&self) -> (entries: Vec<String>)
        ensures
            texts(entries@) == self.entry_texts(),
    {
        let mut entries: Vec<String> = Vec::new();
        let text = match &self.target {
            Some(text) => text,
            None => {
                proof {
                    assert(texts(entries@) =~= Seq::<Seq<char>>::empty());
                }
                return entries;
            },
        };
        let mut current = String::new();
        let ghost mut seen: Seq<char> = Seq::empty();
        for c in it: text.as_str().chars()
            invariant
                seen == it.seq().take(it.index() as int),
                it.seq() == text@,
                current@ == trailing_piece(seen, '\0'),
                texts(entries@) == completed_pieces(seen, '\0').filter(is_entry()),
        {
            let ghost before = seen;
            proof {
                lemma_split_push(before, c, '\0');
                seen = seen.push(c);
                assert(seen =~= it.seq().take(it.index() + 1));
            }
            if c == '\0' {
                proof {
                    let olds = completed_pieces(before, '\0');
                    let news = completed_pieces(seen, '\0');
                    reveal(Seq::filter);
                    assert(news.drop_last() =~= olds);
                    assert(news.last() == current@);
                    assert(news.filter(is_entry()) == (if current@.len() > 0 {
                        olds.filter(is_entry()).push(current@)
                    } else {
                        olds.filter(is_entry())
                    }));
                }
                if !current.as_str().is_empty() {
                    let ghost old_view = texts(entries@);
                    let ghost word = current@;
                    entries.push(current);
                    proof {
                        assert(texts(entries@) =~= old_view.push(word));
                    }
                }
                current = String::new();
            } else {
                push_char(&mut current, c);
            }
        }
        proof {
            assert(seen =~= text@);
            lemma_split_on_shape(text@, '\0');
            let pieces = split_on(text@, '\0');
            let olds = completed_pieces(text@, '\0');
            reveal(Seq::filter);
            assert(pieces.drop_last() =~= olds);
            assert(pieces.last() == current@);
            assert(pieces.filter(is_entry()) == (if current@.len() > 0 {
                olds.filter(is_entry()).push(current@)
            } else {
                olds.filter(is_entry())
            }));
        }
        if !current.as_str().is_empty() {
            let ghost old_view = texts(entries@);
            let ghost word = current@;
            entries.push(current);
            proof {
                assert(texts(entries@) =~= old_view.push(word));
            }
        }
        entries
    }

    /// The letter resolves to `expected` and to nothing else.
    pub fn is_exactly(&self, expected: &str) -> (exactly: bool)
        ensures
            exactly == (self.entry_texts() == seq![expected@]),
    {
        let entries = self.entries();
        if entries.len() != 1 {
            proof {
                if self.entry_texts() == seq![expected@] {
                    assert(texts(entries@).len() == 1);
                }
            }
            return false;
        }
        let wanted = expected.to_owned();
        let same = entries[0] == wanted;
        proof {
            assert(texts(entries@)[0] == entries@[0]@);
            if same {
                assert(texts(entries@) =~= seq![expected@]);
            } else if self.entry_texts() == seq![expected@] {
                assert(texts(entries@)[0] == expected@);
            }
        }
        same
    }
}

/// What the whole probe concluded.
#[derive(Debug)]
pub struct DeviceMapFinding {
    /// The letter as the process's own session sees it.
    pub own_session: MapObservation,
    /// The same letter while impersonating the anonymous logon session.
    pub anonymous_session: MapObservation,
    /// The target this probe's own claim points at.
    pub target: String,
}

impl DeviceMapFinding {
    /// Impersonation changed which map the letter resolved in: found in the
    /// process's own session, absent in the anonymous one.
    pub fn impersonation_changes_the_map(&self) -> (changes: bool)
        ensures
            changes == (self.own_session.target is Some && self.anonymous_session.target is None),
    {
        self.own_session.is_found() && !self.anonymous_session.is_found()
    }

    /// Our own claim is the only definition on the letter.
    pub fn claim_is_exclusive(&self) -> (exclusive: bool)
        ensures
            exclusive == (self.own_session.entry_texts() == seq![self.target@]),
    {
        self.own_session.is_exactly(self.target.as_str())
    }

    /// The two contexts really were different logon sessions: both were read,
    /// and they differ.
    pub fn sessions_differ(&self) -> (differ: bool)
        ensures
            differ == (match (self.own_session.logon_session, self.anonymous_session.logon_session) {
                (Some(own), Some(anonymous)) => own != anonymous,
                _ => false,
            }),
    {
        match (self.own_session.logon_session, self.anonymous_session.logon_session) {
            (Some(own), Some(anonymous)) => own.0 != anonymous.0 || own.1 != anonymous.1,
            _ => false,
        }
    }
}

/// A drive letter claimed for a probe, and the target it points at.
#[derive(Debug)]
pub struct SubstDrive {
    letter: String,
    target: String,
}

impl SubstDrive {
    /// The claim of `letter` for `target`.
    pub fn new(letter: String, target: String) -> (drive: SubstDrive)
        ensures
            drive.letter_text() == letter@,
            drive.target_text() == target@,
    {
        SubstDrive { letter, target }
    }

    /// The claimed letter.
    pub closed spec fn letter_text(&self) -> Seq<char> {
        self.letter@
    }

    /// The target the claim points at.
    pub closed spec fn target_text(&self) -> Seq<char> {
        self.target@
    }

    /// The claimed letter, such as `"H:"`.
    pub fn letter(&self) -> (letter: &str)
        ensures
            letter@ == self.letter_text(),
    {
        self.letter.as_str()
    }

    /// The target this claim points at.
    pub fn target(&self) -> (target: &str)
        ensures
            target@ == self.target_text(),
    {
        self.target.as_str()
    }
}

/// The drive letters, from `H` to `Z`, that `used` (the mask
/// `GetLogicalDrives` returns, bit 0 for `A`) leaves free, in order.
pub open spec fn free_letters_in(used: u32) -> Seq<char> {
    Seq::new(19, |i: int| (0x48 + i) as char).filter(
        |letter: char| used & (1u32 << ((letter as u32) - 0x41) as u32) == 0,
    )
}

/// The letters [`free_letters_in`] names, each as the device name it is
/// defined under, such as `"H:"`.
pub fn free_letters(used: u32) -> (letters: Vec<char>)
    ensures
        letters@ == free_letters_in(used),
{
    let mut letters: Vec<char> = Vec::new();
    let mut offset: u32 = 0;
    while offset < 19
        invariant
            offset <= 19,
            letters@ == Seq::new(offset as nat, |i: int| (0x48 + i) as char).filter(
                |letter: char| used & (1u32 << ((letter as u32) - 0x41) as u32) == 0,
            ),
        decreases 19 - offset,
    {
        let code: u32 = 0x48 + offset;
        let letter = (code as u8) as char;
        let free = used & (1u32 << (code - 0x41)) == 0;
        proof {
            reveal(Seq::filter);
            let before = Seq::new(offset as nat, |i: int| (0x48 + i) as char);
            let after = Seq::new((offset + 1) as nat, |i: int| (0x48 + i) as char);
            assert(after.drop_last() =~= before);
            assert(after.last() == letter);
            assert(letter as u32 == code);
        }
        if free {
            letters.push(letter);
        }
        offset = offset + 1;
    }
    letters
}

/// The target a claim points at: unique to the process, the label and the
/// claim, so a definition left by anything else is distinguishable from
/// ours. The path is never opened.
pub open spec fn claim_target(process: u32, label: Seq<char>, unique: u64) -> Seq<char> {
    "\\Device\\HarddiskVolume1\\probe-"@ + dec(process as nat) + "-"@ + label + "-"@ + dec(unique as nat)
}

/// The target for claim number `unique` of process `process` under `label`.
pub fn target_for(process: u32, label: &str, unique: u64) -> (target: String)
    ensures
        target@ == claim_target(process, label@, unique),
{
    let mut target = String::new();
    push_str(&mut target, "\\Device\\HarddiskVolume1\\probe-");
    proof {
        assert(target@ =~= "\\Device\\HarddiskVolume1\\probe-"@);
    }
    push_dec(&mut target, process as u64);
    push_str(&mut target, "-");
    push_str(&mut target, label);
    push_str(&mut target, "-");
    push_dec(&mut target, unique);
    target
}

/// The UTF-16 encoding of `s`: one unit per character of the basic plane,
/// a surrogate pair for any other.
pub open spec fn utf16_of(s: Seq<char>) -> Seq<u16>
    decreases s.len(),
{
    if s.len() == 0 {
        Seq::empty()
    } else {
        let rest = utf16_of(s.drop_last());
        let code = s.last() as u32;
        if code <= 0xffff {
            rest.push(code as u16)
        } else {
            let v = (code - 0x10000) as u32;
            rest.push((0xd800 + v / 0x400) as u16).push((0xdc00 + v % 0x400) as u16)
        }
    }
}

/// A NUL-terminated UTF-16 copy of `text`, as the device calls want.
pub fn wide(text: &str) -> (units: Vec<u16>)
    ensures
        units@ == utf16_of(text@).push(0u16),
{
    let mut units: Vec<u16> = Vec::new();
    let ghost mut seen: Seq<char> = Seq::empty();
    for c in it: text.chars()
        invariant
            seen == it.seq().take(it.index() as int),
            it.seq() == text@,
            units@ == utf16_of(seen),
    {
        let ghost before = seen;
        proof {
            seen = seen.push(c);
            assert(seen =~= it.seq().take(it.index() + 1));
            assert(seen.drop_last() =~= before);
        }
        let code = c as u32;
        if code <= 0xffff {
            units.push(code as u16);
        } else {
            let v = code - 0x10000;
            units.push((0xd800 + v / 0x400) as u16);
            units.push((0xdc00 + v % 0x400) as u16);
        }
    }
    proof {
        assert(seen =~= text@);
    }
    units.push(0);
    units
}

/// The question the probe asks.
pub open spec fn title() -> Seq<char> {
    "== does impersonation change the DOS device map? ==\n\n"@
}

/// The report when no drive letter could be claimed: the probe says it
/// cannot run rather than producing a misleading negative.
pub open spec fn unclaimed_text() -> Seq<char> {
    title() + "no free drive letter on this host, so the probe cannot run.\n(Reported rather than measured: a probe that cannot set up its\nfixture must say so instead of producing a misleading negative.)\n"@
}

/// A logon-session id as the report prints it: high then low half, each
/// eight hexadecimal digits.
pub open spec fn luid_text(session: Option<(u32, i32)>) -> Seq<char> {
    match session {
        Some((low, high)) => pad_left(digits((high as u32) as nat, 16, false), 8, '0') + ":"@ + pad_left(
            digits(low as nat, 16, false),
            8,
            '0',
        ),
        None => "(not impersonating)"@,
    }
}

/// How one observation is described.
pub open spec fn observation_text(label: Seq<char>, observation: MapObservation) -> Seq<char> {
    label + "\n"@ + "  "@ + observation.letter@ + " -> "@ + match observation.target {
        Some(target) => target@,
        None => "(not found in this map)"@,
    } + "\n"@ + "  logon session LUID: "@ + luid_text(observation.logon_session) + "\n"@
}

/// The report of a claimed letter and what the probe found with it: both
/// sessions' view, the control, and the conclusion.
pub open spec fn claimed_text(drive: SubstDrive, finding: DeviceMapFinding) -> Seq<char> {
    title() + "using "@ + drive.letter_text() + " as a subst-style link to "@ + drive.target_text() + "\n\n"@
        + observation_text("our own session:"@, finding.own_session) + "\n"@ + observation_text(
        "impersonating the anonymous session:"@,
        finding.anonymous_session,
    ) + "\ncontrol:\n"@ + "  the two contexts are different logon sessions: "@ + (if (match (
        finding.own_session.logon_session,
        finding.anonymous_session.logon_session,
    ) {
        (Some(own), Some(anonymous)) => own != anonymous,
        _ => false,
    }) {
        "true"@
    } else {
        "false"@
    }) + "\n"@ + "\nconclusion:\n"@ + if finding.own_session.target is Some && finding.anonymous_session.target is None {
        "  the SAME drive letter, on the SAME thread, resolves differently\n  depending on the token in effect. A path resolved on a submitter\n  and opened on a worker under a captured token can name a\n  different device -- which is why lexical resolution does not\n  close that hazard.\n"@
    } else {
        "  the letter resolved the same way in both contexts. Either the\n  finding has changed, or the impersonation did not take effect --\n  check the control above before believing the former.\n"@
    }
}

/// The report when no drive letter could be claimed.
pub fn render_unclaimed() -> (text: String)
    ensures
        text@ == unclaimed_text(),
{
    let mut text = String::new();
    push_str(&mut text, "== does impersonation change the DOS device map? ==\n\n");
    proof {
        assert(text@ =~= title());
    }
    push_str(&mut text, "no free drive letter on this host, so the probe cannot run.\n(Reported rather than measured: a probe that cannot set up its\nfixture must say so instead of producing a misleading negative.)\n");
    text
}

/// Appends how one observation is described.
pub fn describe(out: &mut String, label: &str, observation: &MapObservation)
    ensures
        final(out)@ == old(out)@ + observation_text(label@, *observation),
{
    let mut text = String::new();
    push_str(&mut text, label);
    proof {
        assert(text@ =~= label@);
    }
    push_str(&mut text, "\n");
    push_str(&mut text, "  ");
    push_str(&mut text, observation.letter.as_str());
    push_str(&mut text, " -> ");
    match &observation.target {
        Some(target) => push_str(&mut text, target.as_str()),
        None => push_str(&mut text, "(not found in this map)"),
    }
    push_str(&mut text, "\n");
    push_str(&mut text, "  logon session LUID: ");
    let mut luid = String::new();
    match observation.logon_session {
        Some((low, high)) => {
            let high_digits = crate::text::digits_of(high as u32 as u64, 16, false);
            push_padded_left(&mut luid, high_digits.as_str(), 8, '0');
            proof {
                assert(luid@ =~= pad_left(digits((high as u32) as nat, 16, false), 8, '0'));
            }
            push_str(&mut luid, ":");
            let low_digits = crate::text::digits_of(low as u64, 16, false);
            push_padded_left(&mut luid, low_digits.as_str(), 8, '0');
        },
        None => push_str(&mut luid, "(not impersonating)"),
    }
    proof {
        assert(luid@ =~= luid_text(observation.logon_session));
    }
    push_str(&mut text, luid.as_str());
    push_str(&mut text, "\n");
    push_str(out, text.as_str());
}

/// The report of a claimed letter and the finding made with it.
pub fn render(drive: &SubstDrive, finding: &DeviceMapFinding) -> (text: String)
    ensures
        text@ == claimed_text(*drive, *finding),
{
    let mut text = String::new();
    push_str(&mut text, "== does impersonation change the DOS device map? ==\n\n");
    proof {
        assert(text@ =~= title());
    }
    push_str(&mut text, "using ");
    push_str(&mut text, drive.letter());
    push_str(&mut text, " as a subst-style link to ");
    push_str(&mut text, drive.target());
    push_str(&mut text, "\n\n");
    describe(&mut text, "our own session:", &finding.own_session);
    push_str(&mut text, "\n");
    describe(&mut text, "impersonating the anonymous session:", &finding.anonymous_session);
    push_str(&mut text, "\ncontrol:\n");
    push_str(&mut text, "  the two contexts are different logon sessions: ");
    push_str(&mut text, if finding.sessions_differ() { "true" } else { "false" });
    push_str(&mut text, "\n");
    push_str(&mut text, "\nconclusion:\n");
    if finding.impersonation_changes_the_map() {
        push_str(&mut text, "  the SAME drive letter, on the SAME thread, resolves differently\n  depending on the token in effect. A path resolved on a submitter\n  and opened on a worker under a captured token can name a\n  different device -- which is why lexical resolution does not\n  close that hazard.\n");
    } else {
        push_str(&mut text, "  the letter resolved the same way in both contexts. Either the\n  finding has changed, or the impersonation did not take effect --\n  check the control above before believing the former.\n");
    }
    text
}

} // verus!
