//! Does a duplicated directory handle share its enumeration cursor with the
//! source, and does an interleaved query disturb it?
//!
//! The handles and the enumeration calls live outside this library; the
//! names each call returned come back here, and what they show is read off
//! them against the directory's ground truth.

use vstd::prelude::*;

use crate::text::texts;

verus! {

/// Which single-shot query to interleave with an enumeration.
#[derive(Clone, Copy, Debug, PartialEq, Eq, Structural)]
pub enum SingleShot {
    /// `GetFileInformationByHandleEx` with `FileBasicInfo`.
    BasicInfo,
    /// `GetFileInformationByHandleEx` with `FileIdInfo`.
    IdInfo,
    /// The non-`Ex` `GetFileInformationByHandle`.
    NonEx,
}

/// The names a directory yields read start to finish on one handle: the
/// first call's names, then the rest. The fixture must need more than one
/// call, or every cursor question would be vacuous.
pub fn ground_truth(first: &Vec<String>, rest: &Vec<String>) -> (all: Vec<String>)
    requires
        rest@.len() > 0,
    ensures
        texts(all@) == texts(first@) + texts(rest@),
        all@.len() > first@.len(),
{
    let mut all: Vec<String> = Vec::new();
    let mut i: usize = 0;
    while i < first.len()
        invariant
            i <= first.len(),
            texts(all@) == texts(first@.take(i as int)),
        decreases first.len() - i,
    {
        let ghost before = texts(all@);
        all.push(first[i].clone());
        proof {
            assert(texts(all@) =~= before.push(first@[i as int]@));
            assert(texts(first@.take(i + 1)) =~= texts(first@.take(i as int)).push(first@[i as int]@));
        }
        i = i + 1;
    }
    let mut j: usize = 0;
    while j < rest.len()
        invariant
            i == first.len(),
            j <= rest.len(),
            texts(all@) == texts(first@.take(i as int)) + texts(rest@.take(j as int)),
        decreases rest.len() - j,
    {
        let ghost before = texts(all@);
        all.push(rest[j].clone());
        proof {
            assert(texts(all@) =~= before.push(rest@[j as int]@));
            assert(texts(rest@.take(j + 1)) =~= texts(rest@.take(j as int)).push(rest@[j as int]@));
        }
        j = j + 1;
    }
    proof {
        assert(first@.take(i as int) =~= first@);
        assert(rest@.take(j as int) =~= rest@);
    }
    all
}

/// What a second handle returned when asked to continue an enumeration.
#[derive(Debug, PartialEq, Eq)]
pub struct CursorObservation {
    /// Names the source handle read first.
    pub source_first: Vec<String>,
    /// Names the second handle produced afterwards, or the Win32 error.
    pub other_next: Result<Vec<String>, u32>,
}

/// Whether `next` is the stretch of `truth` that follows its first `start`
/// names: what a handle that continued would have returned.
pub open spec fn continues(truth: Seq<Seq<char>>, start: nat, next: Seq<Seq<char>>) -> bool {
    &&& next.len() > 0
    &&& start + next.len() <= truth.len()
    &&& truth.subrange(start as int, (start + next.len()) as int) == next
}

impl CursorObservation {
    /// The second handle continued from where the first stopped.
    pub open spec fn continues_in(&self, truth: Seq<Seq<char>>) -> bool {
        match self.other_next {
            Ok(next) => continues(truth, self.source_first@.len(), texts(next@)),
            Err(_) => false,
        }
    }

    /// The second handle continued from where the first stopped: it returned
    /// names, and they are the ones that follow the source's in the ground
    /// truth.
    #[verifier::loop_isolation(false)]
    pub fn continued(&self, truth: &[String]) -> (continued: bool)
        ensures
            continued == self.continues_in(texts(truth@)),
    {
        let next = match &self.other_next {
            Ok(next) => next,
            Err(_) => return false,
        };
        if next.len() == 0 {
            return false;
        }
        let start = self.source_first.len();
        if start > truth.len() || truth.len() - start < next.len() {
            return false;
        }
        let mut k: usize = 0;
        while k < next.len()
            invariant
                start == self.source_first@.len(),
                start + next@.len() <= truth@.len(),
                k <= next@.len(),
                forall|m: int| 0 <= m < k ==> truth@[start + m]@ == next@[m]@,
            decreases next.len() - k,
        {
            if truth[start + k] != next[k] {
                proof {
                    let t = texts(truth@).subrange(start as int, start + next@.len());
                    assert(t[k as int] == truth@[start + k]@);
                    assert(texts(next@)[k as int] == next@[k as int]@);
                }
                return false;
            }
            k = k + 1;
        }
        proof {
            assert(texts(truth@).subrange(start as int, start + next@.len()) =~= texts(next@));
        }
        true
    }

    /// The second handle started again from the beginning: it returned
    /// exactly the names the source read first. Only meaningful alongside
    /// [`CursorObservation::left_mid_directory`].
    #[verifier::loop_isolation(false)]
    pub fn restarted(&self) -> (restarted: bool)
        ensures
            restarted == (match self.other_next {
                Ok(next) => texts(next@) == texts(self.source_first@),
                Err(_) => false,
            }),
    {
        let next = match &self.other_next {
            Ok(next) => next,
            Err(_) => return false,
        };
        if next.len() != self.source_first.len() {
            proof {
                assert(texts(next@).len() != texts(self.source_first@).len());
            }
            return false;
        }
        let mut k: usize = 0;
        while k < next.len()
            invariant
                k <= next@.len(),
                next@.len() == self.source_first@.len(),
                forall|m: int| 0 <= m < k ==> next@[m]@ == self.source_first@[m]@,
            decreases next.len() - k,
        {
            if next[k] != self.source_first[k] {
                proof {
                    assert(texts(next@)[k as int] != texts(self.source_first@)[k as int]);
                }
                return false;
            }
            k = k + 1;
        }
        proof {
            assert(texts(next@) =~= texts(self.source_first@));
        }
        true
    }

    /// The first handle really was left part-way through the directory: it
    /// read something, and not everything.
    pub fn left_mid_directory(&self, truth: &[String]) -> (mid: bool)
        ensures
            mid == (self.source_first@.len() > 0 && self.source_first@.len() < truth@.len()),
    {
        self.source_first.len() > 0 && self.source_first.len() < truth.len()
    }
}

/// A second handle that continued the source's enumeration did not restart
/// it, provided the source was left part-way through: the two readings are
/// exclusive exactly when the control holds.
pub proof fn lemma_continued_excludes_restarted(observation: CursorObservation, truth: Seq<Seq<char>>)
    requires
        observation.source_first@.len() > 0,
        observation.source_first@.len() < truth.len(),
        texts(observation.source_first@) == truth.take(observation.source_first@.len() as int),
        forall|i: int, j: int| 0 <= i < j < truth.len() ==> truth[i] != truth[j],
        observation.continues_in(truth),
    ensures
        !(match observation.other_next {
            Ok(next) => texts(next@) == texts(observation.source_first@),
            Err(_) => false,
        }),
{
    match observation.other_next {
        Ok(next) => {
            let start = observation.source_first@.len();
            if texts(next@) == texts(observation.source_first@) {
                assert(texts(next@)[0] == truth[start as int]);
                assert(texts(observation.source_first@)[0] == truth[0]);
            }
        },
        Err(_) => {},
    }
}

/// What the probe concludes about a duplicate's cursor: shared when the
/// duplicate continued the source's enumeration, independent when it started
/// again, and unclear otherwise.
pub open spec fn sharing_finding(continued: bool, restarted: bool) -> Seq<char> {
    if continued {
        "SHARED: the duplicate continued where the source stopped"@
    } else if restarted {
        "INDEPENDENT: the duplicate restarted"@
    } else {
        "UNCLEAR: neither a clean continuation nor a clean restart"@
    }
}

/// The finding on the duplicate observation, read against the ground truth.
pub fn sharing_sentence(observation: &CursorObservation, truth: &[String]) -> (sentence: &'static str)
    ensures
        sentence@ == sharing_finding(
            observation.continues_in(texts(truth@)),
            match observation.other_next {
                Ok(next) => texts(next@) == texts(observation.source_first@),
                Err(_) => false,
            },
        ),
{
    if observation.continued(truth) {
        "SHARED: the duplicate continued where the source stopped"
    } else if observation.restarted() {
        "INDEPENDENT: the duplicate restarted"
    } else {
        "UNCLEAR: neither a clean continuation nor a clean restart"
    }
}

/// What the control shows: two separate opens must be independent, which
/// is what lets a shared cursor be blamed on duplication.
pub open spec fn control_finding(restarted: bool) -> Seq<char> {
    if restarted {
        "INDEPENDENT, as expected -- so the result above is attributable to duplication"@
    } else {
        "UNEXPECTED: a separate open did not start from the beginning"@
    }
}

/// The finding on the control observation.
pub fn control_sentence(control: &CursorObservation) -> (sentence: &'static str)
    ensures
        sentence@ == control_finding(
            match control.other_next {
                Ok(next) => texts(next@) == texts(control.source_first@),
                Err(_) => false,
            },
        ),
{
    if control.restarted() {
        "INDEPENDENT, as expected -- so the result above is attributable to duplication"
    } else {
        "UNEXPECTED: a separate open did not start from the beginning"
    }
}

/// What closing the duplicate did to the source.
pub open spec fn closing_finding(source_survived: bool) -> Seq<char> {
    if source_survived {
        "no: the source kept enumerating"@
    } else {
        "YES: the source was broken, so owning a duplicate is unsafe to drop"@
    }
}

/// The finding on closing the duplicate, given whether the source could
/// still enumerate afterwards.
pub fn closing_sentence(source_survived: bool) -> (sentence: &'static str)
    ensures
        sentence@ == closing_finding(source_survived),
{
    if source_survived {
        "no: the source kept enumerating"
    } else {
        "YES: the source was broken, so owning a duplicate is unsafe to drop"
    }
}

/// The verdict on one interleaved query.
pub fn disturbance_word(disturbed: bool) -> (word: &'static str)
    ensures
        word@ == (if disturbed { "DISTURBED"@ } else { "undisturbed"@ }),
{
    if disturbed {
        "DISTURBED"
    } else {
        "undisturbed"
    }
}

} // verus!
