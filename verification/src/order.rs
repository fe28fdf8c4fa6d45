//! Sorting, for the lists a report prints in ascending order.

use vstd::prelude::*;

verus! {

broadcast use vstd::seq_lib::group_to_multiset_ensures;

/// Whether `s` never decreases.
pub open spec fn ascending(s: Seq<usize>) -> bool {
    forall|i: int, j: int| 0 <= i < j < s.len() ==> s[i] <= s[j]
}

/// `values` in ascending order: the one ascending sequence holding exactly
/// the same values, each as many times.
pub fn sorted(values: &Vec<usize>) -> (out: Vec<usize>)
    ensures
        ascending(out@),
        out@.to_multiset() == values@.to_multiset(),
{
    let mut out: Vec<usize> = Vec::new();
    let mut index: usize = 0;
    while index < values.len()
        invariant
            index <= values@.len(),
            ascending(out@),
            out@.to_multiset() == values@.take(index as int).to_multiset(),
        decreases values.len() - index,
    {
        let value = values[index];
        let mut position: usize = 0;
        while position < out.len() && out[position] <= value
            invariant
                position <= out@.len(),
                forall|k: int| 0 <= k < position ==> out@[k] <= value,
            decreases out.len() - position,
        {
            position = position + 1;
        }
        let ghost before = out@;
        out.insert(position, value);
        proof {
            assert(out@.remove(position as int) =~= before);
            assert(out@[position as int] == value);
            assert(out@.to_multiset() =~= before.to_multiset().insert(value)) by {
                assert(out@.remove(position as int).to_multiset() =~= out@.to_multiset().remove(value));
            }
            assert(values@.take(index + 1) =~= values@.take(index as int).push(value));
            assert forall|i: int, j: int| 0 <= i < j < out@.len() implies out@[i] <= out@[j] by {
                if j < position {
                } else if j == position {
                } else if i < position {
                    assert(before[j - 1] >= value) by {
                        if position < before.len() {
                            assert(before[position as int] > value);
                            assert(before[position as int] <= before[j - 1]);
                        }
                    }
                } else if i == position {
                    assert(before[position as int] > value);
                    assert(before[position as int] <= before[j - 1]);
                } else {
                }
            }
        }
        index = index + 1;
    }
    assert(values@.take(values@.len() as int) =~= values@);
    out
}

} // verus!
