//! A single-pass test for one list occurring inside another.

use vstd::prelude::*;
use vstd::std_specs::cmp::PartialEqSpec;

verus! {

/// Lists that can be searched for a run of elements.
pub trait IsSub {
    fn is_sub(&self, second: &Self) -> bool;
}

/// Whether the single pass over `first` from place `at` on, with `matched`
/// elements of `second` matched so far, completes a match.
///
/// An element that continues the match extends it by one; any other element
/// throws the whole match away and is not looked at again.
pub open spec fn scans<T: PartialEq>(first: Seq<T>, second: Seq<T>, at: int, matched: int) -> bool
    decreases first.len() - at,
{
    if 0 <= at < first.len() && 0 <= matched < second.len() {
        let grown = if second[matched].eq_spec(&first[at]) {
            matched + 1
        } else {
            0
        };
        grown == second.len() || scans(first, second, at + 1, grown)
    } else {
        false
    }
}

/// Whether `second` stands in `first` from place `start` on, element by
/// element.
pub open spec fn occurs_at<T: PartialEq>(first: Seq<T>, second: Seq<T>, start: int) -> bool {
    &&& 0 <= start
    &&& start + second.len() <= first.len()
    &&& forall|j: int| 0 <= j < second.len() ==> (#[trigger] second[j]).eq_spec(&first[start + j])
}

/// A pass that completes a match has found `second` in `first`, given that
/// what it holds as matched so far stands right before the place it is at.
pub proof fn lemma_scan_finds_an_occurrence<T: PartialEq>(
    first: Seq<T>,
    second: Seq<T>,
    at: int,
    matched: int,
)
    requires
        0 <= matched <= at,
        forall|j: int|
            0 <= j < matched ==> (#[trigger] second[j]).eq_spec(&first[at - matched + j]),
        scans(first, second, at, matched),
    ensures
        exists|start: int| occurs_at(first, second, start),
    decreases first.len() - at,
{
    let continues = second[matched].eq_spec(&first[at]);
    let grown = if continues {
        matched + 1
    } else {
        0
    };
    if grown == second.len() {
        let start = at - matched;
        assert forall|j: int| 0 <= j < second.len() implies (#[trigger] second[j]).eq_spec(
            &first[start + j],
        ) by {
            if j == matched {
                assert(start + j == at);
            }
        }
        assert(occurs_at(first, second, start));
    } else {
        assert forall|j: int| 0 <= j < grown implies (#[trigger] second[j]).eq_spec(
            &first[at + 1 - grown + j],
        ) by {
            if j == matched {
                assert(at + 1 - grown + j == at);
            } else {
                assert(at + 1 - grown + j == at - matched + j);
            }
        }
        lemma_scan_finds_an_occurrence(first, second, at + 1, grown);
    }
}

/// Whatever the pass finds does occur: a find means that `second` stands
/// somewhere in `first`, element by element. The pass can miss an
/// occurrence, because it never goes back.
pub proof fn lemma_found_occurs<T: PartialEq>(first: Seq<T>, second: Seq<T>)
    requires
        scans(first, second, 0, 0),
    ensures
        exists|start: int| occurs_at(first, second, start),
{
    lemma_scan_finds_an_occurrence(first, second, 0, 0);
}

impl<T: PartialEq> IsSub for Vec<T> {
    /// Looks for `second` in `self` in a single pass without going back. An
    /// empty `second` is never found.
    fn is_sub(&self, second: &Self) -> (found: bool)
        ensures
            T::obeys_eq_spec() ==> found == scans(self@, second@, 0, 0),
    {
        if second.len() == 0 {
            return false;
        }
        let mut index: usize = 0;
        let mut at: usize = 0;
        let ghost mut place: int = 0;
        let ghost mut matched: int = 0;
        while at < self.len()
            invariant
                at <= self.len(),
                index < second.len(),
                place == at,
                matched == index,
                T::obeys_eq_spec() ==> scans(self@, second@, 0, 0) == scans(
                    self@,
                    second@,
                    place,
                    matched,
                ),
            decreases self.len() - at,
        {
            if second[index] == self[at] {
                index = index + 1;
            } else {
                index = 0;
            }
            if second.len() == index {
                return true;
            }
            at = at + 1;
            proof {
                place = place + 1;
                matched = index + 0;
            }
        }
        false
    }
}

} // verus!
