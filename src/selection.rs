//! Which of the loaded test cases a run executes.
use vstd::prelude::*;
use crate::model::{Mode, TestCase};

verus! {

/// Case `i` is the earliest case of its mode.
pub open spec fn first_of_mode(cases: Seq<TestCase>, i: int) -> bool {
    forall|j: int| 0 <= j < i ==> cases[j].metadata.mode != cases[i].metadata.mode
}

/// Position `i` is among those `r` lists.
pub open spec fn lists(r: Seq<usize>, i: int) -> bool {
    exists|a: int| 0 <= a < r.len() && r[a] == i
}

/// `r` lists, in ascending order, the positions of the cases to run: all of them,
/// or with `first_per_mode` the earliest case of each mode.
pub open spec fn is_selection(cases: Seq<TestCase>, first_per_mode: bool, r: Seq<usize>) -> bool {
    &&& forall|a: int, b: int| 0 <= a < b < r.len() ==> r[a] < r[b]
    &&& forall|a: int| 0 <= a < r.len() ==> r[a] < cases.len()
    &&& forall|i: int|
        0 <= i < cases.len() ==> (#[trigger] lists(r, i) <==> (!first_per_mode || first_of_mode(
            cases,
            i,
        )))
}

/// The positions of the cases to run, in their existing order.
pub fn select_cases(cases: &Vec<TestCase>, first_per_mode: bool) -> (r: Vec<usize>)
    ensures
        is_selection(cases@, first_per_mode, r@),
{
    let n = cases.len();
    let mut r: Vec<usize> = Vec::new();
    let mut seen_easy = false;
    let mut seen_hard = false;
    let mut i: usize = 0;
    while i < n
        invariant
            n == cases@.len(),
            i <= n,
            seen_easy == exists|j: int| 0 <= j < i && cases@[j].metadata.mode == Mode::Easy,
            seen_hard == exists|j: int| 0 <= j < i && cases@[j].metadata.mode == Mode::Hard,
            forall|a: int, b: int| 0 <= a < b < r@.len() ==> r@[a] < r@[b],
            forall|a: int| 0 <= a < r@.len() ==> r@[a] < i,
            forall|k: int|
                0 <= k < i ==> (#[trigger] lists(r@, k) <==> (!first_per_mode || first_of_mode(
                    cases@,
                    k,
                ))),
        decreases n - i,
    {
        let mode = cases[i].metadata.mode;
        let take = match mode {
            Mode::Easy => !seen_easy,
            Mode::Hard => !seen_hard,
        };
        proof {
            if take {
                assert forall|j: int| 0 <= j < i implies cases@[j].metadata.mode
                    != cases@[i as int].metadata.mode by {}
            } else {
                let j = choose|j: int| 0 <= j < i && cases@[j].metadata.mode == mode;
                assert(!first_of_mode(cases@, i as int));
            }
        }
        let ghost before = r@;
        if take || !first_per_mode {
            r.push(i);
        }
        proof {
            assert forall|k: int| 0 <= k < i + 1 implies (lists(r@, k) <==> (
            !first_per_mode || first_of_mode(cases@, k))) by {
                if k < i {
                    assert(lists(before, k) <==> (!first_per_mode || first_of_mode(
                        cases@,
                        k,
                    )));
                    if lists(r@, k) && !lists(before, k) {
                        let a = choose|a: int| 0 <= a < r@.len() && r@[a] == k;
                        assert(a == before.len());
                    }
                    if lists(before, k) {
                        let a = choose|a: int| 0 <= a < before.len() && before[a] == k;
                        assert(r@[a] == k);
                    }
                } else {
                    assert(take <==> first_of_mode(cases@, k));
                    if lists(before, k) {
                        let a = choose|a: int| 0 <= a < before.len() && before[a] == k;
                        assert(before[a] < i);
                    }
                    if take || !first_per_mode {
                        assert(r@[before.len() as int] == i);
                    }
                }
            }
        }
        match mode {
            Mode::Easy => {
                seen_easy = true;
            },
            Mode::Hard => {
                seen_hard = true;
            },
        }
        i += 1;
    }
    r
}

proof fn lemma_earliest(cases: Seq<TestCase>, i: int) -> (e: int)
    requires
        0 <= i < cases.len(),
    ensures
        0 <= e <= i,
        cases[e].metadata.mode == cases[i].metadata.mode,
        first_of_mode(cases, e),
    decreases i,
{
    if first_of_mode(cases, i) {
        i
    } else {
        let j = choose|j: int| 0 <= j < i && cases[j].metadata.mode == cases[i].metadata.mode;
        lemma_earliest(cases, j)
    }
}

proof fn lemma_distinct_modes(cases: Seq<TestCase>, r: Seq<usize>, a: int, b: int)
    requires
        is_selection(cases, true, r),
        0 <= a < b < r.len(),
    ensures
        cases[r[a] as int].metadata.mode != cases[r[b] as int].metadata.mode,
{
    assert(lists(r, r[b] as int));
    assert(first_of_mode(cases, r[b] as int));
    assert(r[a] < r[b]);
}

proof fn lemma_mode_kept(cases: Seq<TestCase>, r: Seq<usize>, i: int) -> (a: int)
    requires
        is_selection(cases, true, r),
        0 <= i < cases.len(),
    ensures
        0 <= a < r.len(),
        r[a] <= i,
        cases[r[a] as int].metadata.mode == cases[i].metadata.mode,
{
    let e = lemma_earliest(cases, i);
    assert(lists(r, e));
    choose|a: int| 0 <= a < r.len() && r[a] == e
}

/// With the restriction, no two selected cases share a mode, and every mode that
/// occurs among the cases is represented by a case no later than any other of
/// that mode.
#[verifier::rlimit(50)]
pub proof fn lemma_first_per_mode(cases: Seq<TestCase>, r: Seq<usize>)
    requires
        is_selection(cases, true, r),
    ensures
        forall|a: int, b: int|
            0 <= a < r.len() && 0 <= b < r.len() && a != b ==> #[trigger] cases[r[a] as int].metadata.mode
                != #[trigger] cases[r[b] as int].metadata.mode,
        forall|i: int|
            0 <= i < cases.len() ==> exists|a: int|
                0 <= a < r.len() && r[a] <= i && #[trigger] cases[r[a] as int].metadata.mode
                    == #[trigger] cases[i].metadata.mode,
{
    assert forall|a: int, b: int|
        0 <= a < r.len() && 0 <= b < r.len() && a != b implies #[trigger] cases[r[a] as int].metadata.mode
        != #[trigger] cases[r[b] as int].metadata.mode by {
        if a < b {
            lemma_distinct_modes(cases, r, a, b);
        } else {
            lemma_distinct_modes(cases, r, b, a);
        }
    }
    assert forall|i: int| 0 <= i < cases.len() implies exists|a: int|
        0 <= a < r.len() && r[a] <= i && #[trigger] cases[r[a] as int].metadata.mode
            == #[trigger] cases[i].metadata.mode by {
        let a = lemma_mode_kept(cases, r, i);
    }
}

} // verus!
