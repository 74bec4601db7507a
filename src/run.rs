//! Running the selected cases in order with fail-fast, and the tally.
use vstd::prelude::*;
use crate::model::TestResult;
use crate::text::{decimal, push_decimal};

verus! {

/// The state of a run: the positions of the cases to run, in order, and the
/// results so far; the k-th result belongs to the k-th queued case.
pub struct Run {
    pub queue: Vec<usize>,
    pub results: Vec<TestResult>,
}

impl Run {
    /// At most one result per queued case, and only the last result may be a
    /// failure.
    pub open spec fn wf(&self) -> bool {
        &&& self.results@.len() <= self.queue@.len()
        &&& forall|k: int| 0 <= k < self.results@.len() - 1 ==> #[trigger] self.results@[k].passed
    }

    /// Every queued case has run, or the last one that ran failed.
    pub open spec fn over(&self) -> bool {
        self.results@.len() == self.queue@.len() || (self.results@.len() > 0
            && !self.results@.last().passed)
    }

    pub fn new(queue: Vec<usize>) -> (r: Run)
        ensures
            r.wf(),
            r.queue == queue,
            r.results@.len() == 0,
    {
        Run { queue, results: Vec::new() }
    }

    /// The position of the next case to run, or `None` once the run is over.
    pub fn next_case(&self) -> (r: Option<usize>)
        requires
            self.wf(),
        ensures
            r is None <==> self.over(),
            r matches Some(c) ==> c == self.queue@[self.results@.len() as int],
    {
        let n = self.results.len();
        if n == self.queue.len() {
            None
        } else if n > 0 && !self.results[n - 1].passed {
            None
        } else {
            Some(self.queue[n])
        }
    }

    /// Records the result of the case that `next_case` named.
    pub fn record(&mut self, result: TestResult)
        requires
            old(self).wf(),
            !old(self).over(),
        ensures
            final(self).wf(),
            final(self).queue == old(self).queue,
            final(self).results@ == old(self).results@.push(result),
    {
        self.results.push(result);
    }
}

/// When a run is over and the case at position `i` of the run order failed, the
/// results are exactly those of the cases up to and including it: none later ran.
pub proof fn lemma_fail_fast(run: Run, i: int)
    requires
        run.wf(),
        run.over(),
        0 <= i < run.results@.len(),
        !run.results@[i].passed,
    ensures
        run.results@.len() == i + 1,
        forall|k: int| 0 <= k < i ==> #[trigger] run.results@[k].passed,
{
}

/// The number of passed results.
pub open spec fn passed_in(rs: Seq<TestResult>) -> nat
    decreases rs.len(),
{
    if rs.len() == 0 {
        0
    } else {
        passed_in(rs.drop_last()) + if rs.last().passed {
            1nat
        } else {
            0nat
        }
    }
}

proof fn lemma_passed_in_bound(rs: Seq<TestResult>)
    ensures
        passed_in(rs) <= rs.len(),
        passed_in(rs) == rs.len() <==> forall|k: int| 0 <= k < rs.len() ==> #[trigger] rs[k].passed,
    decreases rs.len(),
{
    if rs.len() > 0 {
        lemma_passed_in_bound(rs.drop_last());
        if forall|k: int| 0 <= k < rs.len() ==> #[trigger] rs[k].passed {
            assert forall|k: int| 0 <= k < rs.drop_last().len() implies #[trigger] rs.drop_last()[k].passed by {
                assert(rs[k].passed);
            }
        }
        if forall|k: int| 0 <= k < rs.drop_last().len() ==> #[trigger] rs.drop_last()[k].passed {
            if rs.last().passed {
                assert forall|k: int| 0 <= k < rs.len() implies #[trigger] rs[k].passed by {
                    if k < rs.len() - 1 {
                        assert(rs.drop_last()[k].passed);
                    }
                }
            }
        }
    }
}

pub fn passed_count(results: &Vec<TestResult>) -> (r: usize)
    ensures
        r == passed_in(results@),
{
    let mut count: usize = 0;
    let mut i: usize = 0;
    while i < results.len()
        invariant
            i <= results@.len(),
            count == passed_in(results@.take(i as int)),
            count <= i,
        decreases results@.len() - i,
    {
        proof {
            assert(results@.take(i + 1).drop_last() =~= results@.take(i as int));
        }
        if results[i].passed {
            count += 1;
        }
        i += 1;
    }
    proof {
        assert(results@.take(i as int) =~= results@);
    }
    count
}

/// Whether every result passed.
pub fn all_passed(results: &Vec<TestResult>) -> (r: bool)
    ensures
        r == forall|k: int| 0 <= k < results@.len() ==> #[trigger] results@[k].passed,
{
    proof {
        lemma_passed_in_bound(results@);
    }
    passed_count(results) == results.len()
}

/// The process exit status: 0 when every executed case passed, else 1.
pub fn exit_code(results: &Vec<TestResult>) -> (r: i32)
    ensures
        r == 0 <==> forall|k: int| 0 <= k < results@.len() ==> #[trigger] results@[k].passed,
        r == 0 || r == 1,
{
    if all_passed(results) {
        0
    } else {
        1
    }
}

/// The closing tally of a run.
pub fn tally_line(results: &Vec<TestResult>) -> (r: String)
    ensures
        r@ == "Results: "@ + decimal(passed_in(results@)) + "/"@ + decimal(results@.len() as nat)
            + " question sets passed"@,
{
    let passed = passed_count(results);
    let mut r = String::from_str("Results: ");
    push_decimal(&mut r, passed as u128);
    r.append("/");
    push_decimal(&mut r, results.len() as u128);
    r.append(" question sets passed");
    r
}

} // verus!
