//! The bounded retry that wraps every single transfer.

use crate::error::Error;
use vstd::prelude::*;

verus! {

/// The state of one retried operation: the attempts that may still follow a
/// failure, and the failures of the attempts made so far.
#[derive(Debug, PartialEq, Eq)]
pub struct Retry {
    pub remaining: usize,
    pub errors: Vec<Error>,
}

/// What a run of attempts came to.
pub enum Verdict {
    /// An attempt succeeded.
    Succeeded,
    /// Every allowed attempt failed, with these failures.
    Exhausted(Seq<Error>),
    /// The outcomes ended before the operation succeeded or gave up.
    Unfinished,
}

/// The number of attempts made and what they came to.
pub struct Run {
    pub attempts: nat,
    pub verdict: Verdict,
}

/// Runs an operation under a budget of `remaining` further attempts, with
/// `errors` already recorded. `outcomes[i]` tells how attempt `i` ends:
/// `None` for success, or the failure.
pub open spec fn run_from(remaining: nat, errors: Seq<Error>, outcomes: Seq<Option<Error>>) -> Run
    decreases outcomes.len(),
{
    if outcomes.len() == 0 {
        Run { attempts: 0, verdict: Verdict::Unfinished }
    } else {
        match outcomes[0] {
            None => Run { attempts: 1, verdict: Verdict::Succeeded },
            Some(err) => if remaining == 0 {
                Run { attempts: 1, verdict: Verdict::Exhausted(errors.push(err)) }
            } else {
                let rest = run_from((remaining - 1) as nat, errors.push(err), outcomes.skip(1));
                Run { attempts: rest.attempts + 1, verdict: rest.verdict }
            },
        }
    }
}

/// Runs an operation under a retry budget of `budget`.
pub open spec fn run(budget: nat, outcomes: Seq<Option<Error>>) -> Run {
    run_from(budget, Seq::empty(), outcomes)
}

impl Retry {
    /// A fresh state for an operation that may be retried `budget` times.
    pub fn new(budget: usize) -> (r: Retry)
        ensures
            r.remaining == budget,
            r.errors@ == Seq::<Error>::empty(),
    {
        Retry { remaining: budget, errors: Vec::new() }
    }

    /// Records the failure of an attempt. Returns whether the operation is
    /// to be attempted again; if not, the budget is exhausted. This is one
    /// failed attempt of a run: the run is unfinished if another attempt
    /// follows, and else exhausted with all the failures recorded.
    pub fn fail(&mut self, err: Error) -> (again: bool)
        ensures
            final(self).errors@ == old(self).errors@.push(err),
            again == (old(self).remaining > 0),
            final(self).remaining == if old(self).remaining > 0 {
                old(self).remaining - 1
            } else {
                0
            },
            run_from(old(self).remaining as nat, old(self).errors@, seq![Some(err)]).verdict
                == if again {
                Verdict::Unfinished
            } else {
                Verdict::Exhausted(final(self).errors@)
            },
    {
        proof {
            reveal_with_fuel(run_from, 2);
            assert(seq![Some(err)].skip(1) =~= Seq::<Option<Error>>::empty());
        }
        self.errors.push(err);
        if self.remaining > 0 {
            self.remaining = self.remaining - 1;
            true
        } else {
            false
        }
    }

    /// The failure that reports every attempt made.
    pub fn into_error(self) -> (e: Error)
        ensures
            e == Error::Retry(self.errors),
    {
        Error::Retry(self.errors)
    }
}

/// An operation that fails on every attempt is attempted once and then once
/// more for each retry of its budget, and is then reported as exhausted with
/// the failures of all these attempts.
pub proof fn lemma_always_failing(budget: nat, outcomes: Seq<Option<Error>>)
    requires
        outcomes.len() > budget,
        forall|i: int| 0 <= i <= budget ==> (#[trigger] outcomes[i]) is Some,
    ensures
        run(budget, outcomes).attempts == budget + 1,
        run(budget, outcomes).verdict == Verdict::Exhausted(
            Seq::new(budget + 1, |i: int| outcomes[i]->0),
        ),
{
    lemma_always_failing_from(budget, Seq::empty(), outcomes);
    assert(Seq::<Error>::empty() + Seq::new(budget + 1, |i: int| outcomes[i]->0) =~= Seq::new(
        budget + 1,
        |i: int| outcomes[i]->0,
    ));
}

/// The same, from a state in which failures were recorded before.
pub proof fn lemma_always_failing_from(
    remaining: nat,
    errors: Seq<Error>,
    outcomes: Seq<Option<Error>>,
)
    requires
        outcomes.len() > remaining,
        forall|i: int| 0 <= i <= remaining ==> (#[trigger] outcomes[i]) is Some,
    ensures
        run_from(remaining, errors, outcomes).attempts == remaining + 1,
        run_from(remaining, errors, outcomes).verdict == Verdict::Exhausted(
            errors + Seq::new(remaining + 1, |i: int| outcomes[i]->0),
        ),
    decreases remaining,
{
    let err = outcomes[0]->0;
    if remaining == 0 {
        assert(errors.push(err) =~= errors + Seq::new(1, |i: int| outcomes[i]->0));
    } else {
        let rest = outcomes.skip(1);
        assert forall|i: int| 0 <= i <= remaining - 1 implies (#[trigger] rest[i]) is Some by {
            assert(rest[i] == outcomes[i + 1]);
        }
        lemma_always_failing_from((remaining - 1) as nat, errors.push(err), rest);
        assert(errors.push(err) + Seq::new(remaining as nat, |i: int| rest[i]->0) =~= errors
            + Seq::new(remaining + 1, |i: int| outcomes[i]->0));
    }
}

/// An operation that first succeeds on attempt `k`, within its budget,
/// is reported as succeeded after exactly `k` attempts, whatever outcomes
/// further attempts would have had.
pub proof fn lemma_succeeds_on_attempt(budget: nat, outcomes: Seq<Option<Error>>, k: nat)
    requires
        1 <= k <= budget + 1,
        k <= outcomes.len(),
        outcomes[k - 1] is None,
        forall|i: int| 0 <= i < k - 1 ==> (#[trigger] outcomes[i]) is Some,
    ensures
        run(budget, outcomes).attempts == k,
        run(budget, outcomes).verdict == Verdict::Succeeded,
{
    lemma_succeeds_on_attempt_from(budget, Seq::empty(), outcomes, k);
}

/// The same, from a state in which failures were recorded before.
pub proof fn lemma_succeeds_on_attempt_from(
    remaining: nat,
    errors: Seq<Error>,
    outcomes: Seq<Option<Error>>,
    k: nat,
)
    requires
        1 <= k <= remaining + 1,
        k <= outcomes.len(),
        outcomes[k - 1] is None,
        forall|i: int| 0 <= i < k - 1 ==> (#[trigger] outcomes[i]) is Some,
    ensures
        run_from(remaining, errors, outcomes).attempts == k,
        run_from(remaining, errors, outcomes).verdict == Verdict::Succeeded,
    decreases k,
{
    if k > 1 {
        let rest = outcomes.skip(1);
        assert(outcomes[0] is Some);
        assert forall|i: int| 0 <= i < k - 2 implies (#[trigger] rest[i]) is Some by {
            assert(rest[i] == outcomes[i + 1]);
        }
        assert(rest[k - 2] == outcomes[k - 1]);
        lemma_succeeds_on_attempt_from(
            (remaining - 1) as nat,
            errors.push(outcomes[0]->0),
            rest,
            (k - 1) as nat,
        );
    }
}

/// Recording a failure is one step of a run: the state after `fail` runs the
/// remaining outcomes as the state before it runs the failure followed by
/// them.
pub proof fn lemma_fail_is_a_step(
    remaining: nat,
    errors: Seq<Error>,
    err: Error,
    later: Seq<Option<Error>>,
)
    requires
        remaining > 0,
    ensures
        run_from(remaining, errors, seq![Some(err)] + later).attempts == run_from(
            (remaining - 1) as nat,
            errors.push(err),
            later,
        ).attempts + 1,
        run_from(remaining, errors, seq![Some(err)] + later).verdict == run_from(
            (remaining - 1) as nat,
            errors.push(err),
            later,
        ).verdict,
{
    assert((seq![Some(err)] + later).skip(1) =~= later);
}

} // verus!
