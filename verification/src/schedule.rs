//! The order of a run: what the driver of one process does next.
//!
//! An iteration is as many exchange rounds as there are processes, each
//! followed by a barrier; then one more barrier; then the integration. A
//! round that cannot begin ends the rounds of its iteration: the driver goes
//! straight to the barrier before the integration, integrates, and carries
//! on with the next iteration.

use vstd::prelude::*;
use crate::partition::Rank;

verus! {

/// The number of iterations in a run.
pub const ITERATIONS: usize = 10;

/// What the driver does next.
#[derive(Copy, Clone, Debug, PartialEq, Eq, Structural)]
pub enum Action {
    /// Run one exchange round, and tell `next` whether it could begin.
    Step,
    /// Wait until every process has come this far.
    Barrier,
    /// Integrate: end the iteration.
    Complete,
    /// The run is over.
    Finish,
}

/// Where within an iteration the driver stands.
#[derive(Copy, Clone, Debug, PartialEq, Eq, Structural)]
pub enum Phase {
    /// A round is due.
    Round,
    /// A round was handed out, and its outcome is awaited.
    Stepped,
    /// All rounds have ended, and the barrier before the integration is due.
    Gather,
    /// The integration is due.
    Integrate,
    /// Every iteration has ended.
    Done,
}

/// The progress of a run.
#[derive(Copy, Clone, Debug, PartialEq, Eq, Structural)]
pub struct Schedule {
    /// The number of rounds in an iteration: the number of processes.
    pub size: Rank,
    /// The number of iterations in the run.
    pub iterations: usize,
    /// The number of iterations that have ended.
    pub iteration: usize,
    /// The number of rounds of this iteration that have ended.
    pub round: Rank,
    /// What is due.
    pub phase: Phase,
}

impl Schedule {
    /// Whether the progress is one that a run can reach.
    pub open spec fn wf(self) -> bool {
        &&& 1 <= self.size
        &&& 0 <= self.round < self.size
        &&& self.iteration <= self.iterations
        &&& self.phase is Done <==> self.iteration == self.iterations
        &&& self.phase is Round || self.phase is Stepped || self.round == 0
    }

    /// The start of a run.
    pub open spec fn start(size: Rank, iterations: usize) -> Schedule {
        Schedule {
            size,
            iterations,
            iteration: 0,
            round: 0,
            phase: if iterations == 0 {
                Phase::Done
            } else {
                Phase::Round
            },
        }
    }

    /// What the driver does next.
    pub open spec fn action(self) -> Action {
        match self.phase {
            Phase::Round => Action::Step,
            Phase::Stepped => Action::Barrier,
            Phase::Gather => Action::Barrier,
            Phase::Integrate => Action::Complete,
            Phase::Done => Action::Finish,
        }
    }

    /// The progress once that has been handed out. `failed` says whether
    /// the round that was handed out last could not begin; it counts only
    /// while the outcome of a round is awaited.
    pub open spec fn after(self, failed: bool) -> Schedule {
        match self.phase {
            Phase::Round => Schedule { phase: Phase::Stepped, ..self },
            Phase::Stepped => if failed {
                Schedule { phase: Phase::Integrate, round: 0, ..self }
            } else if self.round + 1 < self.size {
                Schedule { phase: Phase::Round, round: (self.round + 1) as Rank, ..self }
            } else {
                Schedule { phase: Phase::Gather, round: 0, ..self }
            },
            Phase::Gather => Schedule { phase: Phase::Integrate, ..self },
            Phase::Integrate => Schedule {
                phase: if self.iteration + 1 < self.iterations {
                    Phase::Round
                } else {
                    Phase::Done
                },
                iteration: (self.iteration + 1) as usize,
                ..self
            },
            Phase::Done => self,
        }
    }

    /// What the driver does over its next calls, one for each entry of
    /// `failed`.
    pub open spec fn actions(self, failed: Seq<bool>) -> Seq<Action>
        decreases failed.len(),
    {
        if failed.len() == 0 {
            Seq::empty()
        } else {
            seq![self.action()] + self.after(failed[0]).actions(failed.skip(1))
        }
    }

    /// The progress after those calls.
    pub open spec fn after_all(self, failed: Seq<bool>) -> Schedule
        decreases failed.len(),
    {
        if failed.len() == 0 {
            self
        } else {
            self.after(failed[0]).after_all(failed.skip(1))
        }
    }

    /// Starts a run of `iterations` iterations in a ring of `size` processes.
    pub fn new(size: Rank, iterations: usize) -> (r: Schedule)
        requires
            1 <= size,
        ensures
            r == Schedule::start(size, iterations),
            r.wf(),
    {
        Schedule {
            size,
            iterations,
            iteration: 0,
            round: 0,
            phase: if iterations == 0 {
                Phase::Done
            } else {
                Phase::Round
            },
        }
    }

    /// Says what the driver does next, and moves on. `failed` says whether
    /// the round that was handed out last could not begin.
    pub fn next(&mut self, failed: bool) -> (r: Action)
        requires
            old(self).wf(),
        ensures
            r == old(self).action(),
            *final(self) == old(self).after(failed),
            final(self).wf(),
    {
        match self.phase {
            Phase::Round => {
                self.phase = Phase::Stepped;
                Action::Step
            },
            Phase::Stepped => {
                if failed {
                    self.phase = Phase::Integrate;
                    self.round = 0;
                } else if self.round + 1 < self.size {
                    self.phase = Phase::Round;
                    self.round = self.round + 1;
                } else {
                    self.phase = Phase::Gather;
                    self.round = 0;
                }
                Action::Barrier
            },
            Phase::Gather => {
                self.phase = Phase::Integrate;
                Action::Barrier
            },
            Phase::Integrate => {
                self.iteration = self.iteration + 1;
                self.phase = if self.iteration < self.iterations {
                    Phase::Round
                } else {
                    Phase::Done
                };
                Action::Complete
            },
            Phase::Done => Action::Finish,
        }
    }
}

/// Rounds, each with the barrier after it.
pub open spec fn rounds(count: nat) -> Seq<Action> {
    Seq::new(
        2 * count,
        |i: int|
            if i % 2 == 0 {
                Action::Step
            } else {
                Action::Barrier
            },
    )
}

/// The progress when the iteration that is under way has ended.
pub open spec fn iteration_ended(s: Schedule) -> Schedule {
    Schedule {
        phase: if s.iteration + 1 < s.iterations {
            Phase::Round
        } else {
            Phase::Done
        },
        iteration: (s.iteration + 1) as usize,
        round: 0,
        ..s
    }
}

/// While every round can begin, what is left of an iteration is the rounds
/// that have not ended yet, each with its barrier, then one more barrier,
/// then the integration; after that the next iteration is due, or the run is
/// over. From the start of an iteration this makes exactly as many rounds as
/// there are processes, and one integration after them.
pub proof fn lemma_iteration(s: Schedule, failed: Seq<bool>)
    requires
        s.wf(),
        s.phase is Round,
        failed.len() == 2 * (s.size - s.round) + 2,
        forall|i: int| 0 <= i < failed.len() ==> !failed[i],
    ensures
        s.actions(failed) == rounds((s.size - s.round) as nat) + seq![
            Action::Barrier,
            Action::Complete,
        ],
        s.after_all(failed) == iteration_ended(s),
        iteration_ended(s).wf(),
    decreases s.size - s.round,
{
    let left = (s.size - s.round) as nat;
    let stepped = s.after(failed[0]);
    let rest = failed.skip(1);
    let then = stepped.after(rest[0]);
    let tail = rest.skip(1);
    assert(s.actions(failed) == seq![Action::Step] + stepped.actions(rest));
    assert(stepped.actions(rest) == seq![Action::Barrier] + then.actions(tail));
    assert(s.after_all(failed) == stepped.after_all(rest));
    assert(stepped.after_all(rest) == then.after_all(tail));
    let want = rounds(left) + seq![Action::Barrier, Action::Complete];
    if s.round + 1 < s.size {
        lemma_iteration(then, tail);
        assert(iteration_ended(then) == iteration_ended(s));
        let later = rounds((left - 1) as nat) + seq![Action::Barrier, Action::Complete];
        assert(then.actions(tail) == later);
        assert(seq![Action::Step] + (seq![Action::Barrier] + later) =~= want) by {
            let got = seq![Action::Step] + (seq![Action::Barrier] + later);
            assert(got.len() == want.len());
            assert forall|i: int| 0 <= i < want.len() implies got[i] == want[i] by {
                if 2 <= i < 2 * left {
                    assert(got[i] == rounds((left - 1) as nat)[i - 2]);
                    assert((i - 2) % 2 == i % 2);
                }
            }
        }
    } else {
        assert(left == 1);
        let gathered = then.after(tail[0]);
        let last = tail.skip(1);
        assert(then.actions(tail) == seq![Action::Barrier] + gathered.actions(last));
        let ended = gathered.after(last[0]);
        assert(gathered.actions(last) == seq![Action::Complete] + ended.actions(last.skip(1)));
        assert(ended.actions(last.skip(1)) =~= Seq::<Action>::empty());
        assert(then.after_all(tail) == gathered.after_all(last));
        assert(gathered.after_all(last) == ended.after_all(last.skip(1)));
        assert(ended == iteration_ended(s));
        assert(s.actions(failed) =~= want);
    }
}

/// A round that cannot begin ends the rounds of its iteration: what follows
/// is the barrier before the integration and the integration, and no barrier
/// of the round itself.
pub proof fn lemma_abandoned(s: Schedule)
    requires
        s.wf(),
        s.phase is Round,
    ensures
        s.actions(seq![false, true, false]) == seq![
            Action::Step,
            Action::Barrier,
            Action::Complete,
        ],
        s.after_all(seq![false, true, false]) == iteration_ended(s),
        iteration_ended(s).wf(),
{
    let failed = seq![false, true, false];
    let stepped = s.after(false);
    let rest = failed.skip(1);
    let left = stepped.after(true);
    let tail = rest.skip(1);
    let ended = left.after(false);
    assert(s.actions(failed) == seq![Action::Step] + stepped.actions(rest));
    assert(stepped.actions(rest) == seq![Action::Barrier] + left.actions(tail));
    assert(left.actions(tail) == seq![Action::Complete] + ended.actions(tail.skip(1)));
    assert(ended.actions(tail.skip(1)) =~= Seq::<Action>::empty());
    assert(s.after_all(failed) == stepped.after_all(rest));
    assert(stepped.after_all(rest) == left.after_all(tail));
    assert(left.after_all(tail) == ended.after_all(tail.skip(1)));
    assert(s.actions(failed) =~= seq![Action::Step, Action::Barrier, Action::Complete]);
}

/// Once the run is over it stays over.
pub proof fn lemma_finished(s: Schedule, failed: bool)
    requires
        s.wf(),
    ensures
        s.action() is Finish <==> s.iteration == s.iterations,
        s.action() is Finish ==> s.after(failed) == s,
{
}

/// Calls in a row can be taken in two parts.
pub proof fn lemma_in_parts(s: Schedule, first: Seq<bool>, second: Seq<bool>)
    ensures
        s.actions(first + second) == s.actions(first) + s.after_all(first).actions(second),
        s.after_all(first + second) == s.after_all(first).after_all(second),
    decreases first.len(),
{
    if first.len() == 0 {
        assert(first + second =~= second);
        assert(s.actions(first) =~= Seq::<Action>::empty());
        assert(s.actions(first + second) =~= s.actions(first) + s.actions(second));
    } else {
        let all = first + second;
        assert(all[0] == first[0]);
        assert(all.skip(1) =~= first.skip(1) + second);
        lemma_in_parts(s.after(first[0]), first.skip(1), second);
        assert(s.actions(all) =~= s.actions(first) + s.after_all(first).actions(second));
    }
}

/// What the driver does in `count` iterations in which every round can
/// begin: one iteration after the other.
pub open spec fn iterations(size: nat, count: nat) -> Seq<Action>
    decreases count,
{
    if count == 0 {
        Seq::empty()
    } else {
        rounds(size) + seq![Action::Barrier, Action::Complete] + iterations(
            size,
            (count - 1) as nat,
        )
    }
}

/// While every round can begin, what is left of a run at the start of an
/// iteration is the iterations that have not ended yet, one after the other,
/// and then the run is over: it has as many integrations as it was started
/// with iterations, each after as many rounds as there are processes.
pub proof fn lemma_run(s: Schedule, failed: Seq<bool>)
    requires
        s.wf(),
        s.phase is Round || s.phase is Done,
        s.round == 0,
        failed.len() == (s.iterations - s.iteration) * (2 * s.size + 2),
        forall|i: int| 0 <= i < failed.len() ==> !failed[i],
    ensures
        s.actions(failed) == iterations(s.size as nat, (s.iterations - s.iteration) as nat),
        s.after_all(failed).phase is Done,
        s.after_all(failed).wf(),
        s.after_all(failed).size == s.size,
        s.after_all(failed).iterations == s.iterations,
    decreases s.iterations - s.iteration,
{
    let left = s.iterations - s.iteration;
    let one = 2 * s.size + 2;
    if left == 0 {
        assert(failed.len() == 0) by (nonlinear_arith)
            requires
                failed.len() == left * one,
                left == 0,
        ;
        assert(s.actions(failed) =~= iterations(s.size as nat, 0));
    } else {
        assert(failed.len() == one + (left - 1) * one) by (nonlinear_arith)
            requires
                failed.len() == left * one,
        ;
        assert((left - 1) * one >= 0) by (nonlinear_arith)
            requires
                left >= 1,
                one >= 0,
        ;
        let first = failed.subrange(0, one);
        let second = failed.subrange(one, failed.len() as int);
        assert(failed =~= first + second);
        lemma_iteration(s, first);
        lemma_in_parts(s, first, second);
        lemma_run(iteration_ended(s), second);
    }
}

} // verus!
