//! The fuzzing loop: pick a corpus entry, run the stages on it, and judge
//! every run with the feedback and objective trees.
use vstd::prelude::*;

use crate::corpus::{RandCorpusScheduler, Testcase, TestcaseView};
use crate::error::Error;
use crate::executors::{ExitKind, InProcessExecutor, RunOutcome};
use crate::feedbacks::{appended, appended_time, append_ok, discarded, evaluated, verdict, Feedback, FeedbackView};
use crate::observers::{run_done, Observer, ObserverSet};
use crate::mutators::Mutator;
use crate::stages::{all_accepted, StdMutationalStage};
use crate::feedbacks::plain;
use crate::rands::{mix, GOLDEN_GAMMA};
use crate::state::State;

verus! {

/// What a tree does with the metadata it recorded for an input.
#[derive(Clone, Copy, Debug, PartialEq, Eq, Structural)]
pub enum Commit {
    /// Stamp it on the kept test case.
    Append,
    /// Drop it.
    Discard,
}

/// The commit that the feedback tree and the objective tree each receive,
/// given whether the input is interesting and whether it is a solution.
pub open spec fn commit_plan(interesting: bool, solution: bool) -> (Commit, Commit) {
    if solution {
        (Commit::Discard, Commit::Append)
    } else if interesting {
        (Commit::Append, Commit::Discard)
    } else {
        (Commit::Discard, Commit::Discard)
    }
}

/// A tree after it received `c`.
pub open spec fn committed(c: Commit, v: FeedbackView) -> FeedbackView {
    match c {
        Commit::Append => appended(v),
        Commit::Discard => discarded(v),
    }
}

/// The test case kept for `input` after the tree `v` stamped it.
pub open spec fn kept_testcase(input: Seq<u8>, v: FeedbackView) -> TestcaseView {
    TestcaseView { input, exec_time: appended_time(v, None), filename: None, fuzz_level: 0 }
}

/// Each tree receives exactly one commit per judged input: the objective
/// appends exactly when the input is a solution, the feedback appends
/// exactly when the input is interesting and no solution, and each tree
/// that does not append discards.
pub proof fn lemma_commit_exactly_once(interesting: bool, solution: bool)
    ensures
        (commit_plan(interesting, solution).1 == Commit::Append) <==> solution,
        (commit_plan(interesting, solution).0 == Commit::Append) <==> (interesting && !solution),
        (commit_plan(interesting, solution).0 == Commit::Discard) <==> !(interesting && !solution),
        (commit_plan(interesting, solution).1 == Commit::Discard) <==> !solution,
{
}

/// The outcome of judging a run of `input` that ended with `ek` and left
/// the observers `obs`: the feedback tree `f0` is asked, then the objective
/// tree `o0`. A solution goes to the solutions `s0`, stamped by the
/// objective; otherwise an interesting input goes to the corpus `c0`,
/// stamped by the feedback. Each tree receives exactly one commit. The
/// result is whether the input entered the corpus, and its index there.
pub open spec fn judged(
    f0: FeedbackView,
    o0: FeedbackView,
    obs: Seq<Observer>,
    ek: ExitKind,
    input: Seq<u8>,
    c0: Seq<TestcaseView>,
    s0: Seq<TestcaseView>,
    f1: FeedbackView,
    o1: FeedbackView,
    c1: Seq<TestcaseView>,
    s1: Seq<TestcaseView>,
    r: Result<(bool, Option<usize>), Error>,
) -> bool {
    let fe = evaluated(f0, obs, ek);
    let oe = evaluated(o0, obs, ek);
    match (verdict(f0, obs, ek), verdict(o0, obs, ek)) {
        (None, _) => r is Err && f1 == fe && o1 == o0 && c1 == c0 && s1 == s0,
        (Some(_), None) => r is Err && f1 == fe && o1 == oe && c1 == c0 && s1 == s0,
        (Some(interesting), Some(solution)) => {
            let plan = commit_plan(interesting, solution);
            &&& f1 == committed(plan.0, fe)
            &&& o1 == committed(plan.1, oe)
            &&& if solution {
                &&& c1 == c0
                &&& if append_ok(oe) {
                    r == Ok::<(bool, Option<usize>), Error>((false, None)) && s1 == s0.push(kept_testcase(input, oe))
                } else {
                    r matches Err(Error::IllegalState(_)) && s1 == s0
                }
            } else if interesting {
                &&& s1 == s0
                &&& if append_ok(fe) {
                    r == Ok::<(bool, Option<usize>), Error>((true, Some(c0.len() as usize))) && c1 == c0.push(kept_testcase(input, fe))
                } else {
                    r matches Err(Error::IllegalState(_)) && c1 == c0
                }
            } else {
                r == Ok::<(bool, Option<usize>), Error>((false, None)) && c1 == c0 && s1 == s0
            }
        },
    }
}

/// `new` is `old`, or `old` with one entry for `input` appended.
pub open spec fn grew_by(old: Seq<TestcaseView>, new: Seq<TestcaseView>, input: Seq<u8>, added: bool) -> bool {
    if added {
        new.len() == old.len() + 1 && new.subrange(0, old.len() as int) == old && new.last().input == input
    } else {
        new == old
    }
}

/// The top-level fuzzer: a scheduler, a feedback tree that decides what
/// enters the corpus, and an objective tree that decides what is a solution.
pub struct StdFuzzer {
    pub scheduler: RandCorpusScheduler,
    pub feedback: Feedback,
    pub objective: Feedback,
}

impl StdFuzzer {
    pub fn new(scheduler: RandCorpusScheduler, feedback: Feedback, objective: Feedback) -> (r: Self)
        ensures
            r.feedback@ == feedback@,
            r.objective@ == objective@,
    {
        StdFuzzer { scheduler, feedback, objective }
    }

    /// Judges a finished run of `input`: asks the feedback tree, then the
    /// objective tree. A solution goes to the solutions corpus, stamped by
    /// the objective; otherwise an interesting input goes to the corpus,
    /// stamped by the feedback. Every tree that does not stamp discards.
    /// Returns whether the input entered the corpus, and its index there.
    pub fn process_execution(
        &mut self,
        state: &mut State,
        input: Vec<u8>,
        observers: &ObserverSet,
        exit_kind: ExitKind,
    ) -> (r: Result<(bool, Option<usize>), Error>)
        ensures
            final(state).rand == old(state).rand,
            final(state).metadata == old(state).metadata,
            final(state).executions == old(state).executions,
            judged(
                old(self).feedback@,
                old(self).objective@,
                observers@,
                exit_kind,
                input@,
                old(state).corpus@,
                old(state).solutions@,
                final(self).feedback@,
                final(self).objective@,
                final(state).corpus@,
                final(state).solutions@,
                r,
            ),
    {
        let interesting = match self.feedback.is_interesting(observers, exit_kind) {
            Ok(b) => b,
            Err(e) => return Err(e),
        };
        let solution = match self.objective.is_interesting(observers, exit_kind) {
            Ok(b) => b,
            Err(e) => return Err(e),
        };
        if solution {
            self.feedback.discard_metadata();
            let mut tc = Testcase::new(input);
            match self.objective.append_metadata(&mut tc) {
                Ok(()) => {},
                Err(e) => return Err(e),
            }
            state.solutions.add(tc);
            Ok((false, None))
        } else if interesting {
            self.objective.discard_metadata();
            let mut tc = Testcase::new(input);
            match self.feedback.append_metadata(&mut tc) {
                Ok(()) => {},
                Err(e) => return Err(e),
            }
            let idx = state.corpus.add(tc);
            self.scheduler.on_add(state, idx);
            Ok((true, Some(idx)))
        } else {
            self.feedback.discard_metadata();
            self.objective.discard_metadata();
            Ok((false, None))
        }
    }

    /// Runs `input` once on `executor` and judges the run as
    /// `process_execution` does.
    pub fn evaluate_input<H: Fn(&Vec<u8>) -> RunOutcome>(
        &mut self,
        state: &mut State,
        executor: &mut InProcessExecutor<H>,
        input: Vec<u8>,
    ) -> (r: Result<(bool, Option<usize>), Error>)
        requires
            old(executor).wf(),
        ensures
            final(executor).wf(),
            final(executor).harness == old(executor).harness,
            final(state).rand == old(state).rand,
            final(state).executions == if old(state).executions == u64::MAX { u64::MAX } else { (old(state).executions + 1) as u64 },
            final(state).metadata == old(state).metadata,
            exists|out: RunOutcome| #[trigger] old(executor).harness.ensures((&input,), out)
                && run_done(old(executor).observers@, final(executor).observers@, out.writes@)
                && judged(
                    old(self).feedback@,
                    old(self).objective@,
                    final(executor).observers@,
                    out.exit_kind,
                    input@,
                    old(state).corpus@,
                    old(state).solutions@,
                    final(self).feedback@,
                    final(self).objective@,
                    final(state).corpus@,
                    final(state).solutions@,
                    r,
                ),
    {
        let ghost o0 = executor.observers@;
        let ek = executor.execute(state, &input);
        let ghost out = choose|out: RunOutcome| #[trigger] old(executor).harness.ensures((&input,), out) && ek == out.exit_kind
            && run_done(o0, executor.observers@, out.writes@);
        let r = self.process_execution(state, input, &executor.observers, ek);
        assert(old(executor).harness.ensures((&input,), out));
        r
    }

    /// One fuzzing iteration: the scheduler picks a corpus entry and every
    /// stage runs on it in order. Returns the entry's index; fails with
    /// `Empty` on an empty corpus, and with the first error of a stage.
    pub fn fuzz_one<M: Mutator, H: Fn(&Vec<u8>) -> RunOutcome>(
        &mut self,
        stages: &mut Vec<StdMutationalStage<M>>,
        executor: &mut InProcessExecutor<H>,
        state: &mut State,
    ) -> (r: Result<usize, Error>)
        requires
            old(executor).wf(),
        ensures
            final(executor).wf(),
            final(executor).harness == old(executor).harness,
            final(stages)@.len() == old(stages)@.len(),
            forall|k: int| 0 <= k < old(stages)@.len() ==> (#[trigger] final(stages)@[k]).spec_mutator().never_fails()
                == old(stages)@[k].spec_mutator().never_fails(),
            old(state).corpus@.is_prefix_of(final(state).corpus@),
            old(state).solutions@.is_prefix_of(final(state).solutions@),
            old(state).corpus@.len() == 0 ==> r matches Err(Error::Empty(_)),
            r matches Ok(i) ==> i < old(state).corpus@.len()
                && i == mix(old(state).rand.spec_state().wrapping_add(GOLDEN_GAMMA)) % (old(state).corpus@.len() as u64),
            (old(state).corpus@.len() > 0 && plain(old(self).feedback@) && plain(old(self).objective@)
                && forall|k: int| 0 <= k < old(stages)@.len() ==> (#[trigger] old(stages)@[k]).spec_mutator().never_fails())
                ==> r is Ok,
            (plain(old(self).feedback@) && plain(old(self).objective@)) ==> {
                &&& final(self).feedback@ == old(self).feedback@
                &&& final(self).objective@ == old(self).objective@
                &&& all_accepted(old(executor).harness, old(self).feedback@, old(self).objective@, old(state).corpus@, final(state).corpus@, false)
                &&& all_accepted(old(executor).harness, old(self).feedback@, old(self).objective@, old(state).solutions@, final(state).solutions@, true)
            },
    {
        let idx = match self.scheduler.next(state) {
            Ok(i) => i,
            Err(e) => return Err(e),
        };
        let n = stages.len();
        let ghost c0 = old(state).corpus@;
        let ghost s0 = old(state).solutions@;
        let ghost f0 = old(self).feedback@;
        let ghost g0 = old(self).objective@;
        let ghost h = old(executor).harness;
        let ghost is_plain = plain(f0) && plain(g0);
        let mut k: usize = 0;
        while k < n
            invariant
                executor.wf(),
                executor.harness == h,
                h == old(executor).harness,
                k <= n,
                n == stages@.len(),
                n == old(stages)@.len(),
                forall|j: int| 0 <= j < n ==> (#[trigger] stages@[j]).spec_mutator().never_fails()
                    == old(stages)@[j].spec_mutator().never_fails(),
                idx < c0.len(),
                c0 == old(state).corpus@,
                s0 == old(state).solutions@,
                f0 == old(self).feedback@,
                g0 == old(self).objective@,
                is_plain == (plain(f0) && plain(g0)),
                c0.is_prefix_of(state.corpus@),
                s0.is_prefix_of(state.solutions@),
                is_plain ==> self.feedback@ == f0 && self.objective@ == g0
                    && all_accepted(h, f0, g0, c0, state.corpus@, false)
                    && all_accepted(h, f0, g0, s0, state.solutions@, true),
            decreases n - k,
        {
            let ghost c1 = state.corpus@;
            let ghost s1 = state.solutions@;
            let ghost st0 = stages@;
            let stage = &mut stages[k];
            let res = stage.perform(self, executor, state, idx);
            proof {
                assert(c0.is_prefix_of(state.corpus@)) by {
                    assert(c1.is_prefix_of(state.corpus@));
                    assert forall|j: int| 0 <= j < c0.len() implies state.corpus@[j] == c0[j] by {
                        assert(c1[j] == c0[j]);
                    }
                }
                assert(s0.is_prefix_of(state.solutions@)) by {
                    assert(s1.is_prefix_of(state.solutions@));
                    assert forall|j: int| 0 <= j < s0.len() implies state.solutions@[j] == s0[j] by {
                        assert(s1[j] == s0[j]);
                    }
                }
                if is_plain {
                    assert forall|j: int| c0.len() <= j < state.corpus@.len() implies #[trigger] crate::stages::accepted(h, f0, g0, state.corpus@[j], false) by {
                        if j < c1.len() {
                            assert(state.corpus@[j] == c1[j]);
                        }
                    }
                    assert forall|j: int| s0.len() <= j < state.solutions@.len() implies #[trigger] crate::stages::accepted(h, f0, g0, state.solutions@[j], true) by {
                        if j < s1.len() {
                            assert(state.solutions@[j] == s1[j]);
                        }
                    }
                }
                assert forall|j: int| 0 <= j < n implies (#[trigger] stages@[j]).spec_mutator().never_fails()
                    == old(stages)@[j].spec_mutator().never_fails() by {
                    if j != k {
                        assert(stages@[j] == st0[j]);
                    }
                }
            }
            match res {
                Ok(()) => {},
                Err(e) => return Err(e),
            }
            k = k + 1;
        }
        Ok(idx)
    }
}

} // verus!
