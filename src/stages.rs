//! Stages: the units of work of one fuzzing iteration on a corpus entry.
use vstd::prelude::*;

use crate::error::Error;
use crate::executors::{ExitKind, InProcessExecutor, RunOutcome, ShadowExecutor};
use crate::fuzzer::StdFuzzer;
use crate::mutators::Mutator;
use crate::observers::{lemma_run_with_writes, run_done, ObserverWrite};
use crate::rands::{mix, StdRand, GOLDEN_GAMMA};
use crate::corpus::TestcaseView;
use crate::feedbacks::{lemma_plain, plain, verdict, FeedbackView};
use crate::fuzzer::{judged, kept_testcase};
use crate::state::State;

verus! {

/// The largest number of mutated runs of one mutational stage.
pub const DEFAULT_MUTATIONAL_MAX_ITERATIONS: u64 = 128;

/// The state after `n` runs were counted on top of `e`.
pub open spec fn counted(e: u64, n: nat) -> u64 {
    if e + n > u64::MAX { u64::MAX } else { (e + n) as u64 }
}

/// How many rounds a mutational stage draws from generator state `s`.
pub open spec fn drawn_iterations(s: u64) -> nat {
    1 + (mix(s.wrapping_add(GOLDEN_GAMMA)) % (DEFAULT_MUTATIONAL_MAX_ITERATIONS as u64)) as nat
}

/// `t` is an input on which `harness` ran with an outcome that the plain
/// objective `obj` judges `solution`, and, when it is no solution, that the
/// plain feedback `fb` finds interesting: the only way such an input is
/// kept.
pub open spec fn accepted<H: Fn(&Vec<u8>) -> RunOutcome>(
    harness: H,
    fb: FeedbackView,
    obj: FeedbackView,
    t: TestcaseView,
    solution: bool,
) -> bool {
    exists|input: Vec<u8>, out: RunOutcome| #![trigger harness.ensures((&input,), out)]
        input@ == t.input && harness.ensures((&input,), out)
        && verdict(obj, Seq::empty(), out.exit_kind) == Some(solution)
        && (!solution ==> verdict(fb, Seq::empty(), out.exit_kind) == Some(true))
}

/// Every entry of `new` past the length of `old` was accepted.
pub open spec fn all_accepted<H: Fn(&Vec<u8>) -> RunOutcome>(
    harness: H,
    fb: FeedbackView,
    obj: FeedbackView,
    old: Seq<TestcaseView>,
    new: Seq<TestcaseView>,
    solution: bool,
) -> bool {
    forall|k: int| old.len() <= k < new.len() ==> #[trigger] accepted(harness, fb, obj, new[k], solution)
}

/// One judged round with plain trees succeeds, leaves the trees as they
/// were, and keeps only accepted inputs.
proof fn lemma_round_accepted<H: Fn(&Vec<u8>) -> RunOutcome>(
    h: H,
    f0: FeedbackView,
    g0: FeedbackView,
    input: Vec<u8>,
    c0: Seq<TestcaseView>,
    s0: Seq<TestcaseView>,
    c1: Seq<TestcaseView>,
    s1: Seq<TestcaseView>,
    c2: Seq<TestcaseView>,
    s2: Seq<TestcaseView>,
    f2: FeedbackView,
    g2: FeedbackView,
    obs: Seq<crate::observers::Observer>,
    res: Result<(bool, Option<usize>), Error>,
)
    requires
        plain(f0),
        plain(g0),
        c0.is_prefix_of(c1),
        s0.is_prefix_of(s1),
        all_accepted(h, f0, g0, c0, c1, false),
        all_accepted(h, f0, g0, s0, s1, true),
        exists|out: RunOutcome| #[trigger] h.ensures((&input,), out)
            && judged(f0, g0, obs, out.exit_kind, input@, c1, s1, f2, g2, c2, s2, res),
    ensures
        res is Ok,
        f2 == f0,
        g2 == g0,
        all_accepted(h, f0, g0, c0, c2, false),
        all_accepted(h, f0, g0, s0, s2, true),
{
    let out = choose|out: RunOutcome| #[trigger] h.ensures((&input,), out)
        && judged(f0, g0, obs, out.exit_kind, input@, c1, s1, f2, g2, c2, s2, res);
    lemma_plain(f0, obs, out.exit_kind, None);
    lemma_plain(g0, obs, out.exit_kind, None);
    assert forall|k: int| c0.len() <= k < c2.len() implies #[trigger] accepted(h, f0, g0, c2[k], false) by {
        if k < c1.len() {
            assert(c2[k] == c1[k]);
            assert(accepted(h, f0, g0, c1[k], false));
        } else {
            assert(c2[k] == kept_testcase(input@, f0));
            assert(h.ensures((&input,), out));
        }
    }
    assert forall|k: int| s0.len() <= k < s2.len() implies #[trigger] accepted(h, f0, g0, s2[k], true) by {
        if k < s1.len() {
            assert(s2[k] == s1[k]);
            assert(accepted(h, f0, g0, s1[k], true));
        } else {
            assert(s2[k] == kept_testcase(input@, g0));
            assert(h.ensures((&input,), out));
        }
    }
}

/// The default mutational stage: mutates the entry a random number of
/// times and judges each mutated input.
pub struct StdMutationalStage<M: Mutator> {
    mutator: M,
}

impl<M: Mutator> StdMutationalStage<M> {
    /// A stage that mutates with `mutator`.
    pub fn new(mutator: M) -> (r: Self)
        ensures
            r.spec_mutator() == mutator,
    {
        StdMutationalStage { mutator }
    }

    pub closed spec fn spec_mutator(&self) -> M {
        self.mutator
    }

    pub fn mutator(&self) -> (r: &M)
        ensures
            *r == self.spec_mutator(),
    {
        &self.mutator
    }

    pub fn mutator_mut(&mut self) -> (r: &mut M)
        ensures
            *r == old(self).spec_mutator(),
            final(self).spec_mutator() == *final(r),
    {
        &mut self.mutator
    }

    /// How many mutated runs to make: between 1 and
    /// `DEFAULT_MUTATIONAL_MAX_ITERATIONS`.
    pub fn iterations(&self, rand: &mut StdRand) -> (r: usize)
        ensures
            1 <= r <= DEFAULT_MUTATIONAL_MAX_ITERATIONS,
            r == drawn_iterations(old(rand).spec_state()),
            final(rand).spec_state() == old(rand).spec_state().wrapping_add(GOLDEN_GAMMA),
    {
        1 + rand.below(DEFAULT_MUTATIONAL_MAX_ITERATIONS) as usize
    }

    /// Runs the stage on corpus entry `corpus_idx`: for each round, a copy
    /// of the entry is mutated, run once and judged, and the mutator learns
    /// the outcome. Fails with `KeyNotFound` on an index outside the
    /// corpus, leaving the state as it was.
    pub fn perform<H: Fn(&Vec<u8>) -> RunOutcome>(
        &mut self,
        fuzzer: &mut StdFuzzer,
        executor: &mut InProcessExecutor<H>,
        state: &mut State,
        corpus_idx: usize,
    ) -> (r: Result<(), Error>)
        requires
            old(executor).wf(),
        ensures
            final(executor).wf(),
            final(executor).harness == old(executor).harness,
            final(self).spec_mutator().never_fails() == old(self).spec_mutator().never_fails(),
            old(state).corpus@.is_prefix_of(final(state).corpus@),
            old(state).solutions@.is_prefix_of(final(state).solutions@),
            corpus_idx >= old(state).corpus@.len() ==> (r matches Err(Error::KeyNotFound(_)))
                && *final(self) == *old(self) && *final(fuzzer) == *old(fuzzer) && *final(executor) == *old(executor)
                && *final(state) == *old(state),
            (corpus_idx < old(state).corpus@.len() && r is Ok) ==> final(state).executions
                == counted(old(state).executions, drawn_iterations(old(state).rand.spec_state())),
            (corpus_idx < old(state).corpus@.len() && plain(old(fuzzer).feedback@) && plain(old(fuzzer).objective@)
                && old(self).spec_mutator().never_fails()) ==> r is Ok,
            (plain(old(fuzzer).feedback@) && plain(old(fuzzer).objective@)) ==> {
                &&& final(fuzzer).feedback@ == old(fuzzer).feedback@
                &&& final(fuzzer).objective@ == old(fuzzer).objective@
                &&& all_accepted(old(executor).harness, old(fuzzer).feedback@, old(fuzzer).objective@, old(state).corpus@, final(state).corpus@, false)
                &&& all_accepted(old(executor).harness, old(fuzzer).feedback@, old(fuzzer).objective@, old(state).solutions@, final(state).solutions@, true)
            },
    {
        if corpus_idx >= state.corpus.count() {
            return Err(Error::KeyNotFound(String::from_str("corpus index out of range")));
        }
        let num = self.iterations(&mut state.rand);
        let ghost c0 = state.corpus@;
        let ghost s0 = state.solutions@;
        let ghost e0 = state.executions;
        let ghost f0 = fuzzer.feedback@;
        let ghost g0 = fuzzer.objective@;
        let ghost h = executor.harness;
        let ghost is_plain = plain(f0) && plain(g0);
        let mut i: usize = 0;
        while i < num
            invariant
                executor.wf(),
                executor.harness == h,
                h == old(executor).harness,
                1 <= num <= DEFAULT_MUTATIONAL_MAX_ITERATIONS,
                num == drawn_iterations(old(state).rand.spec_state()),
                i <= num,
                corpus_idx < c0.len(),
                c0 == old(state).corpus@,
                s0 == old(state).solutions@,
                e0 == old(state).executions,
                f0 == old(fuzzer).feedback@,
                g0 == old(fuzzer).objective@,
                is_plain == (plain(f0) && plain(g0)),
                self.mutator.never_fails() == old(self).spec_mutator().never_fails(),
                c0.is_prefix_of(state.corpus@),
                s0.is_prefix_of(state.solutions@),
                state.executions == counted(e0, i as nat),
                is_plain ==> fuzzer.feedback@ == f0 && fuzzer.objective@ == g0
                    && all_accepted(h, f0, g0, c0, state.corpus@, false)
                    && all_accepted(h, f0, g0, s0, state.solutions@, true),
            decreases num - i,
        {
            let mut input = match state.corpus.get(corpus_idx) {
                Ok(tc) => tc.load_input(),
                Err(e) => return Err(e),
            };
            match self.mutator.mutate(&mut state.rand, &mut input, i as i32) {
                Ok(_) => {},
                Err(e) => return Err(e),
            }
            let ghost c1 = state.corpus@;
            let ghost s1 = state.solutions@;
            let ghost in_g = input;
            let res = fuzzer.evaluate_input(state, executor, input);
            proof {
                if c1.len() < state.corpus@.len() {
                    assert(state.corpus@.subrange(0, c1.len() as int) == c1);
                }
                if s1.len() < state.solutions@.len() {
                    assert(state.solutions@.subrange(0, s1.len() as int) == s1);
                }
                assert(c1.is_prefix_of(state.corpus@));
                assert(s1.is_prefix_of(state.solutions@));
                assert(c0.is_prefix_of(state.corpus@));
                assert(s0.is_prefix_of(state.solutions@));
                if is_plain {
                    lemma_round_accepted(h, f0, g0, in_g, c0, s0, c1, s1, state.corpus@, state.solutions@,
                        fuzzer.feedback@, fuzzer.objective@, executor.observers@, res);
                }
            }
            let new_idx = match res {
                Ok((_, idx)) => idx,
                Err(e) => return Err(e),
            };
            match self.mutator.post_exec(&mut state.rand, i as i32, new_idx) {
                Ok(()) => {},
                Err(e) => return Err(e),
            }
            i = i + 1;
        }
        assert(counted(e0, num as nat) == state.executions);
        Ok(())
    }
}

/// Runs a dedicated tracing executor once on the selected entry, outside
/// of the judging, so that its observers are filled for later stages.
pub struct TracingStage<H: Fn(&Vec<u8>) -> RunOutcome> {
    pub tracer_executor: InProcessExecutor<H>,
}

impl<H: Fn(&Vec<u8>) -> RunOutcome> TracingStage<H> {
    pub fn new(tracer_executor: InProcessExecutor<H>) -> (r: Self)
        ensures
            r.tracer_executor == tracer_executor,
    {
        TracingStage { tracer_executor }
    }

    /// Runs the tracer once on corpus entry `corpus_idx`: its observers
    /// reset, the target runs, the run is counted, and the observers seal.
    /// Fails with `KeyNotFound` on an index outside the corpus.
    pub fn perform(&mut self, state: &mut State, corpus_idx: usize) -> (r: Result<(), Error>)
        requires
            old(self).tracer_executor.wf(),
        ensures
            final(self).tracer_executor.wf(),
            final(self).tracer_executor.harness == old(self).tracer_executor.harness,
            final(state).corpus == old(state).corpus,
            final(state).solutions == old(state).solutions,
            final(state).metadata == old(state).metadata,
            final(state).rand == old(state).rand,
            corpus_idx < old(state).corpus@.len() ==> r is Ok
                && (exists|input: Vec<u8>, out: RunOutcome| #![trigger old(self).tracer_executor.harness.ensures((&input,), out)]
                    input@ == old(state).corpus@[corpus_idx as int].input
                    && old(self).tracer_executor.harness.ensures((&input,), out)
                    && run_done(old(self).tracer_executor.observers@, final(self).tracer_executor.observers@, out.writes@))
                && final(state).executions == counted(old(state).executions, 1),
            corpus_idx >= old(state).corpus@.len() ==> (r matches Err(Error::KeyNotFound(_)))
                && *final(self) == *old(self) && final(state).executions == old(state).executions,
    {
        let input = match state.corpus.get(corpus_idx) {
            Ok(tc) => tc.load_input(),
            Err(e) => return Err(e),
        };
        let ghost o0 = self.tracer_executor.observers@;
        self.tracer_executor.pre_exec_observers();
        let ghost o1 = self.tracer_executor.observers@;
        let ek = self.tracer_executor.run_target(&input);
        let ghost o2 = self.tracer_executor.observers@;
        state.count_execution();
        self.tracer_executor.post_exec_observers();
        proof {
            let out = choose|out: RunOutcome| #[trigger] old(self).tracer_executor.harness.ensures((&input,), out)
                && ek == out.exit_kind && crate::observers::written(o1, o2, out.writes@);
            lemma_run_with_writes(o0, o1, o2, self.tracer_executor.observers@, out.writes@);
            assert(old(self).tracer_executor.harness.ensures((&input,), out));
        }
        Ok(())
    }
}

/// Runs the shadow executor once on the selected entry with its shadow
/// observers switched on.
pub struct ShadowTracingStage {}

impl ShadowTracingStage {
    pub fn new<H: Fn(&Vec<u8>) -> RunOutcome>(executor: &ShadowExecutor<H>) -> (r: Self) {
        ShadowTracingStage {}
    }

    /// Runs `executor` once on corpus entry `corpus_idx` with the shadow
    /// hooks on, then restores the hooks' previous setting. Both observer
    /// sets go through a full run. Fails with `KeyNotFound` on an index
    /// outside the corpus.
    pub fn perform<H: Fn(&Vec<u8>) -> RunOutcome>(
        &mut self,
        executor: &mut ShadowExecutor<H>,
        state: &mut State,
        corpus_idx: usize,
    ) -> (r: Result<(), Error>)
        requires
            old(executor).wf(),
        ensures
            final(executor).wf(),
            final(executor).shadow_hooks == old(executor).shadow_hooks,
            final(executor).executor.harness == old(executor).executor.harness,
            final(state).corpus == old(state).corpus,
            final(state).solutions == old(state).solutions,
            final(state).metadata == old(state).metadata,
            final(state).rand == old(state).rand,
            corpus_idx < old(state).corpus@.len() ==> r is Ok
                && (exists|input: Vec<u8>, out: RunOutcome| #![trigger old(executor).executor.harness.ensures((&input,), out)]
                    input@ == old(state).corpus@[corpus_idx as int].input
                    && old(executor).executor.harness.ensures((&input,), out)
                    && run_done(old(executor).executor.observers@, final(executor).executor.observers@, out.writes@))
                && run_done(old(executor).shadow_observers@, final(executor).shadow_observers@, Seq::<ObserverWrite>::empty())
                && final(state).executions == counted(old(state).executions, 1),
            corpus_idx >= old(state).corpus@.len() ==> (r matches Err(Error::KeyNotFound(_)))
                && *final(executor) == *old(executor) && final(state).executions == old(state).executions,
    {
        let input = match state.corpus.get(corpus_idx) {
            Ok(tc) => tc.load_input(),
            Err(e) => return Err(e),
        };
        let prev_shadow_hooks = executor.shadow_hooks;
        executor.shadow_hooks = true;
        let ghost a0 = executor.executor.observers@;
        let ghost b0 = executor.shadow_observers@;
        executor.pre_exec_observers();
        let ghost a1 = executor.executor.observers@;
        let ghost b1 = executor.shadow_observers@;
        let ek = executor.run_target(&input);
        let ghost a2 = executor.executor.observers@;
        state.count_execution();
        executor.post_exec_observers();
        proof {
            let out = choose|out: RunOutcome| #[trigger] old(executor).executor.harness.ensures((&input,), out)
                && ek == out.exit_kind && crate::observers::written(a1, a2, out.writes@);
            lemma_run_with_writes(a0, a1, a2, executor.executor.observers@, out.writes@);
            assert(old(executor).executor.harness.ensures((&input,), out));
            assert(crate::observers::written(b1, b1, Seq::<ObserverWrite>::empty()));
            lemma_run_with_writes(b0, b1, b1, executor.shadow_observers@, Seq::<ObserverWrite>::empty());
        }
        executor.shadow_hooks = prev_shadow_hooks;
        Ok(())
    }
}

} // verus!
