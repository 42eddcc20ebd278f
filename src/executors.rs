//! Running the target: the exit status of a run, and the executor that
//! brackets each run with the observers' hooks.
use vstd::prelude::*;

use crate::observers::{lemma_run_with_writes, post_exec_done, pre_exec_done, run_done, written, ObserverSet, ObserverWrite};
use crate::state::State;

verus! {

/// How a run of the target ended.
#[derive(Clone, Copy, Debug, PartialEq, Eq, Structural)]
pub enum ExitKind {
    /// The run completed normally.
    Normal,
    Crash,
    Timeout,
    /// The run disagreed with a reference run (differential fuzzing).
    Diff,
}

} // verus!

verus! {

/// What one run of the target produced: how it ended, and what it wrote
/// into the observers, in order.
pub struct RunOutcome {
    pub exit_kind: ExitKind,
    pub writes: Vec<ObserverWrite>,
}

impl RunOutcome {
    /// A run that ended with `exit_kind` and wrote nothing.
    pub fn new(exit_kind: ExitKind) -> (r: Self)
        ensures
            r.exit_kind == exit_kind,
            r.writes@.len() == 0,
    {
        RunOutcome { exit_kind, writes: Vec::new() }
    }

    /// A run that ended with `exit_kind` after making `writes`.
    pub fn with_writes(exit_kind: ExitKind, writes: Vec<ObserverWrite>) -> (r: Self)
        ensures
            r.exit_kind == exit_kind,
            r.writes == writes,
    {
        RunOutcome { exit_kind, writes }
    }
}

/// Runs the target in this process by calling the harness on the input.
pub struct InProcessExecutor<H: Fn(&Vec<u8>) -> RunOutcome> {
    pub harness: H,
    pub observers: ObserverSet,
}

impl<H: Fn(&Vec<u8>) -> RunOutcome> InProcessExecutor<H> {
    /// The harness accepts every input and the observers are well formed.
    pub open spec fn wf(&self) -> bool {
        &&& forall|input: &Vec<u8>| #[trigger] self.harness.requires((input,))
        &&& self.observers.wf()
    }

    /// An executor that runs `harness` under `observers`.
    pub fn new(harness: H, observers: ObserverSet) -> (r: Self)
        ensures
            r.harness == harness,
            r.observers == observers,
    {
        InProcessExecutor { harness, observers }
    }

    /// Resets every observer before a run.
    pub fn pre_exec_observers(&mut self)
        requires
            old(self).wf(),
        ensures
            final(self).wf(),
            final(self).harness == old(self).harness,
            pre_exec_done(old(self).observers@, final(self).observers@),
    {
        self.observers.pre_exec_all();
    }

    /// Calls the harness on `input` and applies, in order, what the target
    /// wrote into the observers; the observers' hooks are not run.
    pub fn run_target(&mut self, input: &Vec<u8>) -> (r: ExitKind)
        requires
            old(self).wf(),
        ensures
            final(self).wf(),
            final(self).harness == old(self).harness,
            exists|out: RunOutcome| #[trigger] old(self).harness.ensures((input,), out) && r == out.exit_kind
                && written(old(self).observers@, final(self).observers@, out.writes@),
    {
        let out = (self.harness)(input);
        let ghost out_g = out;
        let ghost o0 = self.observers@;
        let RunOutcome { exit_kind, writes } = out;
        let ghost ws = writes@;
        let mut writes = writes;
        proof {
            vstd::std_specs::vec::axiom_spec_len(&writes);
        }
        let mut k: usize = 0;
        while writes.len() > 0
            invariant
                self.wf(),
                self.harness == old(self).harness,
                k <= ws.len(),
                k + writes@.len() == ws.len(),
                ws.len() <= usize::MAX,
                writes@ == ws.subrange(k as int, ws.len() as int),
                written(o0, self.observers@, ws.take(k as int)),
                forall|i: int| 0 <= i < o0.len() ==> (#[trigger] o0[i]).wf(),
            decreases writes@.len(),
        {
            let ghost o1 = self.observers@;
            let w = writes.remove(0);
            assert(w == ws[k as int]);
            self.observers.apply_write(w);
            proof {
                let o2 = self.observers@;
                assert(ws.take(k + 1) =~= ws.take(k as int).push(w));
                assert forall|i: int| 0 <= i < o0.len() implies (#[trigger] o2[i]).shape() == o0[i].shape()
                    && (o0[i].wf() ==> o2[i].wf())
                    && (o0[i] is Time ==> o2[i] == o0[i])
                    && ((forall|j: int| 0 <= j < ws.take(k + 1).len() ==> (#[trigger] ws.take(k + 1)[j]).target() != i) ==> o2[i] == o0[i]) by {
                    assert(o1[i].shape() == o0[i].shape());
                    if forall|j: int| 0 <= j < ws.take(k + 1).len() ==> (#[trigger] ws.take(k + 1)[j]).target() != i {
                        assert(ws.take(k + 1)[k as int] == w);
                        assert(seq![w][0] == w);
                        assert forall|j: int| 0 <= j < ws.take(k as int).len() implies (#[trigger] ws.take(k as int)[j]).target() != i by {
                            assert(ws.take(k as int)[j] == ws.take(k + 1)[j]);
                        }
                        assert(forall|j: int| 0 <= j < seq![w].len() ==> (#[trigger] seq![w][j]).target() != i);
                    }
                    if o0[i] is Time {
                        assert(o1[i] == o0[i]);
                    }
                }
                assert(o2.len() == o0.len());
            }
            k = k + 1;
            assert(writes@ =~= ws.subrange(k as int, ws.len() as int));
        }
        assert(ws.take(k as int) =~= ws);
        exit_kind
    }

    /// Seals every observer after a run.
    pub fn post_exec_observers(&mut self)
        requires
            old(self).wf(),
        ensures
            final(self).wf(),
            final(self).harness == old(self).harness,
            post_exec_done(old(self).observers@, final(self).observers@),
    {
        self.observers.post_exec_all();
    }

    /// One full run: every observer resets, the target runs and writes
    /// into the observers, the run is counted, and every observer seals.
    /// Afterwards each time observer holds a runtime, and each coverage or
    /// comparison observer that the target did not write to is reset.
    pub fn execute(&mut self, state: &mut State, input: &Vec<u8>) -> (r: ExitKind)
        requires
            old(self).wf(),
        ensures
            final(self).wf(),
            final(self).harness == old(self).harness,
            exists|out: RunOutcome| #[trigger] old(self).harness.ensures((input,), out) && r == out.exit_kind
                && run_done(old(self).observers@, final(self).observers@, out.writes@),
            final(state).executions == if old(state).executions == u64::MAX { u64::MAX } else { (old(state).executions + 1) as u64 },
            final(state).rand == old(state).rand,
            final(state).corpus == old(state).corpus,
            final(state).solutions == old(state).solutions,
            final(state).metadata == old(state).metadata,
    {
        let ghost o0 = self.observers@;
        self.pre_exec_observers();
        let ghost o1 = self.observers@;
        let ek = self.run_target(input);
        let ghost o2 = self.observers@;
        state.count_execution();
        self.post_exec_observers();
        proof {
            let out = choose|out: RunOutcome| #[trigger] old(self).harness.ensures((input,), out) && ek == out.exit_kind
                && written(o1, o2, out.writes@);
            lemma_run_with_writes(o0, o1, o2, self.observers@, out.writes@);
        }
        ek
    }
}

/// Wraps an executor with a second set of observers, which receive the
/// hooks only while `shadow_hooks` is on.
pub struct ShadowExecutor<H: Fn(&Vec<u8>) -> RunOutcome> {
    pub executor: InProcessExecutor<H>,
    pub shadow_observers: ObserverSet,
    pub shadow_hooks: bool,
}

impl<H: Fn(&Vec<u8>) -> RunOutcome> ShadowExecutor<H> {
    pub open spec fn wf(&self) -> bool {
        self.executor.wf() && self.shadow_observers.wf()
    }

    /// Wraps `executor`; the shadow observers are off.
    pub fn new(executor: InProcessExecutor<H>, shadow_observers: ObserverSet) -> (r: Self)
        ensures
            r.executor == executor,
            r.shadow_observers == shadow_observers,
            !r.shadow_hooks,
    {
        ShadowExecutor { executor, shadow_observers, shadow_hooks: false }
    }

    /// Resets the observers, and the shadow observers when their hooks are on.
    pub fn pre_exec_observers(&mut self)
        requires
            old(self).wf(),
        ensures
            final(self).wf(),
            final(self).shadow_hooks == old(self).shadow_hooks,
            final(self).executor.harness == old(self).executor.harness,
            pre_exec_done(old(self).executor.observers@, final(self).executor.observers@),
            !old(self).shadow_hooks ==> final(self).shadow_observers == old(self).shadow_observers,
            old(self).shadow_hooks ==> pre_exec_done(old(self).shadow_observers@, final(self).shadow_observers@),
    {
        self.executor.pre_exec_observers();
        if self.shadow_hooks {
            self.shadow_observers.pre_exec_all();
        }
    }

    /// Calls the harness on `input`.
    pub fn run_target(&mut self, input: &Vec<u8>) -> (r: ExitKind)
        requires
            old(self).wf(),
        ensures
            final(self).wf(),
            final(self).shadow_hooks == old(self).shadow_hooks,
            final(self).shadow_observers == old(self).shadow_observers,
            final(self).executor.harness == old(self).executor.harness,
            exists|out: RunOutcome| #[trigger] old(self).executor.harness.ensures((input,), out) && r == out.exit_kind
                && written(old(self).executor.observers@, final(self).executor.observers@, out.writes@),
    {
        self.executor.run_target(input)
    }

    /// Seals the observers, and the shadow observers when their hooks are on.
    pub fn post_exec_observers(&mut self)
        requires
            old(self).wf(),
        ensures
            final(self).wf(),
            final(self).shadow_hooks == old(self).shadow_hooks,
            final(self).executor.harness == old(self).executor.harness,
            post_exec_done(old(self).executor.observers@, final(self).executor.observers@),
            !old(self).shadow_hooks ==> final(self).shadow_observers == old(self).shadow_observers,
            old(self).shadow_hooks ==> post_exec_done(old(self).shadow_observers@, final(self).shadow_observers@),
    {
        self.executor.post_exec_observers();
        if self.shadow_hooks {
            self.shadow_observers.post_exec_all();
        }
    }
}

} // verus!
