//! Observers collect raw per-run signals: wall time, a coverage map, and
//! comparison logs. Every observer is reset before a run and sealed after.
use vstd::prelude::*;

use core::time::Duration;
use std::time::Instant;

use crate::cmp::{CmpMap, CmpObserver, CmpValues, StdCmpObserver};

verus! {

/// Declares std::time::Instant, a reading of the monotonic clock, so that
/// the time observer can hold the start of a run.
#[verifier::external_type_specification]
#[verifier::external_body]
pub struct ExInstant(std::time::Instant);

/// Relies on std::time::Instant::now: a reading of the monotonic clock.
#[verifier::external_body]
fn clock_now() -> (r: Instant) {
    Instant::now()
}

/// Relies on std::time::Instant::elapsed: the time since `start`.
#[verifier::external_body]
fn elapsed_since(start: &Instant) -> (r: Duration) {
    start.elapsed()
}

/// Whether `a` and `b` hold the same text.
pub fn same_text(a: &String, b: &str) -> (r: bool)
    ensures
        r == (a@ == b@),
{
    let c = String::from_str(b);
    a.eq(&c)
}

/// Measures how long each run of the target took.
pub struct TimeObserver {
    name: String,
    start: Option<Instant>,
    last_runtime: Option<Duration>,
}

impl TimeObserver {
    pub closed spec fn spec_name(&self) -> Seq<char> {
        self.name@
    }

    pub closed spec fn spec_last_runtime(&self) -> Option<Duration> {
        self.last_runtime
    }

    /// The clock was started by a `pre_exec`.
    pub closed spec fn is_timing(&self) -> bool {
        self.start is Some
    }

    /// A time observer named `name` that has not seen a run.
    pub fn new(name: &str) -> (r: Self)
        ensures
            r.spec_name() == name@,
            r.spec_last_runtime() is None,
    {
        TimeObserver { name: String::from_str(name), start: None, last_runtime: None }
    }

    pub fn name(&self) -> (r: &str)
        ensures
            r@ == self.spec_name(),
    {
        self.name.as_str()
    }

    /// How long the last run took, once it has finished.
    pub fn last_runtime(&self) -> (r: Option<Duration>)
        ensures
            r == self.spec_last_runtime(),
    {
        self.last_runtime
    }

    /// Sets the runtime of the last run, as an executor that times the
    /// target itself does.
    pub fn set_last_runtime(&mut self, t: Option<Duration>)
        ensures
            final(self).spec_name() == old(self).spec_name(),
            final(self).spec_last_runtime() == t,
    {
        self.last_runtime = t;
    }

    /// Before a run: forget the last runtime and start the clock.
    pub fn pre_exec(&mut self)
        ensures
            final(self).spec_name() == old(self).spec_name(),
            final(self).spec_last_runtime() is None,
            final(self).is_timing(),
    {
        self.last_runtime = None;
        self.start = Some(clock_now());
    }

    /// After a run: the time since the clock was started is the runtime.
    pub fn post_exec(&mut self)
        ensures
            final(self).spec_name() == old(self).spec_name(),
            old(self).is_timing() ==> final(self).spec_last_runtime() is Some,
            !old(self).is_timing() ==> final(self).spec_last_runtime() == old(self).spec_last_runtime(),
    {
        match &self.start {
            Some(s) => {
                self.last_runtime = Some(elapsed_since(s));
            },
            None => {},
        }
    }
}

/// A coverage map of byte counters that the target bumps during a run.
pub struct StdMapObserver {
    name: String,
    map: Vec<u8>,
}

impl StdMapObserver {
    pub closed spec fn spec_name(&self) -> Seq<char> {
        self.name@
    }

    pub closed spec fn spec_map(&self) -> Seq<u8> {
        self.map@
    }

    /// A map observer named `name` over `len` zeroed counters.
    pub fn new(name: &str, len: usize) -> (r: Self)
        ensures
            r.spec_name() == name@,
            r.spec_map() == Seq::new(len as nat, |i: int| 0u8),
    {
        let mut map: Vec<u8> = Vec::new();
        let mut k: usize = 0;
        while k < len
            invariant
                k <= len,
                map@ == Seq::new(k as nat, |i: int| 0u8),
            decreases len - k,
        {
            map.push(0);
            k = k + 1;
            assert(map@ =~= Seq::new(k as nat, |i: int| 0u8));
        }
        StdMapObserver { name: String::from_str(name), map }
    }

    pub fn name(&self) -> (r: &str)
        ensures
            r@ == self.spec_name(),
    {
        self.name.as_str()
    }

    /// The counters.
    pub fn map(&self) -> (r: &Vec<u8>)
        ensures
            r@ == self.spec_map(),
    {
        &self.map
    }

    /// Sets counter `i`, as the target does during a run.
    pub fn set(&mut self, i: usize, v: u8)
        requires
            i < old(self).spec_map().len(),
        ensures
            final(self).spec_name() == old(self).spec_name(),
            final(self).spec_map() == old(self).spec_map().update(i as int, v),
    {
        self.map.set(i, v);
    }

    /// Before a run: every counter goes back to zero.
    pub fn pre_exec(&mut self)
        ensures
            final(self).spec_name() == old(self).spec_name(),
            final(self).spec_map() == Seq::new(old(self).spec_map().len(), |i: int| 0u8),
    {
        let len = self.map.len();
        let mut k: usize = 0;
        while k < len
            invariant
                k <= len,
                len == self.map@.len(),
                self.name == old(self).name,
                forall|i: int| 0 <= i < k ==> self.map@[i] == 0u8,
            decreases len - k,
        {
            self.map.set(k, 0);
            k = k + 1;
        }
        assert(self.map@ =~= Seq::new(len as nat, |i: int| 0u8));
    }
}

/// One observer of the set.
pub enum Observer {
    Time(TimeObserver),
    Coverage(StdMapObserver),
    Cmp(StdCmpObserver),
}

/// What an observer shows to feedbacks: its name and what it collected.
pub enum ObserverView {
    Time(Seq<char>, Option<Duration>),
    Coverage(Seq<char>, Seq<u8>),
    Cmp(Seq<char>, nat, Seq<(nat, Seq<crate::cmp::CmpValuesView>)>),
}

/// The name and size of an observer: what a reset keeps.
pub enum ObserverShape {
    Time(Seq<char>),
    Coverage(Seq<char>, nat),
    Cmp(Seq<char>, nat, nat, nat),
}

impl Observer {
    pub open spec fn wf(&self) -> bool {
        match self {
            Observer::Cmp(c) => c.wf(),
            _ => true,
        }
    }

    pub open spec fn spec_name(&self) -> Seq<char> {
        match self {
            Observer::Time(t) => t.spec_name(),
            Observer::Coverage(m) => m.spec_name(),
            Observer::Cmp(c) => c.spec_name(),
        }
    }

    pub open spec fn view(&self) -> ObserverView {
        match self {
            Observer::Time(t) => ObserverView::Time(t.spec_name(), t.spec_last_runtime()),
            Observer::Coverage(m) => ObserverView::Coverage(m.spec_name(), m.spec_map()),
            Observer::Cmp(c) => ObserverView::Cmp(
                c.spec_name(),
                c.spec_usable_count(),
                Seq::new(c.spec_map().spec_len(), |i: int| (c.spec_map().spec_executions_for(i), c.spec_map().spec_log(i))),
            ),
        }
    }

    pub open spec fn shape(&self) -> ObserverShape {
        match self {
            Observer::Time(t) => ObserverShape::Time(t.spec_name()),
            Observer::Coverage(m) => ObserverShape::Coverage(m.spec_name(), m.spec_map().len()),
            Observer::Cmp(c) => ObserverShape::Cmp(
                c.spec_name(),
                c.spec_usable_count(),
                c.spec_map().spec_len(),
                c.spec_map().spec_capacity(),
            ),
        }
    }

    /// The observer holds nothing from an earlier run.
    pub open spec fn is_fresh(&self) -> bool {
        match self {
            Observer::Time(t) => t.spec_last_runtime() is None,
            Observer::Coverage(m) => m.spec_map() == Seq::new(m.spec_map().len(), |i: int| 0u8),
            Observer::Cmp(c) => forall|i: int| 0 <= i < c.spec_map().spec_len()
                ==> #[trigger] c.spec_map().spec_executions_for(i) == 0 && c.spec_map().spec_log(i).len() == 0,
        }
    }

    pub fn name(&self) -> (r: &str)
        ensures
            r@ == self.spec_name(),
    {
        match self {
            Observer::Time(t) => t.name(),
            Observer::Coverage(m) => m.name(),
            Observer::Cmp(c) => c.name(),
        }
    }

    /// Resets the observer before a run.
    pub fn pre_exec(&mut self)
        requires
            old(self).wf(),
        ensures
            final(self).wf(),
            final(self).shape() == old(self).shape(),
            final(self).is_fresh(),
            *final(self) matches Observer::Time(t) ==> t.is_timing(),
    {
        match self {
            Observer::Time(t) => t.pre_exec(),
            Observer::Coverage(m) => m.pre_exec(),
            Observer::Cmp(c) => c.pre_exec(),
        }
    }

    /// Seals the observer after a run.
    pub fn post_exec(&mut self)
        requires
            old(self).wf(),
        ensures
            final(self).wf(),
            final(self).shape() == old(self).shape(),
            !(*old(self) is Time) ==> *final(self) == *old(self),
            (*old(self) matches Observer::Time(t) && t.is_timing()) ==> (*final(self) matches Observer::Time(u) && u.spec_last_runtime() is Some),
    {
        match self {
            Observer::Time(t) => t.post_exec(),
            _ => {},
        }
    }
}

/// The first time observer in `s` named `name`.
pub open spec fn find_time(s: Seq<Observer>, name: Seq<char>) -> Option<TimeObserver>
    decreases s.len(),
{
    if s.len() == 0 {
        None
    } else if s[0] is Time && s[0]->Time_0.spec_name() == name {
        Some(s[0]->Time_0)
    } else {
        find_time(s.drop_first(), name)
    }
}

/// The first coverage map observer in `s` named `name`.
pub open spec fn find_coverage(s: Seq<Observer>, name: Seq<char>) -> Option<StdMapObserver>
    decreases s.len(),
{
    if s.len() == 0 {
        None
    } else if s[0] is Coverage && s[0]->Coverage_0.spec_name() == name {
        Some(s[0]->Coverage_0)
    } else {
        find_coverage(s.drop_first(), name)
    }
}

/// `after` is `before` once every observer was reset: same shapes,
/// nothing kept from earlier runs, and every time observer's clock running.
pub open spec fn pre_exec_done(before: Seq<Observer>, after: Seq<Observer>) -> bool {
    &&& after.len() == before.len()
    &&& forall|i: int| 0 <= i < before.len() ==> (#[trigger] after[i]).shape() == before[i].shape()
        && after[i].is_fresh()
        && (after[i] matches Observer::Time(t) ==> t.is_timing())
}

/// `after` is `before` once every observer was sealed: only the time
/// observers change, and each one whose clock ran holds a runtime.
pub open spec fn post_exec_done(before: Seq<Observer>, after: Seq<Observer>) -> bool {
    &&& after.len() == before.len()
    &&& forall|i: int| 0 <= i < before.len() ==> (#[trigger] after[i]).shape() == before[i].shape()
        && (!(before[i] is Time) ==> after[i] == before[i])
        && ((before[i] matches Observer::Time(t) && t.is_timing()) ==> (after[i] matches Observer::Time(u) && u.spec_last_runtime() is Some))
}

/// `after` is what the observers `before` hold after one full run: the
/// same shapes, nothing left from before the run, and a runtime in every
/// time observer.
pub open spec fn executed_observers(before: Seq<Observer>, after: Seq<Observer>) -> bool {
    &&& after.len() == before.len()
    &&& forall|i: int| 0 <= i < before.len() ==> (#[trigger] after[i]).shape() == before[i].shape()
        && (!(after[i] is Time) ==> after[i].is_fresh())
        && (after[i] matches Observer::Time(t) ==> t.spec_last_runtime() is Some)
}

/// A reset followed by a seal is one full run.
pub proof fn lemma_run_cycle(a: Seq<Observer>, b: Seq<Observer>, c: Seq<Observer>)
    requires
        pre_exec_done(a, b),
        post_exec_done(b, c),
    ensures
        executed_observers(a, c),
{
    assert forall|i: int| 0 <= i < a.len() implies (#[trigger] c[i]).shape() == a[i].shape()
        && (!(c[i] is Time) ==> c[i].is_fresh())
        && (c[i] matches Observer::Time(t) ==> t.spec_last_runtime() is Some) by {
        assert(b[i].shape() == a[i].shape());
        assert(c[i].shape() == b[i].shape());
        if !(b[i] is Time) {
            assert(c[i] == b[i]);
        }
    }
}

/// One write of the target into an observer during a run, addressed by
/// the observer's position in the set.
pub enum ObserverWrite {
    /// Sets counter `index` of a coverage map observer.
    Counter { observer: usize, index: usize, value: u8 },
    /// Logs one run of compare site `site` of a comparison observer.
    Cmp { observer: usize, site: usize, values: CmpValues },
}

impl ObserverWrite {
    /// The position of the observer written to.
    pub open spec fn target(&self) -> int {
        match self {
            ObserverWrite::Counter { observer, .. } => *observer as int,
            ObserverWrite::Cmp { observer, .. } => *observer as int,
        }
    }
}

/// `after` is `before` with the writes `ws` applied: shapes and
/// well-formedness kept, time observers untouched, and every observer that
/// no write names as it was.
pub open spec fn written(before: Seq<Observer>, after: Seq<Observer>, ws: Seq<ObserverWrite>) -> bool {
    &&& after.len() == before.len()
    &&& forall|i: int| 0 <= i < before.len() ==> (#[trigger] after[i]).shape() == before[i].shape()
        && (before[i].wf() ==> after[i].wf())
        && (before[i] is Time ==> after[i] == before[i])
        && ((forall|k: int| 0 <= k < ws.len() ==> (#[trigger] ws[k]).target() != i) ==> after[i] == before[i])
}

/// `after` is what the observers `before` hold after one full run in which
/// the target made the writes `ws`: the same shapes, a runtime in every
/// time observer, and every coverage or comparison observer that the
/// target did not write to reset.
pub open spec fn run_done(before: Seq<Observer>, after: Seq<Observer>, ws: Seq<ObserverWrite>) -> bool {
    &&& after.len() == before.len()
    &&& forall|i: int| 0 <= i < before.len() ==> (#[trigger] after[i]).shape() == before[i].shape()
        && after[i].wf()
        && (after[i] matches Observer::Time(t) ==> t.spec_last_runtime() is Some)
        && ((!(after[i] is Time) && forall|k: int| 0 <= k < ws.len() ==> (#[trigger] ws[k]).target() != i) ==> after[i].is_fresh())
}

/// A reset, the target's writes, and a seal make one full run.
pub proof fn lemma_run_with_writes(a: Seq<Observer>, b: Seq<Observer>, c: Seq<Observer>, d: Seq<Observer>, ws: Seq<ObserverWrite>)
    requires
        forall|i: int| 0 <= i < a.len() ==> (#[trigger] a[i]).wf(),
        pre_exec_done(a, b),
        written(b, c, ws),
        post_exec_done(c, d),
        forall|i: int| 0 <= i < c.len() ==> (#[trigger] c[i]).wf(),
        forall|i: int| 0 <= i < d.len() ==> (#[trigger] d[i]).wf(),
    ensures
        run_done(a, d, ws),
{
    assert forall|i: int| 0 <= i < a.len() implies (#[trigger] d[i]).shape() == a[i].shape()
        && d[i].wf()
        && (d[i] matches Observer::Time(t) ==> t.spec_last_runtime() is Some)
        && ((!(d[i] is Time) && forall|k: int| 0 <= k < ws.len() ==> (#[trigger] ws[k]).target() != i) ==> d[i].is_fresh()) by {
        assert(b[i].shape() == a[i].shape());
        assert(c[i].shape() == b[i].shape());
        assert(d[i].shape() == c[i].shape());
        if b[i] is Time {
            assert(c[i] == b[i]);
        } else {
            assert(d[i] == c[i]);
        }
    }
}

/// An ordered set of observers, looked up by name and kind.
pub struct ObserverSet {
    list: Vec<Observer>,
}

impl View for ObserverSet {
    type V = Seq<Observer>;

    closed spec fn view(&self) -> Seq<Observer> {
        self.list@
    }
}

impl ObserverSet {
    pub open spec fn wf(&self) -> bool {
        forall|i: int| 0 <= i < self@.len() ==> (#[trigger] self@[i]).wf()
    }

    /// No observers.
    pub fn new() -> (r: Self)
        ensures
            r.wf(),
            r@ == Seq::<Observer>::empty(),
    {
        ObserverSet { list: Vec::new() }
    }

    /// Appends an observer at the end of the list.
    pub fn add(&mut self, o: Observer)
        requires
            old(self).wf(),
            o.wf(),
        ensures
            final(self).wf(),
            final(self)@ == old(self)@.push(o),
    {
        self.list.push(o);
        assert forall|i: int| 0 <= i < self@.len() implies (#[trigger] self@[i]).wf() by {
            if i < old(self)@.len() {
                assert(self@[i] == old(self)@[i]);
            }
        }
    }

    pub fn len(&self) -> (r: usize)
        ensures
            r == self@.len(),
    {
        self.list.len()
    }

    /// The `i`-th observer, for the target to write into.
    pub fn get_mut(&mut self, i: usize) -> (r: &mut Observer)
        requires
            i < old(self)@.len(),
        ensures
            *r == old(self)@[i as int],
            final(self)@ == old(self)@.update(i as int, *final(r)),
    {
        &mut self.list[i]
    }

    /// Applies one write of the target. A counter write to a coverage
    /// observer sets the counter; a comparison write to a comparison
    /// observer logs the run at the site. A write that names no observer
    /// of its kind, or an index out of range, changes nothing.
    pub fn apply_write(&mut self, w: ObserverWrite)
        requires
            old(self).wf(),
        ensures
            final(self).wf(),
            written(old(self)@, final(self)@, seq![w]),
            match w {
                ObserverWrite::Counter { observer, index, value } => {
                    let m = old(self)@[observer as int]->Coverage_0;
                    let m2 = final(self)@[observer as int]->Coverage_0;
                    (observer < old(self)@.len() && old(self)@[observer as int] is Coverage && index < m.spec_map().len())
                        ==> (final(self)@[observer as int] is Coverage && m2.spec_map() == m.spec_map().update(index as int, value)
                        && m2.spec_name() == m.spec_name())
                },
                ObserverWrite::Cmp { observer, site, values } => {
                    let c = old(self)@[observer as int]->Cmp_0.spec_map();
                    let c2 = final(self)@[observer as int]->Cmp_0.spec_map();
                    (observer < old(self)@.len() && old(self)@[observer as int] is Cmp && site < c.spec_len())
                        ==> (final(self)@[observer as int] is Cmp
                        && c2.spec_executions_for(site as int) == (if c.spec_executions_for(site as int) == usize::MAX { 0 } else { c.spec_executions_for(site as int) + 1 })
                        && c2.spec_log(site as int) == (if c.spec_log(site as int).len() < c.spec_capacity() {
                            c.spec_log(site as int).push(values@)
                        } else {
                            c.spec_log(site as int).update((c.spec_executions_for(site as int) % c.spec_capacity()) as int, values@)
                        }))
                },
            },
    {
        let len = self.list.len();
        let ghost wg = w;
        match w {
            ObserverWrite::Counter { observer, index, value } => {
                if observer < len {
                    let o = &mut self.list[observer];
                    match o {
                        Observer::Coverage(m) => {
                            if index < m.map.len() {
                                m.set(index, value);
                            }
                        },
                        _ => {},
                    }
                }
            },
            ObserverWrite::Cmp { observer, site, values } => {
                if observer < len {
                    let o = &mut self.list[observer];
                    match o {
                        Observer::Cmp(c) => {
                            if site < c.map().len() {
                                c.record(site, values);
                            }
                        },
                        _ => {},
                    }
                }
            },
        }
        assert forall|i: int| 0 <= i < self@.len() implies (#[trigger] self@[i]).wf() by {
            assert(old(self)@[i].wf());
        }
        assert(seq![wg][0] == wg);
    }

    /// The first time observer named `name`.
    pub fn match_time(&self, name: &str) -> (r: Option<&TimeObserver>)
        ensures
            match r {
                Some(t) => find_time(self@, name@) == Some(*t),
                None => find_time(self@, name@) is None,
            },
    {
        let mut i: usize = 0;
        assert(self@.subrange(0, self@.len() as int) =~= self@);
        while i < self.list.len()
            invariant
                i <= self@.len(),
                find_time(self@, name@) == find_time(self@.subrange(i as int, self@.len() as int), name@),
            decreases self@.len() - i,
        {
            let ghost rest = self@.subrange(i as int, self@.len() as int);
            assert(rest.drop_first() =~= self@.subrange(i + 1, self@.len() as int));
            match &self.list[i] {
                Observer::Time(t) => {
                    if same_text(&t.name, name) {
                        return Some(t);
                    }
                },
                _ => {},
            }
            i = i + 1;
        }
        None
    }

    /// The first coverage map observer named `name`.
    pub fn match_coverage(&self, name: &str) -> (r: Option<&StdMapObserver>)
        ensures
            match r {
                Some(m) => find_coverage(self@, name@) == Some(*m),
                None => find_coverage(self@, name@) is None,
            },
    {
        let mut i: usize = 0;
        assert(self@.subrange(0, self@.len() as int) =~= self@);
        while i < self.list.len()
            invariant
                i <= self@.len(),
                find_coverage(self@, name@) == find_coverage(self@.subrange(i as int, self@.len() as int), name@),
            decreases self@.len() - i,
        {
            let ghost rest = self@.subrange(i as int, self@.len() as int);
            assert(rest.drop_first() =~= self@.subrange(i + 1, self@.len() as int));
            match &self.list[i] {
                Observer::Coverage(m) => {
                    if same_text(&m.name, name) {
                        return Some(m);
                    }
                },
                _ => {},
            }
            i = i + 1;
        }
        None
    }

    /// Resets every observer, in list order, before a run.
    pub fn pre_exec_all(&mut self)
        requires
            old(self).wf(),
        ensures
            final(self).wf(),
            pre_exec_done(old(self)@, final(self)@),
    {
        let len = self.list.len();
        let mut k: usize = 0;
        while k < len
            invariant
                k <= len,
                len == self@.len(),
                len == old(self)@.len(),
                self.wf(),
                forall|i: int| 0 <= i < k ==> (#[trigger] self@[i]).shape() == old(self)@[i].shape()
                    && self@[i].is_fresh()
                    && (self@[i] matches Observer::Time(t) ==> t.is_timing()),
                forall|i: int| k <= i < len ==> #[trigger] self@[i] == old(self)@[i],
            decreases len - k,
        {
            let o = &mut self.list[k];
            o.pre_exec();
            k = k + 1;
        }
    }

    /// Seals every observer, in list order, after a run.
    pub fn post_exec_all(&mut self)
        requires
            old(self).wf(),
        ensures
            final(self).wf(),
            post_exec_done(old(self)@, final(self)@),
    {
        let len = self.list.len();
        let mut k: usize = 0;
        while k < len
            invariant
                k <= len,
                len == self@.len(),
                len == old(self)@.len(),
                self.wf(),
                forall|i: int| 0 <= i < k ==> (#[trigger] self@[i]).shape() == old(self)@[i].shape()
                    && (!(old(self)@[i] is Time) ==> self@[i] == old(self)@[i])
                    && ((old(self)@[i] matches Observer::Time(t) && t.is_timing()) ==> (self@[i] matches Observer::Time(u) && u.spec_last_runtime() is Some)),
                forall|i: int| k <= i < len ==> #[trigger] self@[i] == old(self)@[i],
            decreases len - k,
        {
            let o = &mut self.list[k];
            o.post_exec();
            k = k + 1;
        }
    }
}

/// Two fresh observers of the same shape show the same thing: nothing of
/// what either saw before its reset is left to read.
pub proof fn lemma_fresh_observers_agree(a: Observer, b: Observer)
    requires
        a.is_fresh(),
        b.is_fresh(),
        a.shape() == b.shape(),
    ensures
        a.view() == b.view(),
{
    match (a, b) {
        (Observer::Coverage(x), Observer::Coverage(y)) => {},
        (Observer::Cmp(x), Observer::Cmp(y)) => {
            assert forall|i: int| 0 <= i < x.spec_map().spec_len() implies x.spec_map().spec_log(i) == y.spec_map().spec_log(i) by {
                assert(x.spec_map().spec_executions_for(i) == 0);
                assert(y.spec_map().spec_executions_for(i) == 0);
                assert(x.spec_map().spec_log(i) =~= y.spec_map().spec_log(i));
            }
            assert(Seq::new(x.spec_map().spec_len(), |i: int| (x.spec_map().spec_executions_for(i), x.spec_map().spec_log(i)))
                =~= Seq::new(y.spec_map().spec_len(), |i: int| (y.spec_map().spec_executions_for(i), y.spec_map().spec_log(i))));
        },
        _ => {},
    }
}

/// A full run carries nothing over from earlier runs: two observer sets of
/// the same shapes, whatever they held before, come out of a run with
/// coverage and comparison observers that show exactly the same.
pub proof fn lemma_run_forgets_history(a: Seq<Observer>, a2: Seq<Observer>, b: Seq<Observer>, b2: Seq<Observer>)
    requires
        a.len() == b.len(),
        forall|i: int| 0 <= i < a.len() ==> (#[trigger] a[i]).shape() == b[i].shape(),
        executed_observers(a, a2),
        executed_observers(b, b2),
    ensures
        forall|i: int| 0 <= i < a.len() && !(a2[i] is Time) ==> (#[trigger] a2[i]).view() == b2[i].view(),
{
    assert forall|i: int| 0 <= i < a.len() && !(a2[i] is Time) implies (#[trigger] a2[i]).view() == b2[i].view() by {
        assert(a2[i].shape() == a[i].shape());
        assert(b2[i].shape() == b[i].shape());
        assert(a[i].shape() == b[i].shape());
        assert(!(b2[i] is Time));
        lemma_fresh_observers_agree(a2[i], b2[i]);
    }
}

} // verus!
