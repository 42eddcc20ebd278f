//! Feedbacks judge each run from what the observers saw: is the input
//! worth keeping? They compose as a binary tree of AND, eager OR, fast OR
//! and NOT over leaf feedbacks.
use vstd::prelude::*;
use vstd::string::*;

use core::time::Duration;

use crate::corpus::{Testcase, TestcaseView};
use crate::error::Error;
use crate::executors::ExitKind;
use crate::observers::{find_coverage, find_time, ObserverSet, StdMapObserver, TimeObserver};

verus! {

/// How a composite feedback combines its two children.
#[derive(Clone, Copy, Debug, PartialEq, Eq, Structural)]
pub enum Logic {
    /// Both children are evaluated; the verdict is their conjunction.
    And,
    /// Both children are evaluated; the verdict is their disjunction.
    EagerOr,
    /// The second child is evaluated only when the first says no.
    FastOr,
}

/// The name of a composition operator.
pub open spec fn logic_name(l: Logic) -> Seq<char> {
    match l {
        Logic::And => "AND"@,
        Logic::EagerOr => "Eager OR"@,
        Logic::FastOr => "Fast OR"@,
    }
}

/// A composition operator, chosen by type.
pub trait FeedbackLogic {
    spec fn spec_logic() -> Logic;

    fn logic() -> (r: Logic)
        ensures
            r == Self::spec_logic();

    fn name() -> (r: &'static str)
        ensures
            r@ == logic_name(Self::spec_logic());
}

/// Evaluates both children and returns true if either is.
pub struct LogicEagerOr {}

/// Evaluates the second child only when the first returns false.
pub struct LogicFastOr {}

/// Evaluates both children and returns true if both are.
pub struct LogicAnd {}

impl FeedbackLogic for LogicEagerOr {
    open spec fn spec_logic() -> Logic {
        Logic::EagerOr
    }

    fn logic() -> (r: Logic) {
        Logic::EagerOr
    }

    fn name() -> (r: &'static str) {
        proof {
            reveal_strlit("Eager OR");
        }
        "Eager OR"
    }
}

impl FeedbackLogic for LogicFastOr {
    open spec fn spec_logic() -> Logic {
        Logic::FastOr
    }

    fn logic() -> (r: Logic) {
        Logic::FastOr
    }

    fn name() -> (r: &'static str) {
        proof {
            reveal_strlit("Fast OR");
        }
        "Fast OR"
    }
}

impl FeedbackLogic for LogicAnd {
    open spec fn spec_logic() -> Logic {
        Logic::And
    }

    fn logic() -> (r: Logic) {
        Logic::And
    }

    fn name() -> (r: &'static str) {
        proof {
            reveal_strlit("AND");
        }
        "AND"
    }
}

/// Interesting when the target crashed.
pub struct CrashFeedback {}

impl CrashFeedback {
    pub fn new() -> (r: Self)
        ensures
            r == (CrashFeedback {}),
    {
        CrashFeedback {}
    }
}

impl Default for CrashFeedback {
    fn default() -> (r: Self)
        ensures
            r == (CrashFeedback {}),
    {
        CrashFeedback::new()
    }
}

/// Interesting when the target timed out.
pub struct TimeoutFeedback {}

impl TimeoutFeedback {
    pub fn new() -> (r: Self)
        ensures
            r == (TimeoutFeedback {}),
    {
        TimeoutFeedback {}
    }
}

impl Default for TimeoutFeedback {
    fn default() -> (r: Self)
        ensures
            r == (TimeoutFeedback {}),
    {
        TimeoutFeedback::new()
    }
}

/// Never interesting: it records the runtime that the time observer of the
/// same name measured, and stamps it on the test case that is kept.
pub struct TimeFeedback {
    exec_time: Option<Duration>,
    name: String,
}

impl TimeFeedback {
    pub closed spec fn spec_name(&self) -> Seq<char> {
        self.name@
    }

    pub closed spec fn spec_exec_time(&self) -> Option<Duration> {
        self.exec_time
    }

    /// A time feedback that reads the time observer named `name`.
    pub fn new(name: &str) -> (r: Self)
        ensures
            r.spec_name() == name@,
            r.spec_exec_time() is None,
    {
        TimeFeedback { exec_time: None, name: String::from_str(name) }
    }

    /// A time feedback that reads `observer`.
    pub fn new_with_observer(observer: &TimeObserver) -> (r: Self)
        ensures
            r.spec_name() == observer.spec_name(),
            r.spec_exec_time() is None,
    {
        TimeFeedback { exec_time: None, name: String::from_str(observer.name()) }
    }
}

/// Interesting when some counter of the coverage map exceeds the largest
/// value seen for it in the runs kept so far.
pub struct MaxMapFeedback {
    name: String,
    observer_name: String,
    history: Vec<u8>,
    staged: Option<Vec<u8>>,
}

impl MaxMapFeedback {
    pub closed spec fn spec_name(&self) -> Seq<char> {
        self.name@
    }

    pub closed spec fn spec_observer_name(&self) -> Seq<char> {
        self.observer_name@
    }

    pub closed spec fn spec_history(&self) -> Seq<u8> {
        self.history@
    }

    /// The counters of the last run, kept while they were novel.
    pub closed spec fn spec_staged(&self) -> Option<Seq<u8>> {
        match self.staged {
            Some(s) => Some(s@),
            None => None,
        }
    }

    /// A feedback named `name` over the coverage observer named
    /// `observer_name`, with nothing seen yet.
    pub fn new(name: &str, observer_name: &str) -> (r: Self)
        ensures
            r.spec_name() == name@,
            r.spec_observer_name() == observer_name@,
            r.spec_history() == Seq::<u8>::empty(),
    {
        MaxMapFeedback {
            name: String::from_str(name),
            observer_name: String::from_str(observer_name),
            history: Vec::new(),
            staged: None,
        }
    }

    /// A feedback over `observer`, named after it.
    pub fn new_with_observer(observer: &StdMapObserver) -> (r: Self)
        ensures
            r.spec_name() == observer.spec_name(),
            r.spec_observer_name() == observer.spec_name(),
            r.spec_history() == Seq::<u8>::empty(),
    {
        MaxMapFeedback {
            name: String::from_str(observer.name()),
            observer_name: String::from_str(observer.name()),
            history: Vec::new(),
            staged: None,
        }
    }

    /// The largest value kept so far for each counter.
    pub fn history(&self) -> (r: &Vec<u8>)
        ensures
            r@ == self.spec_history(),
    {
        &self.history
    }
}

/// Two feedbacks combined by `logic`.
pub struct FeedbackTuple {
    head: Feedback,
    tail: Feedback,
    logic: Logic,
    name: String,
}

/// The negation of a feedback's verdict.
pub struct NotFeedback {
    first: Feedback,
    name: String,
}

/// A feedback tree.
pub enum Feedback {
    /// Never interesting; the neutral element.
    Empty,
    Crash(CrashFeedback),
    Timeout(TimeoutFeedback),
    Time(TimeFeedback),
    MaxMap(MaxMapFeedback),
    Tuple(Box<FeedbackTuple>),
    Not(Box<NotFeedback>),
}

/// What a feedback tree holds.
pub enum FeedbackView {
    Empty,
    Crash,
    Timeout,
    /// The name, and the runtime recorded by the last evaluation.
    Time(Seq<char>, Option<Duration>),
    /// The name, the observer's name, the largest counters kept so far, and
    /// the counters of the last run when they were novel.
    MaxMap(Seq<char>, Seq<char>, Seq<u8>, Option<Seq<u8>>),
    Tuple(Logic, Seq<char>, Box<FeedbackView>, Box<FeedbackView>),
    Not(Seq<char>, Box<FeedbackView>),
}

impl View for Feedback {
    type V = FeedbackView;

    closed spec fn view(&self) -> FeedbackView
        decreases self,
    {
        match self {
            Feedback::Empty => FeedbackView::Empty,
            Feedback::Crash(_) => FeedbackView::Crash,
            Feedback::Timeout(_) => FeedbackView::Timeout,
            Feedback::Time(t) => FeedbackView::Time(t.name@, t.exec_time),
            Feedback::MaxMap(m) => FeedbackView::MaxMap(
                m.name@,
                m.observer_name@,
                m.history@,
                match m.staged {
                    Some(s) => Some(s@),
                    None => None,
                },
            ),
            Feedback::Tuple(t) => FeedbackView::Tuple(t.logic, t.name@, Box::new(t.head.view()), Box::new(t.tail.view())),
            Feedback::Not(n) => FeedbackView::Not(n.name@, Box::new(n.first.view())),
        }
    }
}

/// What each kind of tree node shows.
pub proof fn lemma_feedback_view(f: Feedback)
    ensures
        f is Empty ==> f@ == FeedbackView::Empty,
        f is Crash ==> f@ == FeedbackView::Crash,
        f is Timeout ==> f@ == FeedbackView::Timeout,
        f matches Feedback::Time(t) ==> f@ == FeedbackView::Time(t.spec_name(), t.spec_exec_time()),
        f matches Feedback::MaxMap(m) ==> f@ == FeedbackView::MaxMap(m.spec_name(), m.spec_observer_name(), m.spec_history(), m.spec_staged()),
        f matches Feedback::Tuple(t) ==> f@ == FeedbackView::Tuple(t.spec_logic(), t.spec_name(), Box::new(t.spec_head()), Box::new(t.spec_tail())),
        f matches Feedback::Not(n) ==> f@ == FeedbackView::Not(n.spec_name(), Box::new(n.spec_first())),
{
}

/// The name of a feedback tree.
pub open spec fn view_name(v: FeedbackView) -> Seq<char> {
    match v {
        FeedbackView::Empty => "Empty"@,
        FeedbackView::Crash => "CrashFeedback"@,
        FeedbackView::Timeout => "TimeoutFeedback"@,
        FeedbackView::Time(n, _) => n,
        FeedbackView::MaxMap(n, _, _, _) => n,
        FeedbackView::Tuple(_, n, _, _) => n,
        FeedbackView::Not(n, _) => n,
    }
}

/// The name of a composite: `<op> (<left>, <right>)`.
pub open spec fn tuple_name(l: Logic, a: Seq<char>, b: Seq<char>) -> Seq<char> {
    logic_name(l) + " ("@ + a + ", "@ + b + ")"@
}

/// The name of a negation: `Not(<inner>)`.
pub open spec fn not_name(a: Seq<char>) -> Seq<char> {
    "Not("@ + a + ")"@
}

/// The kept value of counter `i`; counters never kept count as zero.
pub open spec fn hist_at(h: Seq<u8>, i: int) -> u8 {
    if 0 <= i < h.len() { h[i] } else { 0 }
}

/// Some counter of `map` exceeds the value kept for it.
pub open spec fn is_novel(map: Seq<u8>, hist: Seq<u8>) -> bool {
    exists|i: int| 0 <= i < map.len() && #[trigger] map[i] > hist_at(hist, i)
}

/// The counter-wise maximum of `h` and `m`, as long as the longer of them.
pub open spec fn merge_max(h: Seq<u8>, m: Seq<u8>) -> Seq<u8> {
    let n = if h.len() < m.len() { m.len() } else { h.len() };
    Seq::new(n, |i: int| if hist_at(h, i) < hist_at(m, i) { hist_at(m, i) } else { hist_at(h, i) })
}

/// The verdict of a tree on a run; `None` where a leaf misses its observer.
pub open spec fn verdict(v: FeedbackView, obs: Seq<crate::observers::Observer>, ek: ExitKind) -> Option<bool>
    decreases v,
{
    match v {
        FeedbackView::Empty => Some(false),
        FeedbackView::Crash => Some(ek == ExitKind::Crash),
        FeedbackView::Timeout => Some(ek == ExitKind::Timeout),
        FeedbackView::Time(n, _) => if find_time(obs, n) is Some { Some(false) } else { None },
        FeedbackView::MaxMap(_, o, h, _) => match find_coverage(obs, o) {
            Some(m) => Some(is_novel(m.spec_map(), h)),
            None => None,
        },
        FeedbackView::Tuple(l, _, a, b) => match verdict(*a, obs, ek) {
            None => None,
            Some(x) => if l == Logic::FastOr && x {
                Some(true)
            } else {
                match verdict(*b, obs, ek) {
                    None => None,
                    Some(y) => Some(if l == Logic::And { x && y } else { x || y }),
                }
            },
        },
        FeedbackView::Not(_, a) => match verdict(*a, obs, ek) {
            Some(x) => Some(!x),
            None => None,
        },
    }
}

/// Whether the second child of a composite is evaluated, given the first
/// child's verdict.
pub open spec fn runs_second(l: Logic, first: Option<bool>) -> bool {
    match first {
        None => false,
        Some(x) => !(l == Logic::FastOr && x),
    }
}

/// The tree after it judged a run.
pub open spec fn evaluated(v: FeedbackView, obs: Seq<crate::observers::Observer>, ek: ExitKind) -> FeedbackView
    decreases v,
{
    match v {
        FeedbackView::Time(n, e) => match find_time(obs, n) {
            Some(t) => FeedbackView::Time(n, t.spec_last_runtime()),
            None => v,
        },
        FeedbackView::MaxMap(n, o, h, st) => match find_coverage(obs, o) {
            Some(m) => FeedbackView::MaxMap(n, o, h, if is_novel(m.spec_map(), h) { Some(m.spec_map()) } else { None }),
            None => v,
        },
        FeedbackView::Tuple(l, n, a, b) => FeedbackView::Tuple(
            l,
            n,
            Box::new(evaluated(*a, obs, ek)),
            if runs_second(l, verdict(*a, obs, ek)) { Box::new(evaluated(*b, obs, ek)) } else { b },
        ),
        FeedbackView::Not(n, a) => FeedbackView::Not(n, Box::new(evaluated(*a, obs, ek))),
        _ => v,
    }
}

/// Whether stamping a kept test case succeeds: every time leaf reached
/// holds a runtime.
pub open spec fn append_ok(v: FeedbackView) -> bool
    decreases v,
{
    match v {
        FeedbackView::Time(_, e) => e is Some,
        FeedbackView::Tuple(_, _, a, b) => append_ok(*a) && append_ok(*b),
        FeedbackView::Not(_, a) => append_ok(*a),
        _ => true,
    }
}

/// The tree after it stamped a kept test case (as far as it got).
pub open spec fn appended(v: FeedbackView) -> FeedbackView
    decreases v,
{
    match v {
        FeedbackView::Time(n, e) => if e is Some { FeedbackView::Time(n, None) } else { v },
        FeedbackView::MaxMap(n, o, h, st) => match st {
            Some(m) => FeedbackView::MaxMap(n, o, merge_max(h, m), None),
            None => v,
        },
        FeedbackView::Tuple(l, n, a, b) => FeedbackView::Tuple(
            l,
            n,
            Box::new(appended(*a)),
            if append_ok(*a) { Box::new(appended(*b)) } else { b },
        ),
        FeedbackView::Not(n, a) => FeedbackView::Not(n, Box::new(appended(*a))),
        _ => v,
    }
}

/// The runtime stamped on the kept test case, starting from `t`.
pub open spec fn appended_time(v: FeedbackView, t: Option<Duration>) -> Option<Duration>
    decreases v,
{
    match v {
        FeedbackView::Time(_, e) => if e is Some { e } else { t },
        FeedbackView::Tuple(_, _, a, b) => if append_ok(*a) {
            appended_time(*b, appended_time(*a, t))
        } else {
            appended_time(*a, t)
        },
        FeedbackView::Not(_, a) => appended_time(*a, t),
        _ => t,
    }
}

/// The tree after it dropped what it held for a rejected input.
pub open spec fn discarded(v: FeedbackView) -> FeedbackView
    decreases v,
{
    match v {
        FeedbackView::Time(n, _) => FeedbackView::Time(n, None),
        FeedbackView::MaxMap(n, o, h, _) => FeedbackView::MaxMap(n, o, h, None),
        FeedbackView::Tuple(l, n, a, b) => FeedbackView::Tuple(l, n, Box::new(discarded(*a)), Box::new(discarded(*b))),
        FeedbackView::Not(n, a) => FeedbackView::Not(n, Box::new(discarded(*a))),
        _ => v,
    }
}

/// The number of leaves of a tree, counted left to right.
pub open spec fn leaf_count(v: FeedbackView) -> nat
    decreases v,
{
    match v {
        FeedbackView::Tuple(_, _, a, b) => leaf_count(*a) + leaf_count(*b),
        FeedbackView::Not(_, a) => leaf_count(*a),
        _ => 1,
    }
}

/// Adds `k` to every position.
pub open spec fn shifted(s: Seq<nat>, k: nat) -> Seq<nat> {
    s.map_values(|p: nat| p + k)
}

/// The leaves, by left-to-right position, whose verdict is asked for when
/// the tree judges a run, in the order they are asked.
pub open spec fn leaf_calls(v: FeedbackView, obs: Seq<crate::observers::Observer>, ek: ExitKind) -> Seq<nat>
    decreases v,
{
    match v {
        FeedbackView::Tuple(l, _, a, b) => leaf_calls(*a, obs, ek) + if runs_second(l, verdict(*a, obs, ek)) {
            shifted(leaf_calls(*b, obs, ek), leaf_count(*a))
        } else {
            Seq::empty()
        },
        FeedbackView::Not(_, a) => leaf_calls(*a, obs, ek),
        _ => seq![0nat],
    }
}

/// The tree holds no fast OR.
pub open spec fn is_eager(v: FeedbackView) -> bool
    decreases v,
{
    match v {
        FeedbackView::Tuple(l, _, a, b) => l != Logic::FastOr && is_eager(*a) && is_eager(*b),
        FeedbackView::Not(_, a) => is_eager(*a),
        _ => true,
    }
}

fn concat3(a: &str, b: &str, c: &str) -> (r: String)
    ensures
        r@ == a@ + b@ + c@,
{
    String::from_str(a).concat(b).concat(c)
}

impl FeedbackTuple {
    /// Combines `head` and `tail` with the operator `FL`; the composite is
    /// named `<op> (<head>, <tail>)`.
    pub fn new<FL: FeedbackLogic>(head: Feedback, tail: Feedback) -> (r: Self)
        ensures
            r.spec_head() == head@,
            r.spec_tail() == tail@,
            r.spec_logic() == FL::spec_logic(),
            r.spec_name() == tuple_name(FL::spec_logic(), view_name(head@), view_name(tail@)),
    {
        let name = concat3(FL::name(), " (", head.name()).concat(", ").concat(tail.name()).concat(")");
        proof {
            reveal_strlit(" (");
            reveal_strlit(", ");
            reveal_strlit(")");
        }
        FeedbackTuple { head, tail, logic: FL::logic(), name }
    }

    pub closed spec fn spec_head(&self) -> FeedbackView {
        self.head@
    }

    pub closed spec fn spec_tail(&self) -> FeedbackView {
        self.tail@
    }

    pub closed spec fn spec_logic(&self) -> Logic {
        self.logic
    }

    pub closed spec fn spec_name(&self) -> Seq<char> {
        self.name@
    }
}

impl NotFeedback {
    pub closed spec fn spec_first(&self) -> FeedbackView {
        self.first@
    }

    /// Negates `first`; named `Not(<first>)`.
    pub fn new(first: Feedback) -> (r: Self)
        ensures
            r.spec_first() == first@,
            r.spec_name() == not_name(view_name(first@)),
    {
        let name = concat3("Not(", first.name(), ")");
        NotFeedback { first, name }
    }

    pub closed spec fn spec_name(&self) -> Seq<char> {
        self.name@
    }
}

impl Feedback {
    /// `a AND b`: both are evaluated.
    pub fn and(a: Feedback, b: Feedback) -> (r: Feedback)
        ensures
            r@ == FeedbackView::Tuple(Logic::And, tuple_name(Logic::And, view_name(a@), view_name(b@)), Box::new(a@), Box::new(b@)),
    {
        let t = FeedbackTuple::new::<LogicAnd>(a, b);
        Feedback::Tuple(Box::new(t))
    }

    /// `a OR b`, evaluating both.
    pub fn eager_or(a: Feedback, b: Feedback) -> (r: Feedback)
        ensures
            r@ == FeedbackView::Tuple(Logic::EagerOr, tuple_name(Logic::EagerOr, view_name(a@), view_name(b@)), Box::new(a@), Box::new(b@)),
    {
        let t = FeedbackTuple::new::<LogicEagerOr>(a, b);
        Feedback::Tuple(Box::new(t))
    }

    /// `a OR b`, evaluating `b` only when `a` says no.
    pub fn fast_or(a: Feedback, b: Feedback) -> (r: Feedback)
        ensures
            r@ == FeedbackView::Tuple(Logic::FastOr, tuple_name(Logic::FastOr, view_name(a@), view_name(b@)), Box::new(a@), Box::new(b@)),
    {
        let t = FeedbackTuple::new::<LogicFastOr>(a, b);
        Feedback::Tuple(Box::new(t))
    }

    /// `NOT a`.
    pub fn not(a: Feedback) -> (r: Feedback)
        ensures
            r@ == FeedbackView::Not(not_name(view_name(a@)), Box::new(a@)),
    {
        let n = NotFeedback::new(a);
        Feedback::Not(Box::new(n))
    }

    /// The feedback's name.
    pub fn name(&self) -> (r: &str)
        ensures
            r@ == view_name(self@),
    {
        match self {
            Feedback::Empty => {
                proof {
                    reveal_strlit("Empty");
                }
                "Empty"
            },
            Feedback::Crash(_) => {
                proof {
                    reveal_strlit("CrashFeedback");
                }
                "CrashFeedback"
            },
            Feedback::Timeout(_) => {
                proof {
                    reveal_strlit("TimeoutFeedback");
                }
                "TimeoutFeedback"
            },
            Feedback::Time(t) => t.name.as_str(),
            Feedback::MaxMap(m) => m.name.as_str(),
            Feedback::Tuple(t) => t.name.as_str(),
            Feedback::Not(n) => n.name.as_str(),
        }
    }
}

/// Whether some counter of `map` exceeds the value kept for it.
fn novel_counters(map: &Vec<u8>, hist: &Vec<u8>) -> (r: bool)
    ensures
        r == is_novel(map@, hist@),
{
    let mut i: usize = 0;
    while i < map.len()
        invariant
            i <= map@.len(),
            forall|k: int| 0 <= k < i ==> !(#[trigger] map@[k] > hist_at(hist@, k)),
        decreases map@.len() - i,
    {
        let h: u8 = if i < hist.len() { hist[i] } else { 0 };
        if map[i] > h {
            return true;
        }
        i = i + 1;
    }
    false
}

/// Raises each kept counter to the value in `m`, where that is larger.
fn merge_into(hist: &mut Vec<u8>, m: &Vec<u8>)
    ensures
        final(hist)@ == merge_max(old(hist)@, m@),
{
    let ghost h0 = old(hist)@;
    let n0 = hist.len();
    let mut i: usize = 0;
    while i < n0
        invariant
            i <= n0,
            n0 == hist@.len(),
            n0 == h0.len(),
            forall|k: int| 0 <= k < i ==> #[trigger] hist@[k] == merge_max(h0, m@)[k],
            forall|k: int| i <= k < n0 ==> #[trigger] hist@[k] == h0[k],
        decreases n0 - i,
    {
        if i < m.len() && hist[i] < m[i] {
            hist.set(i, m[i]);
        }
        i = i + 1;
    }
    while i < m.len()
        invariant
            n0 <= i,
            n0 == h0.len(),
            i <= m@.len() || i == n0,
            hist@.len() == i,
            forall|k: int| 0 <= k < i ==> #[trigger] hist@[k] == merge_max(h0, m@)[k],
        decreases m@.len() - i,
    {
        assert(merge_max(h0, m@)[i as int] == m@[i as int]);
        hist.push(m[i]);
        i = i + 1;
    }
    assert(hist@ =~= merge_max(h0, m@));
}

impl Feedback {
    /// Judges a run: returns whether the input is interesting, and lets the
    /// leaves record what they need for the metadata of a kept input.
    /// Composites evaluate their first child first; a fast OR skips its
    /// second child when the first says yes. A leaf that misses its
    /// observer fails with `IllegalState`.
    pub fn is_interesting(&mut self, observers: &ObserverSet, exit_kind: ExitKind) -> (r: Result<bool, Error>)
        ensures
            final(self)@ == evaluated(old(self)@, observers@, exit_kind),
            match r {
                Ok(b) => verdict(old(self)@, observers@, exit_kind) == Some(b),
                Err(e) => verdict(old(self)@, observers@, exit_kind) is None && e is IllegalState,
            },
        decreases old(self)@,
    {
        match self {
            Feedback::Empty => Ok(false),
            Feedback::Crash(_) => Ok(exit_kind == ExitKind::Crash),
            Feedback::Timeout(_) => Ok(exit_kind == ExitKind::Timeout),
            Feedback::Time(t) => match observers.match_time(t.name.as_str()) {
                Some(o) => {
                    t.exec_time = o.last_runtime();
                    Ok(false)
                },
                None => Err(Error::illegal_state("TimeFeedback: no time observer of that name")),
            },
            Feedback::MaxMap(m) => match observers.match_coverage(m.observer_name.as_str()) {
                Some(o) => {
                    let novel = novel_counters(o.map(), &m.history);
                    if novel {
                        m.staged = Some(o.map().clone());
                    } else {
                        m.staged = None;
                    }
                    Ok(novel)
                },
                None => Err(Error::illegal_state("MaxMapFeedback: no map observer of that name")),
            },
            Feedback::Tuple(t) => {
                let a = t.head.is_interesting(observers, exit_kind);
                match a {
                    Err(e) => Err(e),
                    Ok(x) => {
                        if t.logic == Logic::FastOr && x {
                            Ok(true)
                        } else {
                            match t.tail.is_interesting(observers, exit_kind) {
                                Err(e) => Err(e),
                                Ok(y) => Ok(if t.logic == Logic::And { x && y } else { x || y }),
                            }
                        }
                    },
                }
            },
            Feedback::Not(n) => match n.first.is_interesting(observers, exit_kind) {
                Ok(x) => Ok(!x),
                Err(e) => Err(e),
            },
        }
    }

    /// Stamps a kept test case: each leaf, depth first and left to right,
    /// adds what it recorded. A time leaf that recorded no runtime (it was
    /// skipped by a fast OR) fails with `IllegalState`, and stops the walk.
    pub fn append_metadata(&mut self, testcase: &mut Testcase) -> (r: Result<(), Error>)
        ensures
            final(self)@ == appended(old(self)@),
            final(testcase)@ == (TestcaseView { exec_time: appended_time(old(self)@, old(testcase)@.exec_time), ..old(testcase)@ }),
            r is Ok == append_ok(old(self)@),
            r matches Err(e) ==> e is IllegalState,
        decreases old(self)@,
    {
        match self {
            Feedback::Time(t) => match t.exec_time {
                Some(d) => {
                    testcase.set_exec_time(Some(d));
                    t.exec_time = None;
                    Ok(())
                },
                None => Err(Error::illegal_state(
                    "TimeFeedback is missing `exec_time` when append_metadata was called; a fast OR may have skipped it",
                )),
            },
            Feedback::MaxMap(m) => {
                match &m.staged {
                    Some(st) => {
                        merge_into(&mut m.history, st);
                    },
                    None => {},
                }
                m.staged = None;
                Ok(())
            },
            Feedback::Tuple(t) => match t.head.append_metadata(testcase) {
                Err(e) => Err(e),
                Ok(()) => t.tail.append_metadata(testcase),
            },
            Feedback::Not(n) => n.first.append_metadata(testcase),
            _ => Ok(()),
        }
    }

    /// Drops what the leaves recorded for a rejected input.
    pub fn discard_metadata(&mut self)
        ensures
            final(self)@ == discarded(old(self)@),
        decreases old(self)@,
    {
        match self {
            Feedback::Time(t) => {
                t.exec_time = None;
            },
            Feedback::MaxMap(m) => {
                m.staged = None;
            },
            Feedback::Tuple(t) => {
                t.head.discard_metadata();
                t.tail.discard_metadata();
            },
            Feedback::Not(n) => {
                n.first.discard_metadata();
            },
            _ => {},
        }
    }
}

/// Judging a run changes no tree's shape.
pub proof fn lemma_evaluated_keeps_leaves(v: FeedbackView, obs: Seq<crate::observers::Observer>, ek: ExitKind)
    ensures
        leaf_count(evaluated(v, obs, ek)) == leaf_count(v),
    decreases v,
{
    match v {
        FeedbackView::Tuple(l, n, a, b) => {
            lemma_evaluated_keeps_leaves(*a, obs, ek);
            lemma_evaluated_keeps_leaves(*b, obs, ek);
        },
        FeedbackView::Not(n, a) => {
            lemma_evaluated_keeps_leaves(*a, obs, ek);
        },
        _ => {},
    }
}

/// The positions asked lie among the tree's leaves.
pub proof fn lemma_calls_below(v: FeedbackView, obs: Seq<crate::observers::Observer>, ek: ExitKind, j: int)
    requires
        0 <= j < leaf_calls(v, obs, ek).len(),
    ensures
        leaf_calls(v, obs, ek)[j] < leaf_count(v),
    decreases v,
{
    match v {
        FeedbackView::Tuple(l, n, a, b) => {
            let ca = leaf_calls(*a, obs, ek);
            let cb = leaf_calls(*b, obs, ek);
            let all = leaf_calls(v, obs, ek);
            if runs_second(l, verdict(*a, obs, ek)) {
                let sh = shifted(cb, leaf_count(*a));
                assert(all == ca + sh);
                if j < ca.len() {
                    assert(all[j] == ca[j]);
                    lemma_calls_below(*a, obs, ek, j);
                } else {
                    let jj = j - ca.len();
                    assert(all[j] == sh[jj]);
                    lemma_calls_below(*b, obs, ek, jj);
                }
            } else {
                assert(all =~= ca);
                assert(all[j] == ca[j]);
                lemma_calls_below(*a, obs, ek, j);
            }
        },
        FeedbackView::Not(n, a) => {
            lemma_calls_below(*a, obs, ek, j);
        },
        _ => {},
    }
}

/// `v` is the difference of two readings of `clock`, wrapping.
pub open spec fn clock_span<C: Fn() -> u64>(clock: C, v: u64) -> bool {
    exists|s: u64, e: u64| #![trigger clock.ensures((), s), clock.ensures((), e)]
        clock.ensures((), s) && clock.ensures((), e) && v == e.wrapping_sub(s)
}

impl Feedback {
    /// The number of leaves of the tree.
    pub fn leaf_count(&self) -> (r: usize)
        requires
            leaf_count(self@) <= usize::MAX,
        ensures
            r == leaf_count(self@),
        decreases self@,
    {
        match self {
            Feedback::Tuple(t) => t.head.leaf_count() + t.tail.leaf_count(),
            Feedback::Not(n) => n.first.leaf_count(),
            _ => 1,
        }
    }

    /// Judges a run as `is_interesting` does, and records in
    /// `feedback_stats[feedback_index + p]` the cycles that the leaf at
    /// position `p` took, for each leaf that was asked. The leaves of a
    /// composite's second child are numbered after those of its first.
    pub fn is_interesting_with_perf<C: Fn() -> u64>(
        &mut self,
        observers: &ObserverSet,
        exit_kind: ExitKind,
        feedback_stats: &mut Vec<u64>,
        feedback_index: usize,
        clock: &C,
    ) -> (r: Result<bool, Error>)
        requires
            feedback_index + leaf_count(old(self)@) <= old(feedback_stats)@.len(),
            clock.requires(()),
        ensures
            final(self)@ == evaluated(old(self)@, observers@, exit_kind),
            match r {
                Ok(b) => verdict(old(self)@, observers@, exit_kind) == Some(b),
                Err(e) => verdict(old(self)@, observers@, exit_kind) is None && e is IllegalState,
            },
            final(feedback_stats)@.len() == old(feedback_stats)@.len(),
            forall|k: int| 0 <= k < old(feedback_stats)@.len()
                && !(feedback_index <= k && leaf_calls(old(self)@, observers@, exit_kind).contains((k - feedback_index) as nat))
                ==> #[trigger] final(feedback_stats)@[k] == old(feedback_stats)@[k],
            forall|j: int| 0 <= j < leaf_calls(old(self)@, observers@, exit_kind).len()
                ==> clock_span(*clock, final(feedback_stats)@[feedback_index + #[trigger] leaf_calls(old(self)@, observers@, exit_kind)[j]]),
        decreases old(self)@,
    {
        match self {
            Feedback::Tuple(t) => {
                let ghost a0 = t.head@;
                let ghost b0 = t.tail@;
                let ghost s0 = feedback_stats@;
                assert(old(self)@ == FeedbackView::Tuple(t.logic, t.name@, Box::new(a0), Box::new(b0)));
                assert(leaf_count(old(self)@) == leaf_count(a0) + leaf_count(b0));
                let a = t.head.is_interesting_with_perf(observers, exit_kind, feedback_stats, feedback_index, clock);
                proof {
                    if !runs_second(t.logic, verdict(a0, observers@, exit_kind)) {
                        let all = leaf_calls(old(self)@, observers@, exit_kind);
                        let ca = leaf_calls(a0, observers@, exit_kind);
                        assert(all =~= ca);
                        assert forall|j: int| 0 <= j < all.len()
                            implies clock_span(*clock, feedback_stats@[feedback_index + #[trigger] all[j]]) by {
                            assert(all[j] == ca[j]);
                        }
                    }
                }
                match a {
                    Err(e) => Err(e),
                    Ok(x) => {
                        if t.logic == Logic::FastOr && x {
                            Ok(true)
                        } else {
                            let ghost s1 = feedback_stats@;
                            proof {
                                lemma_evaluated_keeps_leaves(a0, observers@, exit_kind);
                                vstd::std_specs::vec::axiom_spec_len(&*feedback_stats);
                            }
                            let second_index = feedback_index + t.head.leaf_count();
                            let b = t.tail.is_interesting_with_perf(observers, exit_kind, feedback_stats, second_index, clock);
                            proof {
                                let ca = leaf_calls(a0, observers@, exit_kind);
                                let cb = leaf_calls(b0, observers@, exit_kind);
                                let all = leaf_calls(old(self)@, observers@, exit_kind);
                                assert(all == ca + shifted(cb, leaf_count(a0)));
                                assert forall|k: int| 0 <= k < s0.len()
                                    && !(feedback_index <= k && all.contains((k - feedback_index) as nat))
                                    implies #[trigger] feedback_stats@[k] == s0[k] by {
                                    if feedback_index <= k && ca.contains((k - feedback_index) as nat) {
                                        let j = choose|j: int| 0 <= j < ca.len() && ca[j] == (k - feedback_index) as nat;
                                        assert(all[j] == ca[j]);
                                    }
                                    if second_index <= k && cb.contains((k - second_index) as nat) {
                                        let j = choose|j: int| 0 <= j < cb.len() && cb[j] == (k - second_index) as nat;
                                        assert(all[ca.len() + j] == shifted(cb, leaf_count(a0))[j]);
                                    }
                                }
                                assert forall|j: int| 0 <= j < all.len()
                                    implies clock_span(*clock, feedback_stats@[feedback_index + #[trigger] all[j]]) by {
                                    if j < ca.len() {
                                        assert(all[j] == ca[j]);
                                        lemma_calls_below(a0, observers@, exit_kind, j);
                                        let k = feedback_index + ca[j];
                                        assert(!(second_index <= k));
                                        assert(feedback_stats@[k] == s1[k]);
                                        assert(clock_span(*clock, s1[feedback_index + ca[j]]));
                                    } else {
                                        let jj = j - ca.len();
                                        assert(all[j] == shifted(cb, leaf_count(a0))[jj]);
                                        assert(all[j] == cb[jj] + leaf_count(a0));
                                        assert(clock_span(*clock, feedback_stats@[second_index + cb[jj]]));
                                    }
                                }
                            }
                            match b {
                                Err(e) => Err(e),
                                Ok(y) => Ok(if t.logic == Logic::And { x && y } else { x || y }),
                            }
                        }
                    },
                }
            },
            Feedback::Not(n) => {
                let ghost a0 = n.first@;
                let r = n.first.is_interesting_with_perf(observers, exit_kind, feedback_stats, feedback_index, clock);
                proof {
                    let all = leaf_calls(old(self)@, observers@, exit_kind);
                    let ca = leaf_calls(a0, observers@, exit_kind);
                    assert(all == ca);
                    assert forall|j: int| 0 <= j < all.len()
                        implies clock_span(*clock, feedback_stats@[feedback_index + #[trigger] all[j]]) by {
                        assert(all[j] == ca[j]);
                    }
                }
                match r {
                    Ok(x) => Ok(!x),
                    Err(e) => Err(e),
                }
            },
            _ => {
                let start = clock();
                let r = self.is_interesting(observers, exit_kind);
                let end = clock();
                let elapsed = end.wrapping_sub(start);
                feedback_stats.set(feedback_index, elapsed);
                proof {
                    assert(clock.ensures((), start) && clock.ensures((), end));
                    assert(clock_span(*clock, elapsed));
                    assert(leaf_calls(old(self)@, observers@, exit_kind) == seq![0nat]);
                    assert(leaf_calls(old(self)@, observers@, exit_kind)[0] == 0nat);
                }
                r
            },
        }
    }
}

/// AND and eager OR ask both children, first then second, and combine
/// their verdicts; each child judges the run once.
pub proof fn lemma_eager_pair_asks_both(
    l: Logic,
    n: Seq<char>,
    a: FeedbackView,
    b: FeedbackView,
    obs: Seq<crate::observers::Observer>,
    ek: ExitKind,
)
    requires
        l != Logic::FastOr,
        verdict(a, obs, ek) is Some,
    ensures
        ({
            let v = FeedbackView::Tuple(l, n, Box::new(a), Box::new(b));
            &&& leaf_calls(v, obs, ek) == leaf_calls(a, obs, ek) + shifted(leaf_calls(b, obs, ek), leaf_count(a))
            &&& evaluated(v, obs, ek) == FeedbackView::Tuple(l, n, Box::new(evaluated(a, obs, ek)), Box::new(evaluated(b, obs, ek)))
            &&& verdict(v, obs, ek) == match verdict(b, obs, ek) {
                Some(y) => Some(if l == Logic::And { verdict(a, obs, ek)->0 && y } else { verdict(a, obs, ek)->0 || y }),
                None => None,
            }
        }),
{
}

/// A fast OR asks its second child exactly when the first says no; it is
/// then as interesting as the second child.
pub proof fn lemma_fast_or_asks_second_iff_first_false(
    n: Seq<char>,
    a: FeedbackView,
    b: FeedbackView,
    obs: Seq<crate::observers::Observer>,
    ek: ExitKind,
)
    requires
        verdict(a, obs, ek) is Some,
    ensures
        ({
            let v = FeedbackView::Tuple(Logic::FastOr, n, Box::new(a), Box::new(b));
            &&& verdict(a, obs, ek) == Some(true) ==> leaf_calls(v, obs, ek) == leaf_calls(a, obs, ek)
                && evaluated(v, obs, ek) == FeedbackView::Tuple(Logic::FastOr, n, Box::new(evaluated(a, obs, ek)), Box::new(b))
                && verdict(v, obs, ek) == Some(true)
            &&& verdict(a, obs, ek) == Some(false) ==> leaf_calls(v, obs, ek) == leaf_calls(a, obs, ek) + shifted(leaf_calls(b, obs, ek), leaf_count(a))
                && evaluated(v, obs, ek) == FeedbackView::Tuple(Logic::FastOr, n, Box::new(evaluated(a, obs, ek)), Box::new(evaluated(b, obs, ek)))
                && verdict(v, obs, ek) == verdict(b, obs, ek)
        }),
{
    let v = FeedbackView::Tuple(Logic::FastOr, n, Box::new(a), Box::new(b));
    if verdict(a, obs, ek) == Some(true) {
        assert(leaf_calls(v, obs, ek) =~= leaf_calls(a, obs, ek));
    }
}

/// NOT inverts the verdict and judges the run through its child.
pub proof fn lemma_not_inverts(n: Seq<char>, a: FeedbackView, obs: Seq<crate::observers::Observer>, ek: ExitKind)
    ensures
        ({
            let v = FeedbackView::Not(n, Box::new(a));
            &&& verdict(v, obs, ek) == match verdict(a, obs, ek) {
                Some(x) => Some(!x),
                None => None,
            }
            &&& leaf_calls(v, obs, ek) == leaf_calls(a, obs, ek)
            &&& evaluated(v, obs, ek) == FeedbackView::Not(n, Box::new(evaluated(a, obs, ek)))
        }),
{
}

/// In a tree without fast OR that judges a run without error, every leaf
/// is asked exactly once, from left to right.
pub proof fn lemma_eager_tree_asks_each_leaf_once(v: FeedbackView, obs: Seq<crate::observers::Observer>, ek: ExitKind)
    requires
        is_eager(v),
        verdict(v, obs, ek) is Some,
    ensures
        leaf_calls(v, obs, ek) == Seq::new(leaf_count(v), |i: int| i as nat),
    decreases v,
{
    match v {
        FeedbackView::Tuple(l, n, a, b) => {
            lemma_eager_tree_asks_each_leaf_once(*a, obs, ek);
            lemma_eager_tree_asks_each_leaf_once(*b, obs, ek);
            let ca = leaf_count(*a);
            let cb = leaf_count(*b);
            assert(shifted(Seq::new(cb, |i: int| i as nat), ca) =~= Seq::new(cb, |i: int| (i + ca) as nat));
            assert(Seq::new(ca, |i: int| i as nat) + Seq::new(cb, |i: int| (i + ca) as nat) =~= Seq::new(ca + cb, |i: int| i as nat));
        },
        FeedbackView::Not(n, a) => {
            lemma_eager_tree_asks_each_leaf_once(*a, obs, ek);
        },
        _ => {
            assert(seq![0nat] =~= Seq::new(1, |i: int| i as nat));
        },
    }
}

/// A tree whose leaves read no observer and hold nothing between runs:
/// the empty, crash and timeout feedbacks, combined in any way.
pub open spec fn plain(v: FeedbackView) -> bool
    decreases v,
{
    match v {
        FeedbackView::Empty | FeedbackView::Crash | FeedbackView::Timeout => true,
        FeedbackView::Tuple(_, _, a, b) => plain(*a) && plain(*b),
        FeedbackView::Not(_, a) => plain(*a),
        _ => false,
    }
}

/// A plain tree always judges, whatever the observers hold; judging,
/// stamping and discarding leave it as it was, and stamping never fails.
pub proof fn lemma_plain(v: FeedbackView, obs: Seq<crate::observers::Observer>, ek: ExitKind, t: Option<Duration>)
    requires
        plain(v),
    ensures
        verdict(v, obs, ek) is Some,
        verdict(v, obs, ek) == verdict(v, Seq::empty(), ek),
        evaluated(v, obs, ek) == v,
        append_ok(v),
        appended(v) == v,
        discarded(v) == v,
        appended_time(v, t) == t,
    decreases v,
{
    match v {
        FeedbackView::Tuple(_, _, a, b) => {
            lemma_plain(*a, obs, ek, t);
            lemma_plain(*b, obs, ek, t);
        },
        FeedbackView::Not(_, a) => {
            lemma_plain(*a, obs, ek, t);
        },
        _ => {},
    }
}

} // verus!
