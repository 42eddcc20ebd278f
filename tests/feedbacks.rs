use std::time::Duration;

use libafl::corpus::{InMemoryCorpus, Testcase};
use libafl::error::Error;
use libafl::executors::ExitKind;
use libafl::feedbacks::{
    CrashFeedback, Feedback, FeedbackTuple, LogicAnd, MaxMapFeedback, NotFeedback, TimeFeedback, TimeoutFeedback,
};
use libafl::fuzzer::StdFuzzer;
use libafl::corpus::RandCorpusScheduler;
use libafl::observers::{Observer, ObserverSet, StdMapObserver, TimeObserver};
use libafl::rands::StdRand;
use libafl::state::State;

fn observers_with_new_coverage(runtime: Option<Duration>) -> ObserverSet {
    let mut obs = ObserverSet::new();
    obs.add(Observer::Coverage(StdMapObserver::new("map", 8)));
    let mut t = TimeObserver::new("time");
    t.set_last_runtime(runtime);
    obs.add(Observer::Time(t));
    if let Observer::Coverage(m) = obs.get_mut(0) {
        m.set(3, 1);
    }
    obs
}

fn empty_state() -> State {
    State::new(StdRand::with_seed(0), InMemoryCorpus::new(), InMemoryCorpus::new())
}

#[test]
fn eager_or_with_time_stamps_every_kept_testcase() {
    let fb = Feedback::eager_or(Feedback::MaxMap(MaxMapFeedback::new("map", "map")), Feedback::Time(TimeFeedback::new("time")));
    let mut fuzzer = StdFuzzer::new(RandCorpusScheduler::new(), fb, Feedback::Empty);
    let mut state = empty_state();
    let obs = observers_with_new_coverage(Some(Duration::from_micros(250)));
    let r = fuzzer.process_execution(&mut state, vec![1, 2], &obs, ExitKind::Normal).unwrap();
    assert_eq!(r, (true, Some(0)));
    assert_eq!(state.corpus.count(), 1);
    assert_eq!(state.corpus.get(0).unwrap().exec_time(), Some(Duration::from_micros(250)));
    // The same coverage again is not novel.
    let r = fuzzer.process_execution(&mut state, vec![3], &obs, ExitKind::Normal).unwrap();
    assert_eq!(r, (false, None));
    assert_eq!(state.corpus.count(), 1);
}

#[test]
fn fast_or_skipping_time_feedback_is_illegal_state() {
    let fb = Feedback::fast_or(Feedback::MaxMap(MaxMapFeedback::new("map", "map")), Feedback::Time(TimeFeedback::new("time")));
    let mut fuzzer = StdFuzzer::new(RandCorpusScheduler::new(), fb, Feedback::Empty);
    let mut state = empty_state();
    let obs = observers_with_new_coverage(Some(Duration::from_micros(250)));
    let r = fuzzer.process_execution(&mut state, vec![1, 2], &obs, ExitKind::Normal);
    match r {
        Err(e @ Error::IllegalState(_)) => assert!(e.message().contains("missing `exec_time`")),
        _ => panic!("expected IllegalState"),
    }
    assert_eq!(state.corpus.count(), 0);
}

#[test]
fn composite_names() {
    let t = FeedbackTuple::new::<LogicAnd>(Feedback::Crash(CrashFeedback::new()), Feedback::Timeout(TimeoutFeedback::new()));
    let f = Feedback::Tuple(Box::new(t));
    assert_eq!(f.name(), "AND (CrashFeedback, TimeoutFeedback)");
    let e = Feedback::eager_or(Feedback::Empty, Feedback::Time(TimeFeedback::new("time")));
    assert_eq!(e.name(), "Eager OR (Empty, time)");
    let o = Feedback::fast_or(Feedback::Empty, Feedback::Empty);
    assert_eq!(o.name(), "Fast OR (Empty, Empty)");
    let n = Feedback::Not(Box::new(NotFeedback::new(Feedback::Crash(CrashFeedback::new()))));
    assert_eq!(n.name(), "Not(CrashFeedback)");
}

#[test]
fn leaf_verdicts() {
    let obs = ObserverSet::new();
    let mut c = Feedback::Crash(CrashFeedback::new());
    assert_eq!(c.is_interesting(&obs, ExitKind::Crash).unwrap(), true);
    assert_eq!(c.is_interesting(&obs, ExitKind::Normal).unwrap(), false);
    let mut t = Feedback::Timeout(TimeoutFeedback::new());
    assert_eq!(t.is_interesting(&obs, ExitKind::Timeout).unwrap(), true);
    assert_eq!(t.is_interesting(&obs, ExitKind::Diff).unwrap(), false);
    let mut e = Feedback::Empty;
    assert_eq!(e.is_interesting(&obs, ExitKind::Crash).unwrap(), false);
}

#[test]
fn and_or_not_verdicts() {
    let obs = ObserverSet::new();
    let crash = || Feedback::Crash(CrashFeedback::new());
    let timeout = || Feedback::Timeout(TimeoutFeedback::new());
    let mut and = Feedback::and(crash(), timeout());
    assert!(!and.is_interesting(&obs, ExitKind::Crash).unwrap());
    let mut and2 = Feedback::and(crash(), Feedback::not(timeout()));
    assert!(and2.is_interesting(&obs, ExitKind::Crash).unwrap());
    let mut or = Feedback::eager_or(crash(), timeout());
    assert!(or.is_interesting(&obs, ExitKind::Timeout).unwrap());
    assert!(!or.is_interesting(&obs, ExitKind::Normal).unwrap());
    let mut not = Feedback::not(crash());
    assert!(not.is_interesting(&obs, ExitKind::Normal).unwrap());
    assert!(!not.is_interesting(&obs, ExitKind::Crash).unwrap());
}

#[test]
fn fast_or_skips_second_only_when_first_is_true() {
    let mut obs = ObserverSet::new();
    let mut t = TimeObserver::new("time");
    t.set_last_runtime(Some(Duration::from_millis(2)));
    obs.add(Observer::Time(t));
    let mut fb = Feedback::fast_or(Feedback::Crash(CrashFeedback::new()), Feedback::Time(TimeFeedback::new("time")));
    // First says no: the time leaf runs and can stamp.
    assert!(!fb.is_interesting(&obs, ExitKind::Normal).unwrap());
    let mut tc = Testcase::new(vec![1]);
    fb.append_metadata(&mut tc).unwrap();
    assert_eq!(tc.exec_time(), Some(Duration::from_millis(2)));
    // First says yes: the time leaf is skipped and cannot stamp.
    assert!(fb.is_interesting(&obs, ExitKind::Crash).unwrap());
    let mut tc = Testcase::new(vec![1]);
    assert!(matches!(fb.append_metadata(&mut tc), Err(Error::IllegalState(_))));
}

#[test]
fn eager_or_runs_second_even_when_first_is_true() {
    let mut obs = ObserverSet::new();
    let mut t = TimeObserver::new("time");
    t.set_last_runtime(Some(Duration::from_millis(5)));
    obs.add(Observer::Time(t));
    let mut fb = Feedback::eager_or(Feedback::Crash(CrashFeedback::new()), Feedback::Time(TimeFeedback::new("time")));
    assert!(fb.is_interesting(&obs, ExitKind::Crash).unwrap());
    let mut tc = Testcase::new(vec![1]);
    fb.append_metadata(&mut tc).unwrap();
    assert_eq!(tc.exec_time(), Some(Duration::from_millis(5)));
}

#[test]
fn missing_observer_is_illegal_state() {
    let obs = ObserverSet::new();
    let mut fb = Feedback::Time(TimeFeedback::new("time"));
    assert!(matches!(fb.is_interesting(&obs, ExitKind::Normal), Err(Error::IllegalState(_))));
    let mut m = Feedback::MaxMap(MaxMapFeedback::new("map", "map"));
    assert!(matches!(m.is_interesting(&obs, ExitKind::Normal), Err(Error::IllegalState(_))));
}

#[test]
fn discard_releases_recorded_runtime() {
    let mut obs = ObserverSet::new();
    let mut t = TimeObserver::new("time");
    t.set_last_runtime(Some(Duration::from_millis(1)));
    obs.add(Observer::Time(t));
    let mut fb = Feedback::Time(TimeFeedback::new("time"));
    assert!(!fb.is_interesting(&obs, ExitKind::Normal).unwrap());
    fb.discard_metadata();
    let mut tc = Testcase::new(vec![]);
    assert!(matches!(fb.append_metadata(&mut tc), Err(Error::IllegalState(_))));
}

#[test]
fn rejected_input_discards_in_both_trees() {
    // Feedback: time only (never interesting); objective: crash.
    let mut obs = ObserverSet::new();
    let mut t = TimeObserver::new("time");
    t.set_last_runtime(Some(Duration::from_millis(1)));
    obs.add(Observer::Time(t));
    let fb = Feedback::Time(TimeFeedback::new("time"));
    let objective = Feedback::Crash(CrashFeedback::new());
    let mut fuzzer = StdFuzzer::new(RandCorpusScheduler::new(), fb, objective);
    let mut state = empty_state();
    assert_eq!(fuzzer.process_execution(&mut state, vec![9], &obs, ExitKind::Normal).unwrap(), (false, None));
    let mut tc = Testcase::new(vec![]);
    assert!(fuzzer.feedback.append_metadata(&mut tc).is_err());
    // A crash is a solution: it goes to the solutions corpus only.
    assert_eq!(fuzzer.process_execution(&mut state, vec![7], &obs, ExitKind::Crash).unwrap(), (false, None));
    assert_eq!(state.solutions.count(), 1);
    assert_eq!(state.corpus.count(), 0);
}

#[test]
fn max_map_feedback_keeps_largest_counters() {
    let mut obs = ObserverSet::new();
    obs.add(Observer::Coverage(StdMapObserver::new("map", 3)));
    let mut fb = Feedback::MaxMap(MaxMapFeedback::new("cov", "map"));
    if let Observer::Coverage(m) = obs.get_mut(0) {
        m.set(1, 4);
    }
    assert!(fb.is_interesting(&obs, ExitKind::Normal).unwrap());
    let mut tc = Testcase::new(vec![]);
    fb.append_metadata(&mut tc).unwrap();
    if let Feedback::MaxMap(m) = &fb {
        assert_eq!(m.history(), &vec![0u8, 4, 0]);
    }
    if let Observer::Coverage(m) = obs.get_mut(0) {
        m.set(1, 3);
    }
    assert!(!fb.is_interesting(&obs, ExitKind::Normal).unwrap());
}

#[test]
fn perf_counters_follow_leaf_positions() {
    let obs = ObserverSet::new();
    let mut fb = Feedback::fast_or(Feedback::Crash(CrashFeedback::new()), Feedback::Timeout(TimeoutFeedback::new()));
    let mut stats = vec![u64::MAX; 4];
    let clock = || 7u64;
    assert!(fb.is_interesting_with_perf(&obs, ExitKind::Crash, &mut stats, 1, &clock).unwrap());
    assert_eq!(stats, vec![u64::MAX, 0, u64::MAX, u64::MAX]);
    let mut stats = vec![u64::MAX; 4];
    assert!(fb.is_interesting_with_perf(&obs, ExitKind::Timeout, &mut stats, 1, &clock).unwrap());
    assert_eq!(stats, vec![u64::MAX, 0, 0, u64::MAX]);
    assert_eq!(fb.leaf_count(), 2);
}
