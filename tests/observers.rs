use libafl::cmp::{CmpMap, CmpObserver, CmpValues, StdCmpObserver};
use libafl::corpus::InMemoryCorpus;
use libafl::error::Error;
use libafl::executors::{ExitKind, InProcessExecutor, RunOutcome, ShadowExecutor};
use libafl::observers::{Observer, ObserverSet, ObserverWrite, StdMapObserver, TimeObserver};
use libafl::metadata::MetadataMap;
use libafl::rands::StdRand;
use libafl::stages::{ShadowTracingStage, TracingStage};
use libafl::state::State;
use libafl::corpus::Testcase;

fn all_observers() -> ObserverSet {
    let mut obs = ObserverSet::new();
    obs.add(Observer::Coverage(StdMapObserver::new("map", 4)));
    obs.add(Observer::Time(TimeObserver::new("time")));
    obs.add(Observer::Cmp(StdCmpObserver::new("cmp", CmpMap::new(2, 4))));
    obs
}

#[test]
fn every_run_resets_observers_first() {
    let mut state = State::new(StdRand::with_seed(0), InMemoryCorpus::new(), InMemoryCorpus::new());
    let mut executor = InProcessExecutor::new(|_b: &Vec<u8>| RunOutcome::new(ExitKind::Normal), all_observers());
    for run in 0..5u64 {
        if let Observer::Coverage(m) = executor.observers.get_mut(0) {
            m.set(1, 9);
        }
        if let Observer::Cmp(c) = executor.observers.get_mut(2) {
            c.record(0, CmpValues::U8((1, 2)));
        }
        let ek = executor.execute(&mut state, &vec![1]);
        assert_eq!(ek, ExitKind::Normal);
        assert_eq!(state.executions, run + 1);
        assert_eq!(executor.observers.match_coverage("map").unwrap().map(), &vec![0u8; 4]);
        assert!(executor.observers.match_time("time").unwrap().last_runtime().is_some());
        if let Observer::Cmp(c) = executor.observers.get_mut(2) {
            assert_eq!(c.map().executions_for(0), 0);
        }
    }
}

#[test]
fn lookup_by_name_and_kind() {
    let obs = all_observers();
    assert!(obs.match_time("map").is_none());
    assert!(obs.match_coverage("map").is_some());
    assert!(obs.match_time("time").is_some());
    assert!(obs.match_coverage("nothing").is_none());
    assert_eq!(obs.len(), 3);
}

#[test]
fn tracing_stage_runs_once() {
    let mut corpus = InMemoryCorpus::new();
    corpus.add(Testcase::new(vec![5]));
    let mut state = State::new(StdRand::with_seed(0), corpus, InMemoryCorpus::new());
    let tracer = InProcessExecutor::new(|_b: &Vec<u8>| RunOutcome::new(ExitKind::Normal), all_observers());
    let mut stage = TracingStage::new(tracer);
    stage.perform(&mut state, 0).unwrap();
    assert_eq!(state.executions, 1);
    assert!(matches!(stage.perform(&mut state, 1), Err(Error::KeyNotFound(_))));
    assert_eq!(state.executions, 1);
}

#[test]
fn shadow_tracing_stage_restores_hooks() {
    let mut corpus = InMemoryCorpus::new();
    corpus.add(Testcase::new(vec![5]));
    let mut state = State::new(StdRand::with_seed(0), corpus, InMemoryCorpus::new());
    let inner = InProcessExecutor::new(|_b: &Vec<u8>| RunOutcome::new(ExitKind::Normal), ObserverSet::new());
    let mut shadow = ShadowExecutor::new(inner, all_observers());
    let mut stage = ShadowTracingStage::new(&shadow);
    stage.perform(&mut shadow, &mut state, 0).unwrap();
    assert!(!shadow.shadow_hooks);
    assert_eq!(state.executions, 1);
    assert!(shadow.shadow_observers.match_time("time").unwrap().last_runtime().is_some());
}

#[test]
fn tracing_stage_fills_cmp_observer_from_target() {
    let mut corpus = InMemoryCorpus::new();
    corpus.add(Testcase::new(vec![0x41, 0x42]));
    let mut state = State::new(StdRand::with_seed(0), corpus, InMemoryCorpus::new());
    // The target compares its first byte with 0x7A at compare site 1.
    let harness = |buf: &Vec<u8>| {
        RunOutcome::with_writes(
            ExitKind::Normal,
            vec![ObserverWrite::Cmp { observer: 2, site: 1, values: CmpValues::U8((buf[0], 0x7A)) }],
        )
    };
    let tracer = InProcessExecutor::new(harness, all_observers());
    let mut stage = TracingStage::new(tracer);
    stage.perform(&mut state, 0).unwrap();
    let mut meta = MetadataMap::new();
    if let Observer::Cmp(c) = stage.tracer_executor.observers.get_mut(2) {
        assert_eq!(c.map().executions_for(1), 1);
        c.add_cmpvalues_meta(&mut meta);
    }
    let list = meta.cmp_values().unwrap().as_slice();
    assert_eq!(list.len(), 1);
    assert_eq!(list[0].to_u64_tuple(), Some((0x41, 0x7A)));
}

#[test]
fn writes_to_wrong_kind_or_index_are_ignored() {
    let mut obs = all_observers();
    obs.apply_write(ObserverWrite::Counter { observer: 1, index: 0, value: 5 });
    obs.apply_write(ObserverWrite::Counter { observer: 0, index: 9, value: 5 });
    obs.apply_write(ObserverWrite::Counter { observer: 7, index: 0, value: 5 });
    assert_eq!(obs.match_coverage("map").unwrap().map(), &vec![0u8; 4]);
    obs.apply_write(ObserverWrite::Counter { observer: 0, index: 2, value: 5 });
    assert_eq!(obs.match_coverage("map").unwrap().map(), &vec![0u8, 0, 5, 0]);
}
