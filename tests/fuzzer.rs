use libafl::corpus::{InMemoryCorpus, RandCorpusScheduler, Testcase};
use libafl::executors::{ExitKind, InProcessExecutor, RunOutcome};
use libafl::feedbacks::{CrashFeedback, Feedback, MaxMapFeedback};
use libafl::fuzzer::StdFuzzer;
use libafl::mutators::{BitFlipMutator, StdScheduledMutator};
use libafl::observers::{Observer, ObserverSet, ObserverWrite, StdMapObserver};
use libafl::rands::StdRand;
use libafl::stages::StdMutationalStage;
use libafl::state::State;

fn seeded_state(seed: Vec<u8>) -> State {
    let rand = StdRand::with_seed(0);
    let mut corpus = InMemoryCorpus::new();
    corpus.add(Testcase::new(seed));
    State::new(rand, corpus, InMemoryCorpus::new())
}

#[test]
fn test_fuzzer() {
    let mut state = seeded_state(vec![0; 4]);
    let scheduler = RandCorpusScheduler::new();
    let mut fuzzer = StdFuzzer::new(scheduler, Feedback::Empty, Feedback::Empty);
    let harness = |_buf: &Vec<u8>| RunOutcome::new(ExitKind::Normal);
    let mut executor = InProcessExecutor::new(harness, ObserverSet::new());
    let mutator = StdScheduledMutator::new(BitFlipMutator::new());
    let mut stages = vec![StdMutationalStage::new(mutator)];

    for i in 0..1000 {
        fuzzer
            .fuzz_one(&mut stages, &mut executor, &mut state)
            .unwrap_or_else(|_| panic!("Error in iter {}", i));
    }

    let state_serialized = state.serialize();
    let state_deserialized = State::deserialize(state_serialized.as_slice()).unwrap();
    assert_eq!(state.corpus.count(), state_deserialized.corpus.count());

    let corpus_serialized = state.corpus.serialize();
    let corpus_deserialized = InMemoryCorpus::deserialize(corpus_serialized.as_slice()).unwrap();
    assert_eq!(state.corpus.count(), corpus_deserialized.count());
}

#[test]
fn trivial_harness_keeps_corpus_and_finds_nothing() {
    let mut state = seeded_state(vec![0, 0, 0, 0]);
    let mut fuzzer = StdFuzzer::new(RandCorpusScheduler::new(), Feedback::Empty, Feedback::Empty);
    let mut executor = InProcessExecutor::new(|_buf: &Vec<u8>| RunOutcome::new(ExitKind::Normal), ObserverSet::new());
    let mut stages = vec![StdMutationalStage::new(StdScheduledMutator::new(BitFlipMutator::new()))];
    for _ in 0..1000 {
        assert!(fuzzer.fuzz_one(&mut stages, &mut executor, &mut state).is_ok());
    }
    assert_eq!(state.corpus.count(), 1);
    assert_eq!(state.solutions.count(), 0);
    assert!(state.executions >= 1000);
    assert!(state.executions <= 128 * 1000);
    assert_eq!(state.corpus.get(0).unwrap().input(), &vec![0u8, 0, 0, 0]);
}

#[test]
fn crash_objective_collects_only_crashing_inputs() {
    let mut state = seeded_state(vec![0, 0, 0, 0]);
    let objective = Feedback::Crash(CrashFeedback::new());
    let mut fuzzer = StdFuzzer::new(RandCorpusScheduler::new(), Feedback::Empty, objective);
    let harness = |buf: &Vec<u8>| RunOutcome::new(if buf.first() == Some(&0xFF) { ExitKind::Crash } else { ExitKind::Normal });
    let mut executor = InProcessExecutor::new(harness, ObserverSet::new());
    let mut stages = vec![StdMutationalStage::new(StdScheduledMutator::new(BitFlipMutator::new()))];
    let mut iterations = 0;
    while state.solutions.count() == 0 && iterations < 5000 {
        fuzzer.fuzz_one(&mut stages, &mut executor, &mut state).unwrap();
        iterations += 1;
    }
    assert!(state.solutions.count() > 0);
    for i in 0..state.solutions.count() {
        assert_eq!(state.solutions.get(i).unwrap().input()[0], 0xFF);
    }
    assert_eq!(state.corpus.count(), 1);
}

#[test]
fn empty_corpus_fails_with_empty() {
    let mut state = State::new(StdRand::with_seed(1), InMemoryCorpus::new(), InMemoryCorpus::new());
    let mut fuzzer = StdFuzzer::new(RandCorpusScheduler::new(), Feedback::Empty, Feedback::Empty);
    let mut executor = InProcessExecutor::new(|_buf: &Vec<u8>| RunOutcome::new(ExitKind::Normal), ObserverSet::new());
    let mut stages = vec![StdMutationalStage::new(BitFlipMutator::new())];
    let r = fuzzer.fuzz_one(&mut stages, &mut executor, &mut state);
    assert!(matches!(r, Err(libafl::error::Error::Empty(_))));
    assert_eq!(state.executions, 0);
}

#[test]
fn serialized_state_with_many_entries_resumes() {
    let mut corpus = InMemoryCorpus::new();
    for i in 0..37u8 {
        let mut tc = Testcase::new(vec![i, i.wrapping_mul(3), 7]);
        tc.set_fuzz_level(i as usize);
        corpus.add(tc);
    }
    let mut solutions = InMemoryCorpus::new();
    for i in 0..3u8 {
        solutions.add(Testcase::new(vec![0xFF, i]));
    }
    let mut state = State::new(StdRand::with_seed(42), corpus, solutions);
    state.executions = 12345;
    let bytes = state.serialize();
    let mut restored = State::deserialize(&bytes).unwrap();
    assert_eq!(restored.corpus.count(), 37);
    assert_eq!(restored.solutions.count(), 3);
    assert_eq!(restored.executions, 12345);
    assert_eq!(restored.rand.state(), 42);
    for i in 0..37 {
        assert_eq!(restored.corpus.get(i).unwrap().input(), state.corpus.get(i).unwrap().input());
        assert_eq!(restored.corpus.get(i).unwrap().fuzz_level(), i);
    }
    let mut fuzzer = StdFuzzer::new(RandCorpusScheduler::new(), Feedback::Empty, Feedback::Empty);
    let mut executor = InProcessExecutor::new(|_buf: &Vec<u8>| RunOutcome::new(ExitKind::Normal), ObserverSet::new());
    let mut stages = vec![StdMutationalStage::new(BitFlipMutator::new())];
    let idx = fuzzer.fuzz_one(&mut stages, &mut executor, &mut restored).unwrap();
    assert!(idx < 37);
    assert!(restored.executions > 12345);
}

#[test]
fn deserialize_rejects_malformed_bytes() {
    let state = State::new(StdRand::with_seed(3), InMemoryCorpus::new(), InMemoryCorpus::new());
    let mut bytes = state.serialize();
    assert_eq!(bytes.len(), 32);
    bytes.push(0);
    assert!(matches!(State::deserialize(&bytes), Err(libafl::error::Error::Serialize(_))));
    assert!(matches!(State::deserialize(&bytes[..10]), Err(libafl::error::Error::Serialize(_))));
    let exact = state.serialize();
    assert_eq!(exact, vec![3, 0, 0, 0, 0, 0, 0, 0, 0, 0, 0, 0, 0, 0, 0, 0, 0, 0, 0, 0, 0, 0, 0, 0, 0, 0, 0, 0, 0, 0, 0, 0]);
}

#[test]
fn rand_is_splitmix64() {
    let mut r = StdRand::with_seed(0);
    assert_eq!(r.next(), 0xE220A8397B1DCDAF);
    let mut a = StdRand::with_seed(77);
    let mut b = StdRand::with_seed(77);
    for _ in 0..10 {
        assert_eq!(a.next(), b.next());
        assert!(a.below(10) < 10);
        b.below(10);
    }
}

#[test]
fn flip_bit_inverts_one_bit() {
    let mut v = vec![0u8, 0xF0];
    libafl::mutators::flip_bit(&mut v, 1, 0);
    assert_eq!(v, vec![0u8, 0xF1]);
    libafl::mutators::flip_bit(&mut v, 1, 7);
    assert_eq!(v, vec![0u8, 0x71]);
}

#[test]
fn mutational_stage_rejects_unknown_entry() {
    let mut state = seeded_state(vec![1]);
    let mut fuzzer = StdFuzzer::new(RandCorpusScheduler::new(), Feedback::Empty, Feedback::Empty);
    let mut executor = InProcessExecutor::new(|_buf: &Vec<u8>| RunOutcome::new(ExitKind::Normal), ObserverSet::new());
    let mut stage = StdMutationalStage::new(BitFlipMutator::new());
    let r = stage.perform(&mut fuzzer, &mut executor, &mut state, 3);
    assert!(matches!(r, Err(libafl::error::Error::KeyNotFound(_))));
    assert_eq!(state.executions, 0);
    stage.perform(&mut fuzzer, &mut executor, &mut state, 0).unwrap();
    assert!(state.executions >= 1 && state.executions <= 128);
    let n = stage.iterations(&mut state.rand);
    assert!((1..=128).contains(&n));
}

#[test]
fn target_coverage_reaches_map_feedback() {
    let mut state = seeded_state(vec![0, 0, 0, 0]);
    let fb = Feedback::MaxMap(MaxMapFeedback::new("map", "map"));
    let mut fuzzer = StdFuzzer::new(RandCorpusScheduler::new(), fb, Feedback::Empty);
    // The target bumps the counter named by the input's first byte (mod 16).
    let harness = |buf: &Vec<u8>| {
        let i = (buf[0] % 16) as usize;
        RunOutcome::with_writes(ExitKind::Normal, vec![ObserverWrite::Counter { observer: 0, index: i, value: 1 }])
    };
    let mut obs = ObserverSet::new();
    obs.add(Observer::Coverage(StdMapObserver::new("map", 16)));
    let mut executor = InProcessExecutor::new(harness, obs);
    let mut stages = vec![StdMutationalStage::new(BitFlipMutator::new())];
    for _ in 0..200 {
        fuzzer.fuzz_one(&mut stages, &mut executor, &mut state).unwrap();
    }
    // New counters were seen, so inputs entered the corpus, at most one per counter.
    assert!(state.corpus.count() > 1);
    assert!(state.corpus.count() <= 17);
    assert_eq!(executor.observers.match_coverage("map").unwrap().map().iter().filter(|&&c| c == 1).count(), 1);
}
