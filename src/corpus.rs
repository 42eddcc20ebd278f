//! Test cases and the in-memory corpus that holds them in insertion order.
use vstd::prelude::*;

use core::time::Duration;

use crate::error::Error;

verus! {

/// An input together with what was learnt about it.
#[derive(Debug)]
pub struct Testcase {
    input: Vec<u8>,
    exec_time: Option<Duration>,
    filename: Option<String>,
    fuzz_level: usize,
}

/// What a test case holds.
pub struct TestcaseView {
    pub input: Seq<u8>,
    pub exec_time: Option<Duration>,
    pub filename: Option<Seq<char>>,
    pub fuzz_level: nat,
}

impl View for Testcase {
    type V = TestcaseView;

    closed spec fn view(&self) -> TestcaseView {
        TestcaseView {
            input: self.input@,
            exec_time: self.exec_time,
            filename: match self.filename {
                Some(f) => Some(f@),
                None => None,
            },
            fuzz_level: self.fuzz_level as nat,
        }
    }
}

impl Testcase {
    /// A test case for `input`, with nothing learnt yet.
    pub fn new(input: Vec<u8>) -> (r: Self)
        ensures
            r@ == (TestcaseView { input: input@, exec_time: None, filename: None, fuzz_level: 0 }),
    {
        Testcase { input, exec_time: None, filename: None, fuzz_level: 0 }
    }

    pub fn input(&self) -> (r: &Vec<u8>)
        ensures
            r@ == self@.input,
    {
        &self.input
    }

    /// A copy of the input.
    pub fn load_input(&self) -> (r: Vec<u8>)
        ensures
            r@ == self@.input,
    {
        self.input.clone()
    }

    pub fn exec_time(&self) -> (r: Option<Duration>)
        ensures
            r == self@.exec_time,
    {
        self.exec_time
    }

    pub fn set_exec_time(&mut self, t: Option<Duration>)
        ensures
            final(self)@ == (TestcaseView { exec_time: t, ..old(self)@ }),
    {
        self.exec_time = t;
    }

    /// The file the test case is stored in, if any.
    pub fn filename(&self) -> (r: Option<&String>)
        ensures
            match r {
                Some(f) => self@.filename == Some(f@),
                None => self@.filename is None,
            },
    {
        match &self.filename {
            Some(f) => Some(f),
            None => None,
        }
    }

    pub fn set_filename(&mut self, f: Option<String>)
        ensures
            final(self)@ == (TestcaseView {
                filename: match f {
                    Some(s) => Some(s@),
                    None => None,
                },
                ..old(self)@
            }),
    {
        self.filename = f;
    }

    pub fn fuzz_level(&self) -> (r: usize)
        ensures
            r == self@.fuzz_level,
    {
        self.fuzz_level
    }

    pub fn set_fuzz_level(&mut self, level: usize)
        ensures
            final(self)@ == (TestcaseView { fuzz_level: level as nat, ..old(self)@ }),
    {
        self.fuzz_level = level;
    }
}

/// An ordered sequence of test cases, indexed densely from zero.
#[derive(Debug)]
pub struct InMemoryCorpus {
    entries: Vec<Testcase>,
}

/// The views of a list of test cases.
pub open spec fn testcase_views(s: Seq<Testcase>) -> Seq<TestcaseView> {
    s.map_values(|t: Testcase| t@)
}

impl View for InMemoryCorpus {
    type V = Seq<TestcaseView>;

    closed spec fn view(&self) -> Seq<TestcaseView> {
        testcase_views(self.entries@)
    }
}

/// Every entry of a corpus can be written in the persisted format.
pub proof fn lemma_corpus_encodable(c: &InMemoryCorpus)
    ensures
        crate::codec::encodable(c@),
{
    assert forall|i: int| 0 <= i < c@.len() implies (#[trigger] c@[i]).input.len() <= usize::MAX && c@[i].fuzz_level <= usize::MAX by {
        assert(c@[i] == c.entries@[i]@);
        vstd::std_specs::vec::axiom_spec_len(&c.entries@[i].input);
    }
    vstd::std_specs::vec::axiom_spec_len(&c.entries);
}

impl InMemoryCorpus {
    /// An empty corpus.
    pub fn new() -> (r: Self)
        ensures
            r@ == Seq::<TestcaseView>::empty(),
    {
        let r = InMemoryCorpus { entries: Vec::new() };
        assert(r@ =~= Seq::<TestcaseView>::empty());
        r
    }

    /// The number of test cases.
    pub fn count(&self) -> (r: usize)
        ensures
            r == self@.len(),
    {
        self.entries.len()
    }

    /// Appends a test case; its index is returned.
    pub fn add(&mut self, tc: Testcase) -> (r: usize)
        ensures
            final(self)@ == old(self)@.push(tc@),
            r == old(self)@.len(),
    {
        let ghost prev = self.entries@;
        self.entries.push(tc);
        assert(testcase_views(self.entries@) =~= testcase_views(prev).push(tc@));
        self.entries.len() - 1
    }

    /// The test case at `idx`.
    pub fn get(&self, idx: usize) -> (r: Result<&Testcase, Error>)
        ensures
            idx < self@.len() ==> (r matches Ok(t) && t@ == self@[idx as int]),
            idx >= self@.len() ==> r matches Err(Error::KeyNotFound(_)),
    {
        if idx < self.entries.len() {
            Ok(&self.entries[idx])
        } else {
            Err(Error::KeyNotFound(String::from_str("corpus index out of range")))
        }
    }

    /// Puts `tc` at `idx` and hands back the test case that stood there.
    pub fn replace(&mut self, idx: usize, tc: Testcase) -> (r: Result<Testcase, Error>)
        ensures
            idx < old(self)@.len() ==> (r matches Ok(p) && p@ == old(self)@[idx as int]
                && final(self)@ == old(self)@.update(idx as int, tc@)),
            idx >= old(self)@.len() ==> (r matches Err(Error::KeyNotFound(_)) && final(self)@ == old(self)@),
    {
        if idx < self.entries.len() {
            let ghost prev = self.entries@;
            let mut tc = tc;
            std::mem::swap(&mut tc, &mut self.entries[idx]);
            assert(testcase_views(self.entries@) =~= testcase_views(prev).update(idx as int, self.entries@[idx as int]@));
            Ok(tc)
        } else {
            Err(Error::KeyNotFound(String::from_str("corpus index out of range")))
        }
    }

    /// Removes the test case at `idx`; later indices shift down by one.
    pub fn remove(&mut self, idx: usize) -> (r: Result<Testcase, Error>)
        ensures
            idx < old(self)@.len() ==> (r matches Ok(p) && p@ == old(self)@[idx as int]
                && final(self)@ == old(self)@.remove(idx as int)),
            idx >= old(self)@.len() ==> (r matches Err(Error::KeyNotFound(_)) && final(self)@ == old(self)@),
    {
        if idx < self.entries.len() {
            let ghost prev = self.entries@;
            let t = self.entries.remove(idx);
            assert(testcase_views(self.entries@) =~= testcase_views(prev).remove(idx as int));
            Ok(t)
        } else {
            Err(Error::KeyNotFound(String::from_str("corpus index out of range")))
        }
    }
}

} // verus!

verus! {

/// Picks the next corpus entry uniformly at random.
pub struct RandCorpusScheduler {}

impl RandCorpusScheduler {
    pub fn new() -> (r: Self) {
        RandCorpusScheduler {}
    }

    /// The index of the next entry to fuzz; fails with `Empty` on an empty
    /// corpus.
    pub fn next(&self, state: &mut crate::state::State) -> (r: Result<usize, Error>)
        ensures
            old(state).corpus@.len() == 0 ==> r matches Err(Error::Empty(_)),
            old(state).corpus@.len() > 0 ==> (r matches Ok(i) && i < old(state).corpus@.len()
                && i == crate::rands::mix(old(state).rand.spec_state().wrapping_add(crate::rands::GOLDEN_GAMMA)) % (old(state).corpus@.len() as u64)),
            final(state).corpus == old(state).corpus,
            final(state).solutions == old(state).solutions,
            final(state).metadata == old(state).metadata,
            final(state).executions == old(state).executions,
    {
        let n = state.corpus.count();
        if n == 0 {
            Err(Error::Empty(String::from_str("corpus")))
        } else {
            Ok(state.rand.below(n as u64) as usize)
        }
    }

    /// Learns that entry `idx` was added.
    pub fn on_add(&self, state: &crate::state::State, idx: usize) {
    }

    /// Learns that entry `idx` was replaced; `prev` stood there before.
    pub fn on_replace(&self, state: &crate::state::State, idx: usize, prev: &Testcase) {
    }

    /// Learns that entry `idx` was removed; a uniform pick needs no update.
    pub fn on_remove(&self, state: &crate::state::State, idx: usize, prev: &Testcase) -> (r: Result<(), Error>)
        ensures
            r is Ok,
    {
        Ok(())
    }
}

} // verus!
