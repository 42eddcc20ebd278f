//! The fuzzer's state: random generator, corpus, solutions, metadata and
//! the count of target runs.
use vstd::prelude::*;

use crate::codec::{
    copy_range, dec_corpus, dec_entries, dec_entry, dec_state, enc_corpus, enc_entries, enc_entry, enc_state,
    lemma_enc_entries_push, lemma_state_round_trip, push_bytes, push_u64, read_u64, stored_all,
};
use crate::corpus::{lemma_corpus_encodable, InMemoryCorpus, Testcase, TestcaseView};
use crate::error::Error;
use crate::metadata::MetadataMap;
use crate::rands::StdRand;

verus! {

/// Everything one fuzzing client owns.
#[derive(Debug)]
pub struct State {
    pub rand: StdRand,
    pub corpus: InMemoryCorpus,
    pub solutions: InMemoryCorpus,
    pub metadata: MetadataMap,
    pub executions: u64,
}

impl State {
    /// A state over the given corpora, with no run counted yet.
    pub fn new(rand: StdRand, corpus: InMemoryCorpus, solutions: InMemoryCorpus) -> (r: Self)
        ensures
            r.rand == rand,
            r.corpus == corpus,
            r.solutions == solutions,
            r.metadata.cmp_values_view() is None,
            r.executions == 0,
    {
        State { rand, corpus, solutions, metadata: MetadataMap::new(), executions: 0 }
    }

    /// Counts one run of the target (saturating).
    pub fn count_execution(&mut self)
        ensures
            final(self).executions == if old(self).executions == u64::MAX { u64::MAX } else { (old(self).executions + 1) as u64 },
            final(self).rand == old(self).rand,
            final(self).corpus == old(self).corpus,
            final(self).solutions == old(self).solutions,
            final(self).metadata == old(self).metadata,
    {
        if self.executions < u64::MAX {
            self.executions = self.executions + 1;
        }
    }
}

/// Appends the encoding of `c`.
fn encode_corpus(c: &InMemoryCorpus, out: &mut Vec<u8>)
    ensures
        final(out)@ == old(out)@ + enc_corpus(c@),
{
    let n = c.count();
    push_u64(out, n as u64);
    let mut k: usize = 0;
    while k < n
        invariant
            k <= n,
            n == c@.len(),
            out@ == old(out)@ + le64_of(n) + enc_entries(c@.take(k as int)),
        decreases n - k,
    {
        let tc = match c.get(k) {
            Ok(t) => t,
            Err(_) => {
                assert(false);
                return;
            },
        };
        let ghost before = out@;
        push_u64(out, tc.input().len() as u64);
        push_bytes(out, tc.input());
        push_u64(out, tc.fuzz_level() as u64);
        proof {
            lemma_enc_entries_push(c@.take(k as int), c@[k as int]);
            assert(c@.take(k + 1) =~= c@.take(k as int).push(c@[k as int]));
            assert(out@ =~= before + enc_entry(c@[k as int]));
        }
        k = k + 1;
    }
    assert(c@.take(n as int) =~= c@);
}

/// The bytes of `n` as a count.
pub open spec fn le64_of(n: usize) -> Seq<u8> {
    crate::codec::le64(n as u64)
}

/// Decodes the entry at `pos`.
fn decode_entry(b: &[u8], pos: usize) -> (r: Option<(Testcase, usize)>)
    ensures
        match r {
            Some((t, q)) => dec_entry(b@, pos as int) == Some((t@, q as int)),
            None => dec_entry(b@, pos as int) is None,
        },
{
    if pos > b.len() || b.len() - pos < 8 {
        return None;
    }
    let n = read_u64(b, pos);
    if n > usize::MAX as u64 {
        return None;
    }
    let n = n as usize;
    if b.len() - pos - 8 < n || b.len() - pos - 8 - n < 8 {
        return None;
    }
    let level = read_u64(b, pos + 8 + n);
    if level > usize::MAX as u64 {
        return None;
    }
    let input = copy_range(b, pos + 8, pos + 8 + n);
    let mut t = Testcase::new(input);
    t.set_fuzz_level(level as usize);
    Some((t, pos + 16 + n))
}

/// Decodes the corpus at `pos`.
fn decode_corpus(b: &[u8], pos: usize) -> (r: Option<(InMemoryCorpus, usize)>)
    ensures
        match r {
            Some((c, q)) => dec_corpus(b@, pos as int) == Some((c@, q as int)),
            None => dec_corpus(b@, pos as int) is None,
        },
{
    if pos > b.len() || b.len() - pos < 8 {
        return None;
    }
    let n = read_u64(b, pos);
    if n > usize::MAX as u64 {
        return None;
    }
    let n = n as usize;
    let ghost p0 = pos + 8;
    let mut acc = InMemoryCorpus::new();
    let mut p: usize = pos + 8;
    let mut k: usize = 0;
    while k < n
        invariant
            k <= n,
            dec_corpus(b@, pos as int) == dec_entries(b@, p0, n as nat),
            dec_entries(b@, p0, n as nat) == match dec_entries(b@, p as int, (n - k) as nat) {
                None => None,
                Some((rest, q)) => Some((acc@ + rest, q)),
            },
        decreases n - k,
    {
        match decode_entry(b, p) {
            None => {
                return None;
            },
            Some((t, q)) => {
                let ghost a0 = acc@;
                let ghost tv = t@;
                acc.add(t);
                proof {
                    match dec_entries(b@, q as int, (n - k - 1) as nat) {
                        None => {},
                        Some((rest, e)) => {
                            assert(a0 + (seq![tv] + rest) =~= acc@ + rest);
                        },
                    }
                }
                p = q;
            },
        }
        k = k + 1;
    }
    assert(acc@ + Seq::<TestcaseView>::empty() =~= acc@);
    Some((acc, p))
}

impl State {
    /// The state in the persisted byte format: generator state, run count,
    /// corpus and solutions. Runtimes and file names are not kept.
    pub fn serialize(&self) -> (r: Vec<u8>)
        ensures
            r@ == enc_state(self.rand.spec_state(), self.executions, self.corpus@, self.solutions@),
    {
        let mut out: Vec<u8> = Vec::new();
        push_u64(&mut out, self.rand.state());
        push_u64(&mut out, self.executions);
        encode_corpus(&self.corpus, &mut out);
        encode_corpus(&self.solutions, &mut out);
        assert(out@ =~= enc_state(self.rand.spec_state(), self.executions, self.corpus@, self.solutions@));
        out
    }

    /// Restores a state from the persisted byte format; fails with
    /// `Serialize` on bytes that are not exactly one encoded state.
    pub fn deserialize(bytes: &[u8]) -> (r: Result<State, Error>)
        ensures
            match r {
                Ok(st) => dec_state(bytes@) == Some((st.rand.spec_state(), st.executions, st.corpus@, st.solutions@))
                    && st.metadata.cmp_values_view() is None,
                Err(e) => dec_state(bytes@) is None && e is Serialize,
            },
    {
        if bytes.len() < 16 {
            return Err(Error::Serialize(String::from_str("truncated state")));
        }
        let seed = read_u64(bytes, 0);
        let executions = read_u64(bytes, 8);
        let (corpus, p) = match decode_corpus(bytes, 16) {
            Some(x) => x,
            None => {
                return Err(Error::Serialize(String::from_str("malformed corpus")));
            },
        };
        let (solutions, q) = match decode_corpus(bytes, p) {
            Some(x) => x,
            None => {
                return Err(Error::Serialize(String::from_str("malformed solutions")));
            },
        };
        if q != bytes.len() {
            return Err(Error::Serialize(String::from_str("trailing bytes")));
        }
        Ok(State {
            rand: StdRand::with_seed(seed),
            corpus,
            solutions,
            metadata: MetadataMap::new(),
            executions,
        })
    }
}

impl InMemoryCorpus {
    /// The corpus in the persisted byte format.
    pub fn serialize(&self) -> (r: Vec<u8>)
        ensures
            r@ == enc_corpus(self@),
    {
        let mut out: Vec<u8> = Vec::new();
        encode_corpus(self, &mut out);
        assert(out@ =~= enc_corpus(self@));
        out
    }

    /// Restores a corpus from the persisted byte format; fails with
    /// `Serialize` on bytes that are not exactly one encoded corpus.
    pub fn deserialize(bytes: &[u8]) -> (r: Result<InMemoryCorpus, Error>)
        ensures
            match r {
                Ok(c) => dec_corpus(bytes@, 0) == Some((c@, bytes@.len() as int)),
                Err(e) => !(dec_corpus(bytes@, 0) matches Some((_, q)) && q == bytes@.len()) && e is Serialize,
            },
    {
        match decode_corpus(bytes, 0) {
            Some((c, q)) => {
                if q == bytes.len() {
                    Ok(c)
                } else {
                    Err(Error::Serialize(String::from_str("trailing bytes")))
                }
            },
            None => Err(Error::Serialize(String::from_str("malformed corpus"))),
        }
    }
}

/// Restoring a serialized state gives back the generator state, the run
/// count, and as many corpus entries and solutions, with the same inputs
/// and fuzz levels in the same order; only runtimes and file names are
/// not kept.
pub proof fn lemma_serialize_round_trip(st: State)
    ensures
        ({
            let b = enc_state(st.rand.spec_state(), st.executions, st.corpus@, st.solutions@);
            &&& dec_state(b) == Some((st.rand.spec_state(), st.executions, stored_all(st.corpus@), stored_all(st.solutions@)))
            &&& stored_all(st.corpus@).len() == st.corpus@.len()
            &&& stored_all(st.solutions@).len() == st.solutions@.len()
            &&& forall|i: int| 0 <= i < st.corpus@.len() ==> #[trigger] stored_all(st.corpus@)[i].input == st.corpus@[i].input
                && stored_all(st.corpus@)[i].fuzz_level == st.corpus@[i].fuzz_level
        }),
{
    lemma_corpus_encodable(&st.corpus);
    lemma_corpus_encodable(&st.solutions);
    lemma_state_round_trip(st.rand.spec_state(), st.executions, st.corpus@, st.solutions@);
}

} // verus!
