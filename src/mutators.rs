//! Mutators change an input between runs.
use vstd::prelude::*;

use crate::error::Error;
use crate::rands::StdRand;

verus! {

/// Whether a mutation changed the input.
#[derive(Clone, Copy, Debug, PartialEq, Eq, Structural)]
pub enum MutationResult {
    Mutated,
    Skipped,
}

/// Changes inputs, and may learn from how the changed inputs fared.
pub trait Mutator {
    /// The mutator cannot fail.
    spec fn never_fails(&self) -> bool;

    /// Mutates `input`; `stage_idx` is the round within the current stage.
    fn mutate(&mut self, rand: &mut StdRand, input: &mut Vec<u8>, stage_idx: i32) -> (r: Result<MutationResult, Error>)
        ensures
            old(self).never_fails() ==> r is Ok,
            final(self).never_fails() == old(self).never_fails();

    /// Learns the outcome of the run of the last mutated input: the index
    /// it got in the corpus, if it was kept.
    fn post_exec(&mut self, rand: &mut StdRand, stage_idx: i32, corpus_idx: Option<usize>) -> (r: Result<(), Error>)
        ensures
            old(self).never_fails() ==> r is Ok,
            final(self).never_fails() == old(self).never_fails();
}

/// `input` with bit `bit` of byte `byte` inverted.
pub open spec fn with_bit_flipped(input: Seq<u8>, byte: int, bit: u8) -> Seq<u8> {
    input.update(byte, input[byte] ^ ((1u8 << bit) as u8))
}

/// Inverts bit `bit` of byte `byte`.
pub fn flip_bit(input: &mut Vec<u8>, byte: usize, bit: u8)
    requires
        byte < old(input)@.len(),
        bit < 8,
    ensures
        final(input)@ == with_bit_flipped(old(input)@, byte as int, bit),
{
    let b = input[byte] ^ (1u8 << bit);
    input.set(byte, b);
}

/// Flips one random bit of the input.
pub struct BitFlipMutator {}

impl BitFlipMutator {
    pub fn new() -> (r: Self) {
        BitFlipMutator {}
    }
}

impl Mutator for BitFlipMutator {
    open spec fn never_fails(&self) -> bool {
        true
    }

    fn mutate(&mut self, rand: &mut StdRand, input: &mut Vec<u8>, stage_idx: i32) -> (r: Result<MutationResult, Error>) {
        if input.len() == 0 {
            Ok(MutationResult::Skipped)
        } else {
            let byte = rand.below(input.len() as u64) as usize;
            let bit = rand.below(8) as u8;
            flip_bit(input, byte, bit);
            Ok(MutationResult::Mutated)
        }
    }

    fn post_exec(&mut self, rand: &mut StdRand, stage_idx: i32, corpus_idx: Option<usize>) -> (r: Result<(), Error>) {
        Ok(())
    }
}

/// Stacks a random number of mutations (a power of two from 2 to 128) of
/// an inner mutator on each input.
pub struct StdScheduledMutator<M: Mutator> {
    mutator: M,
}

impl<M: Mutator> StdScheduledMutator<M> {
    pub fn new(mutator: M) -> (r: Self)
        ensures
            r.never_fails() == mutator.never_fails(),
    {
        StdScheduledMutator { mutator }
    }

    /// How many mutations to stack: a power of two from 2 to 128.
    pub fn iterations(&self, rand: &mut StdRand) -> (r: u64)
        ensures
            2 <= r <= 128,
    {
        let e = 1 + rand.below(7);
        let r = 1u64 << e;
        assert(2 <= (1u64 << e) <= 128) by (bit_vector)
            requires
                1 <= e <= 7;
        r
    }
}

impl<M: Mutator> Mutator for StdScheduledMutator<M> {
    closed spec fn never_fails(&self) -> bool {
        self.mutator.never_fails()
    }

    fn mutate(&mut self, rand: &mut StdRand, input: &mut Vec<u8>, stage_idx: i32) -> (r: Result<MutationResult, Error>) {
        let n = self.iterations(rand);
        let mut result = MutationResult::Skipped;
        let mut i: u64 = 0;
        while i < n
            invariant
                self.mutator.never_fails() == old(self).mutator.never_fails(),
            decreases n - i,
        {
            match self.mutator.mutate(rand, input, stage_idx) {
                Ok(MutationResult::Mutated) => {
                    result = MutationResult::Mutated;
                },
                Ok(MutationResult::Skipped) => {},
                Err(e) => {
                    return Err(e);
                },
            }
            i = i + 1;
        }
        Ok(result)
    }

    fn post_exec(&mut self, rand: &mut StdRand, stage_idx: i32, corpus_idx: Option<usize>) -> (r: Result<(), Error>) {
        self.mutator.post_exec(rand, stage_idx, corpus_idx)
    }
}

} // verus!
