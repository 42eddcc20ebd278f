//! The byte format of a persisted state: fixed-width little-endian
//! integers and length-prefixed byte strings.
//!
//! A state is its generator state, its run count, its corpus and its
//! solutions; a corpus is its entry count followed by its entries; an entry
//! is its input's length, the input, and its fuzz level. Runtimes are
//! measurements of one machine, and file names belong to on-disk corpora:
//! neither is kept.
use vstd::prelude::*;

use crate::corpus::TestcaseView;

verus! {

/// The eight little-endian bytes of `x`.
#[verifier::opaque]
pub open spec fn le64(x: u64) -> Seq<u8> {
    seq![
        (x & 0xff) as u8,
        ((x >> 8u64) & 0xff) as u8,
        ((x >> 16u64) & 0xff) as u8,
        ((x >> 24u64) & 0xff) as u8,
        ((x >> 32u64) & 0xff) as u8,
        ((x >> 40u64) & 0xff) as u8,
        ((x >> 48u64) & 0xff) as u8,
        ((x >> 56u64) & 0xff) as u8,
    ]
}

/// The integer whose little-endian bytes start at `pos`.
#[verifier::opaque]
pub open spec fn dec_u64(b: Seq<u8>, pos: int) -> u64 {
    (b[pos] as u64) | ((b[pos + 1] as u64) << 8u64) | ((b[pos + 2] as u64) << 16u64) | ((b[pos + 3] as u64) << 24u64)
        | ((b[pos + 4] as u64) << 32u64) | ((b[pos + 5] as u64) << 40u64) | ((b[pos + 6] as u64) << 48u64)
        | ((b[pos + 7] as u64) << 56u64)
}

/// The encoding of one corpus entry.
pub open spec fn enc_entry(t: TestcaseView) -> Seq<u8> {
    le64(t.input.len() as u64) + t.input + le64(t.fuzz_level as u64)
}

/// The encodings of the entries, in order.
pub open spec fn enc_entries(c: Seq<TestcaseView>) -> Seq<u8>
    decreases c.len(),
{
    if c.len() == 0 {
        Seq::empty()
    } else {
        enc_entry(c[0]) + enc_entries(c.drop_first())
    }
}

/// The encoding of a corpus.
pub open spec fn enc_corpus(c: Seq<TestcaseView>) -> Seq<u8> {
    le64(c.len() as u64) + enc_entries(c)
}

/// The encoding of a state.
pub open spec fn enc_state(rand: u64, executions: u64, corpus: Seq<TestcaseView>, solutions: Seq<TestcaseView>) -> Seq<u8> {
    le64(rand) + le64(executions) + enc_corpus(corpus) + enc_corpus(solutions)
}

/// The entry as it is restored: without its runtime and file name.
pub open spec fn stored(t: TestcaseView) -> TestcaseView {
    TestcaseView { exec_time: None, filename: None, ..t }
}

pub open spec fn stored_all(c: Seq<TestcaseView>) -> Seq<TestcaseView> {
    c.map_values(|t: TestcaseView| stored(t))
}

/// Every length and level of the corpus can be written in the format.
pub open spec fn encodable(c: Seq<TestcaseView>) -> bool {
    &&& c.len() <= usize::MAX
    &&& forall|i: int| 0 <= i < c.len() ==> (#[trigger] c[i]).input.len() <= usize::MAX && c[i].fuzz_level <= usize::MAX
}

/// The entry encoded at `pos`, and where it ends.
pub open spec fn dec_entry(b: Seq<u8>, pos: int) -> Option<(TestcaseView, int)> {
    if pos < 0 || pos + 8 > b.len() {
        None
    } else {
        let n = dec_u64(b, pos) as int;
        if n > usize::MAX || pos + 16 + n > b.len() {
            None
        } else {
            let lv = dec_u64(b, pos + 8 + n);
            if lv > usize::MAX {
                None
            } else {
                Some((TestcaseView { input: b.subrange(pos + 8, pos + 8 + n), exec_time: None, filename: None, fuzz_level: lv as nat }, pos + 16 + n))
            }
        }
    }
}

/// The `n` entries encoded from `pos` on, and where they end.
pub open spec fn dec_entries(b: Seq<u8>, pos: int, n: nat) -> Option<(Seq<TestcaseView>, int)>
    decreases n,
{
    if n == 0 {
        Some((Seq::empty(), pos))
    } else {
        match dec_entry(b, pos) {
            None => None,
            Some((t, p)) => match dec_entries(b, p, (n - 1) as nat) {
                None => None,
                Some((rest, q)) => Some((seq![t] + rest, q)),
            },
        }
    }
}

/// The corpus encoded at `pos`, and where it ends.
pub open spec fn dec_corpus(b: Seq<u8>, pos: int) -> Option<(Seq<TestcaseView>, int)> {
    if pos < 0 || pos + 8 > b.len() || dec_u64(b, pos) > usize::MAX {
        None
    } else {
        dec_entries(b, pos + 8, dec_u64(b, pos) as nat)
    }
}

/// The state encoded by `b`: generator state, run count, corpus and
/// solutions, with nothing left over.
pub open spec fn dec_state(b: Seq<u8>) -> Option<(u64, u64, Seq<TestcaseView>, Seq<TestcaseView>)> {
    if b.len() < 16 {
        None
    } else {
        match dec_corpus(b, 16) {
            None => None,
            Some((c, p)) => match dec_corpus(b, p) {
                None => None,
                Some((s, q)) => if q == b.len() {
                    Some((dec_u64(b, 0), dec_u64(b, 8), c, s))
                } else {
                    None
                },
            },
        }
    }
}

/// An integer takes eight bytes.
pub proof fn lemma_le64_len(x: u64)
    ensures
        le64(x).len() == 8,
{
    reveal(le64);
}

/// Reading back the bytes of an integer gives the integer.
pub proof fn lemma_le64_read(x: u64, pre: Seq<u8>, post: Seq<u8>)
    ensures
        dec_u64(pre + le64(x) + post, pre.len() as int) == x,
        le64(x).len() == 8,
{
    reveal(le64);
    reveal(dec_u64);
    let b = pre + le64(x) + post;
    let p = pre.len() as int;
    assert(b[p] == (x & 0xff) as u8);
    assert(b[p + 1] == ((x >> 8u64) & 0xff) as u8);
    assert(b[p + 2] == ((x >> 16u64) & 0xff) as u8);
    assert(b[p + 3] == ((x >> 24u64) & 0xff) as u8);
    assert(b[p + 4] == ((x >> 32u64) & 0xff) as u8);
    assert(b[p + 5] == ((x >> 40u64) & 0xff) as u8);
    assert(b[p + 6] == ((x >> 48u64) & 0xff) as u8);
    assert(b[p + 7] == ((x >> 56u64) & 0xff) as u8);
    assert(((((x & 0xff) as u8) as u64) | (((((x >> 8u64) & 0xff) as u8) as u64) << 8u64)
        | (((((x >> 16u64) & 0xff) as u8) as u64) << 16u64) | (((((x >> 24u64) & 0xff) as u8) as u64) << 24u64)
        | (((((x >> 32u64) & 0xff) as u8) as u64) << 32u64) | (((((x >> 40u64) & 0xff) as u8) as u64) << 40u64)
        | (((((x >> 48u64) & 0xff) as u8) as u64) << 48u64) | (((((x >> 56u64) & 0xff) as u8) as u64) << 56u64)) == x)
        by (bit_vector);
}

/// The bytes at `pos` are those of the integer read there.
pub proof fn lemma_le64_bytes(b: Seq<u8>, pos: int)
    requires
        0 <= pos,
        pos + 8 <= b.len(),
    ensures
        le64(dec_u64(b, pos)) == b.subrange(pos, pos + 8),
{
    reveal(le64);
    reveal(dec_u64);
    let b0 = b[pos];
    let b1 = b[pos + 1];
    let b2 = b[pos + 2];
    let b3 = b[pos + 3];
    let b4 = b[pos + 4];
    let b5 = b[pos + 5];
    let b6 = b[pos + 6];
    let b7 = b[pos + 7];
    let x = dec_u64(b, pos);
    assert(x == (b0 as u64) | ((b1 as u64) << 8u64) | ((b2 as u64) << 16u64) | ((b3 as u64) << 24u64)
        | ((b4 as u64) << 32u64) | ((b5 as u64) << 40u64) | ((b6 as u64) << 48u64) | ((b7 as u64) << 56u64));
    assert((x & 0xff) as u8 == b0 && ((x >> 8u64) & 0xff) as u8 == b1 && ((x >> 16u64) & 0xff) as u8 == b2
        && ((x >> 24u64) & 0xff) as u8 == b3 && ((x >> 32u64) & 0xff) as u8 == b4
        && ((x >> 40u64) & 0xff) as u8 == b5 && ((x >> 48u64) & 0xff) as u8 == b6
        && ((x >> 56u64) & 0xff) as u8 == b7) by (bit_vector)
        requires
            x == (b0 as u64) | ((b1 as u64) << 8u64) | ((b2 as u64) << 16u64) | ((b3 as u64) << 24u64)
                | ((b4 as u64) << 32u64) | ((b5 as u64) << 40u64) | ((b6 as u64) << 48u64) | ((b7 as u64) << 56u64);
    assert(le64(x) =~= b.subrange(pos, pos + 8));
}

/// An encoded entry decodes to itself, without its runtime.
pub proof fn lemma_dec_entry_of_enc(t: TestcaseView, pre: Seq<u8>, post: Seq<u8>)
    requires
        t.input.len() <= usize::MAX,
        t.fuzz_level <= usize::MAX,
    ensures
        dec_entry(pre + enc_entry(t) + post, pre.len() as int) == Some((stored(t), (pre.len() + enc_entry(t).len()) as int)),
{
    let n = t.input.len();
    let b = pre + enc_entry(t) + post;
    let p = pre.len() as int;
    assert(b == pre + le64(n as u64) + (t.input + le64(t.fuzz_level as u64) + post));
    lemma_le64_read(n as u64, pre, t.input + le64(t.fuzz_level as u64) + post);
    assert(b == (pre + le64(n as u64) + t.input) + le64(t.fuzz_level as u64) + post);
    lemma_le64_read(t.fuzz_level as u64, pre + le64(n as u64) + t.input, post);
    assert(b.subrange(p + 8, p + 8 + n) =~= t.input);
}

/// Encoded entries decode to themselves, without their runtimes.
pub proof fn lemma_dec_entries_of_enc(c: Seq<TestcaseView>, pre: Seq<u8>, post: Seq<u8>)
    requires
        encodable(c),
    ensures
        dec_entries(pre + enc_entries(c) + post, pre.len() as int, c.len()) == Some((stored_all(c), (pre.len() + enc_entries(c).len()) as int)),
    decreases c.len(),
{
    if c.len() == 0 {
        assert(stored_all(c) =~= Seq::<TestcaseView>::empty());
    } else {
        let t = c[0];
        let rest = c.drop_first();
        assert(encodable(rest)) by {
            assert forall|i: int| 0 <= i < rest.len() implies (#[trigger] rest[i]).input.len() <= usize::MAX && rest[i].fuzz_level <= usize::MAX by {
                assert(rest[i] == c[i + 1]);
            }
        }
        let b = pre + enc_entries(c) + post;
        assert(b == pre + enc_entry(t) + (enc_entries(rest) + post));
        lemma_dec_entry_of_enc(t, pre, enc_entries(rest) + post);
        assert(b == (pre + enc_entry(t)) + enc_entries(rest) + post);
        lemma_dec_entries_of_enc(rest, pre + enc_entry(t), post);
        assert(seq![stored(t)] + stored_all(rest) =~= stored_all(c));
    }
}

/// An encoded corpus decodes to itself, without runtimes.
pub proof fn lemma_dec_corpus_of_enc(c: Seq<TestcaseView>, pre: Seq<u8>, post: Seq<u8>)
    requires
        encodable(c),
    ensures
        dec_corpus(pre + enc_corpus(c) + post, pre.len() as int) == Some((stored_all(c), (pre.len() + enc_corpus(c).len()) as int)),
{
    let b = pre + enc_corpus(c) + post;
    assert(b =~= pre + le64(c.len() as u64) + (enc_entries(c) + post));
    lemma_le64_read(c.len() as u64, pre, enc_entries(c) + post);
    assert(b =~= (pre + le64(c.len() as u64)) + enc_entries(c) + post);
    lemma_dec_entries_of_enc(c, pre + le64(c.len() as u64), post);
}

/// Decoding a state's encoding gives the state back, without runtimes.
pub proof fn lemma_state_round_trip(rand: u64, executions: u64, corpus: Seq<TestcaseView>, solutions: Seq<TestcaseView>)
    requires
        encodable(corpus),
        encodable(solutions),
    ensures
        dec_state(enc_state(rand, executions, corpus, solutions)) == Some((rand, executions, stored_all(corpus), stored_all(solutions))),
{
    let b = enc_state(rand, executions, corpus, solutions);
    let h = le64(rand) + le64(executions);
    let ec = enc_corpus(corpus);
    let es = enc_corpus(solutions);
    assert(b =~= Seq::<u8>::empty() + le64(rand) + (le64(executions) + ec + es));
    lemma_le64_read(rand, Seq::<u8>::empty(), le64(executions) + ec + es);
    assert(b =~= le64(rand) + le64(executions) + (ec + es));
    lemma_le64_read(executions, le64(rand), ec + es);
    assert(b =~= h + ec + es);
    lemma_dec_corpus_of_enc(corpus, h, es);
    assert(b =~= (h + ec) + es + Seq::<u8>::empty());
    lemma_dec_corpus_of_enc(solutions, h + ec, Seq::<u8>::empty());
}

/// What decodes as an entry is that entry's encoding.
pub proof fn lemma_dec_entry_sound(b: Seq<u8>, pos: int)
    requires
        dec_entry(b, pos) is Some,
    ensures
        ({
            let (t, q) = dec_entry(b, pos)->0;
            pos <= q <= b.len() && b.subrange(pos, q) == enc_entry(t)
        }),
{
    let n = dec_u64(b, pos) as int;
    lemma_le64_bytes(b, pos);
    lemma_le64_bytes(b, pos + 8 + n);
    let (t, q) = dec_entry(b, pos)->0;
    assert(b.subrange(pos, q) =~= b.subrange(pos, pos + 8) + b.subrange(pos + 8, pos + 8 + n) + b.subrange(pos + 8 + n, q));
}

/// What decodes as entries is those entries' encoding.
pub proof fn lemma_dec_entries_sound(b: Seq<u8>, pos: int, n: nat)
    requires
        0 <= pos <= b.len(),
        dec_entries(b, pos, n) is Some,
    ensures
        ({
            let (c, q) = dec_entries(b, pos, n)->0;
            pos <= q <= b.len() && b.subrange(pos, q) == enc_entries(c) && c.len() == n
        }),
    decreases n,
{
    if n == 0 {
        assert(b.subrange(pos, pos) =~= Seq::<u8>::empty());
    } else {
        let (t, p) = dec_entry(b, pos)->0;
        lemma_dec_entry_sound(b, pos);
        lemma_dec_entries_sound(b, p, (n - 1) as nat);
        let (rest, q) = dec_entries(b, p, (n - 1) as nat)->0;
        let c = seq![t] + rest;
        assert(c.drop_first() =~= rest);
        assert(b.subrange(pos, q) =~= b.subrange(pos, p) + b.subrange(p, q));
    }
}

/// What decodes as a state is that state's encoding.
pub proof fn lemma_dec_state_sound(b: Seq<u8>)
    requires
        dec_state(b) is Some,
    ensures
        ({
            let (r, e, c, s) = dec_state(b)->0;
            b == enc_state(r, e, c, s)
        }),
{
    let (r, e, c, s) = dec_state(b)->0;
    let (c1, p) = dec_corpus(b, 16)->0;
    lemma_le64_bytes(b, 0);
    lemma_le64_bytes(b, 8);
    lemma_le64_bytes(b, 16);
    lemma_dec_entries_sound(b, 24, dec_u64(b, 16) as nat);
    lemma_le64_bytes(b, p);
    lemma_dec_entries_sound(b, p + 8, dec_u64(b, p) as nat);
    assert(b =~= b.subrange(0, 8) + b.subrange(8, 16) + (b.subrange(16, 24) + b.subrange(24, p))
        + (b.subrange(p, p + 8) + b.subrange(p + 8, b.len() as int)));
}

/// Appending an entry appends its encoding.
pub proof fn lemma_enc_entries_push(c: Seq<TestcaseView>, t: TestcaseView)
    ensures
        enc_entries(c.push(t)) == enc_entries(c) + enc_entry(t),
    decreases c.len(),
{
    if c.len() == 0 {
        assert(c.push(t).drop_first() =~= Seq::<TestcaseView>::empty());
        assert(c.push(t)[0] == t);
        assert(enc_entries(Seq::<TestcaseView>::empty()) == Seq::<u8>::empty());
        assert(enc_entries(c.push(t)) == enc_entry(t) + Seq::<u8>::empty());
        assert(enc_entries(c.push(t)) =~= enc_entries(c) + enc_entry(t));
    } else {
        lemma_enc_entries_push(c.drop_first(), t);
        assert(c.push(t).drop_first() =~= c.drop_first().push(t));
        assert(enc_entries(c.push(t)) =~= enc_entries(c) + enc_entry(t));
    }
}

/// Appends the eight little-endian bytes of `x`.
pub fn push_u64(out: &mut Vec<u8>, x: u64)
    ensures
        final(out)@ == old(out)@ + le64(x),
{
    proof {
        reveal(le64);
    }
    out.push((x & 0xff) as u8);
    out.push(((x >> 8u64) & 0xff) as u8);
    out.push(((x >> 16u64) & 0xff) as u8);
    out.push(((x >> 24u64) & 0xff) as u8);
    out.push(((x >> 32u64) & 0xff) as u8);
    out.push(((x >> 40u64) & 0xff) as u8);
    out.push(((x >> 48u64) & 0xff) as u8);
    out.push(((x >> 56u64) & 0xff) as u8);
    assert(out@ =~= old(out)@ + le64(x));
}

/// The integer whose little-endian bytes start at `pos`.
pub fn read_u64(b: &[u8], pos: usize) -> (r: u64)
    requires
        pos + 8 <= b@.len(),
    ensures
        r == dec_u64(b@, pos as int),
{
    proof {
        reveal(dec_u64);
    }
    (b[pos] as u64) | ((b[pos + 1] as u64) << 8u64) | ((b[pos + 2] as u64) << 16u64) | ((b[pos + 3] as u64) << 24u64)
        | ((b[pos + 4] as u64) << 32u64) | ((b[pos + 5] as u64) << 40u64) | ((b[pos + 6] as u64) << 48u64)
        | ((b[pos + 7] as u64) << 56u64)
}

/// Appends the bytes of `src`.
pub fn push_bytes(out: &mut Vec<u8>, src: &Vec<u8>)
    ensures
        final(out)@ == old(out)@ + src@,
{
    let mut i: usize = 0;
    while i < src.len()
        invariant
            i <= src@.len(),
            out@ == old(out)@ + src@.take(i as int),
        decreases src@.len() - i,
    {
        out.push(src[i]);
        i = i + 1;
        assert(out@ =~= old(out)@ + src@.take(i as int));
    }
    assert(src@.take(src@.len() as int) =~= src@);
}

/// The bytes `b[from..to]`.
pub fn copy_range(b: &[u8], from: usize, to: usize) -> (r: Vec<u8>)
    requires
        from <= to <= b@.len(),
    ensures
        r@ == b@.subrange(from as int, to as int),
{
    let mut out: Vec<u8> = Vec::new();
    let mut i: usize = from;
    while i < to
        invariant
            from <= i <= to,
            to <= b@.len(),
            out@ == b@.subrange(from as int, i as int),
        decreases to - i,
    {
        out.push(b[i]);
        i = i + 1;
        assert(out@ =~= b@.subrange(from as int, i as int));
    }
    out
}

} // verus!
