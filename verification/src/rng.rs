//! A deterministic stream of pseudo-random blocks grown from one seed.
//!
//! The generator keeps the Keccak-256 digest of its entropy as a fixed state
//! and a 32-bit counter. Block number `k` of the stream is the digest of the
//! state followed by the big-endian bytes of `k`.

use rand::Rng;
use vstd::arithmetic::div_mod::lemma_add_mod_noop_right;
use vstd::prelude::*;

verus! {

/// The Keccak-256 digest of a byte string.
pub uninterp spec fn keccak256(bytes: Seq<u8>) -> Seq<u8>;

/// The index that `rand`'s uniform sampler returns for the range `0..n`, and
/// the counter it leaves behind, when it reads from the stream with the given
/// state and counter.
pub uninterp spec fn uniform_index(state: Seq<u8>, counter: u32, n: u32) -> (u32, u32);

/// Error type of `rand`'s fallible generator methods.
#[verifier::external_type_specification]
#[verifier::external_body]
pub struct ExRandError(rand::Error);

/// Calls `stylus_sdk::crypto::keccak`: the result is the 32-byte Keccak-256
/// digest of `bytes`, which depends on `bytes` alone.
#[verifier::external_body]
fn keccak(bytes: &[u8]) -> (digest: [u8; 32])
    ensures
        digest@ == keccak256(bytes@),
{
    stylus_sdk::crypto::keccak(bytes).0
}

/// Calls `rand::Rng::gen_range` on `0..n`. The sampler reads 32-bit words
/// from the generator, through its `RngCore` methods alone, until it accepts
/// one: the seed state stays and the counter moves on. Index and counter
/// depend on the generator and on `n` alone, and the index lies in the
/// range. An empty range makes the sampler panic.
#[verifier::external_body]
fn sample_below(rng: &mut RngKeccak256, n: u32) -> (index: u32)
    requires
        n > 0,
    ensures
        index < n,
        (index, final(rng)@.counter) == uniform_index(old(rng)@.state, old(rng)@.counter, n),
        final(rng)@.state == old(rng)@.state,
{
    rng.gen_range(0..n)
}

/// Big-endian bytes of a 32-bit counter.
pub open spec fn be32(c: u32) -> Seq<u8> {
    seq![
        (c / 0x100_0000) as u8,
        ((c / 0x1_0000) % 0x100) as u8,
        ((c / 0x100) % 0x100) as u8,
        (c % 0x100) as u8,
    ]
}

/// The counter reached from `c` after `k` more blocks; it wraps at 2^32.
pub open spec fn advance(c: u32, k: int) -> u32 {
    ((c + k) % 0x1_0000_0000) as u32
}

/// Block number `counter` of the stream that grows from `state`.
pub open spec fn block(state: Seq<u8>, counter: u32) -> Seq<u8> {
    keccak256(state + be32(counter))
}

/// The 32-bit word whose bytes, least significant first, open `bytes`.
pub open spec fn le32(bytes: Seq<u8>) -> int {
    bytes[0] + bytes[1] * 0x100 + bytes[2] * 0x1_0000 + bytes[3] * 0x100_0000
}

/// The 64-bit word whose bytes, least significant first, open `bytes`.
pub open spec fn le64(bytes: Seq<u8>) -> int {
    le32(bytes) + le32(bytes.skip(4)) * 0x1_0000_0000
}

/// Number of blocks needed to cover `len` bytes.
pub open spec fn blocks_for(len: int) -> int {
    (len + 31) / 32
}

/// The generator that grows from `entropy`.
pub open spec fn seeded(entropy: Seq<u8>) -> RngState {
    RngState { state: keccak256(entropy), counter: 0 }
}

/// The generator after `k` more blocks.
pub open spec fn skipped(rng: RngState, k: nat) -> RngState {
    RngState { state: rng.state, counter: advance(rng.counter, k as int) }
}

/// The block that a generator hands out after `k` others.
pub open spec fn nth_block(rng: RngState, k: nat) -> Seq<u8> {
    block(rng.state, advance(rng.counter, k as int))
}

/// What a generator is: its seed state and the number of its next block.
pub struct RngState {
    pub state: Seq<u8>,
    pub counter: u32,
}

/// Counter-mode Keccak-256 generator.
pub struct RngKeccak256 {
    state: [u8; 32],
    counter: u32,
}

impl View for RngKeccak256 {
    type V = RngState;

    closed spec fn view(&self) -> RngState {
        RngState { state: self.state@, counter: self.counter }
    }
}

impl RngKeccak256 {
    /// A generator at block 0 whose state is the digest of `entropy`.
    pub fn seed(entropy: &[u8]) -> (rng: RngKeccak256)
        ensures
            rng@ == seeded(entropy@),
    {
        RngKeccak256 { state: keccak(entropy), counter: 0 }
    }

    /// The seed state: the digest of the entropy.
    pub fn state(&self) -> (state: [u8; 32])
        ensures
            state@ == self@.state,
    {
        self.state
    }

    /// The number of the next block.
    pub fn counter(&self) -> (counter: u32)
        ensures
            counter == self@.counter,
    {
        self.counter
    }

    /// The next 32-byte block of the stream.
    pub fn rand256(&mut self) -> (out: [u8; 32])
        ensures
            out@ == block(old(self)@.state, old(self)@.counter),
            out@ == nth_block(old(self)@, 0),
            final(self)@ == skipped(old(self)@, 1),
    {
        let c: u32 = self.counter;
        let mut buf: Vec<u8> = Vec::new();
        let mut i: usize = 0;
        while i < 32
            invariant
                i <= 32,
                buf@ == self.state@.take(i as int),
            decreases 32 - i,
        {
            buf.push(self.state[i]);
            i += 1;
        }
        buf.push((c / 0x100_0000) as u8);
        buf.push(((c / 0x1_0000) % 0x100) as u8);
        buf.push(((c / 0x100) % 0x100) as u8);
        buf.push((c % 0x100) as u8);
        assert(buf@ == self.state@ + be32(c));
        self.counter = c.wrapping_add(1);
        keccak(buf.as_slice())
    }

    /// A 32-bit word from the first four bytes of the next block.
    pub fn next_u32(&mut self) -> (word: u32)
        ensures
            word == le32(block(old(self)@.state, old(self)@.counter)),
            final(self)@ == skipped(old(self)@, 1),
    {
        let b = self.rand256();
        word_of(&b, 0)
    }

    /// A 64-bit word from the first eight bytes of the next block.
    pub fn next_u64(&mut self) -> (word: u64)
        ensures
            word == le64(block(old(self)@.state, old(self)@.counter)),
            final(self)@ == skipped(old(self)@, 1),
    {
        let b = self.rand256();
        let lo: u32 = word_of(&b, 0);
        let hi: u32 = word_of(&b, 4);
        assert(b@.skip(4)[0] == b@[4] && b@.skip(4)[1] == b@[5] && b@.skip(4)[2] == b@[6]
            && b@.skip(4)[3] == b@[7]);
        lo as u64 + (hi as u64) * 0x1_0000_0000
    }

    /// Fills `dest` with successive blocks; of the last block only as many
    /// bytes are used as `dest` still has room for.
    pub fn fill_bytes(&mut self, dest: &mut [u8])
        ensures
            final(dest)@.len() == old(dest)@.len(),
            forall|j: int|
                0 <= j < old(dest)@.len() ==> #[trigger] final(dest)@[j] == block(
                    old(self)@.state,
                    advance(old(self)@.counter, j / 32),
                )[j % 32],
            final(self)@.state == old(self)@.state,
            final(self)@.counter == advance(old(self)@.counter, blocks_for(old(dest)@.len() as int)),
    {
        let ghost state0 = self@.state;
        let ghost c0 = self@.counter;
        let n: usize = dest.len();
        let mut blk: [u8; 32] = [0u8; 32];
        let mut i: usize = 0;
        while i < n
            invariant
                i <= n,
                n == dest@.len(),
                dest@.len() == old(dest)@.len(),
                self@.state == state0,
                self@.counter == advance(c0, blocks_for(i as int)),
                i % 32 != 0 ==> blk@ == block(state0, advance(c0, i as int / 32)),
                forall|j: int|
                    0 <= j < i ==> #[trigger] dest@[j] == block(state0, advance(c0, j / 32))[j
                        % 32],
            decreases n - i,
        {
            if i % 32 == 0 {
                blk = self.rand256();
            }
            dest[i] = blk[i % 32];
            i += 1;
        }
    }

    /// Fills `dest` as `fill_bytes` does; it never fails.
    pub fn try_fill_bytes(&mut self, dest: &mut [u8]) -> (done: Result<(), rand::Error>)
        ensures
            done is Ok,
            final(dest)@.len() == old(dest)@.len(),
            forall|j: int|
                0 <= j < old(dest)@.len() ==> #[trigger] final(dest)@[j] == block(
                    old(self)@.state,
                    advance(old(self)@.counter, j / 32),
                )[j % 32],
            final(self)@.state == old(self)@.state,
            final(self)@.counter == advance(old(self)@.counter, blocks_for(old(dest)@.len() as int)),
    {
        self.fill_bytes(dest);
        Ok(())
    }

    /// An index below `n`, drawn from the stream by `rand`'s uniform sampler.
    pub fn index_below(&mut self, n: u32) -> (index: u32)
        requires
            n > 0,
        ensures
            index < n,
            index == uniform_index(old(self)@.state, old(self)@.counter, n).0,
            final(self)@.counter == uniform_index(old(self)@.state, old(self)@.counter, n).1,
            final(self)@.state == old(self)@.state,
    {
        sample_below(self, n)
    }
}

/// Skipping blocks adds up: the block handed out after `b` others, by a
/// generator that has handed out `a`, is the one handed out after `a + b`.
pub proof fn lemma_skipped(rng: RngState, a: nat, b: nat)
    ensures
        skipped(skipped(rng, a), b) == skipped(rng, a + b),
        nth_block(skipped(rng, a), b) == nth_block(rng, a + b),
{
    lemma_add_mod_noop_right(b as int, rng.counter + a, 0x1_0000_0000);
    assert(advance(advance(rng.counter, a as int), b as int) == advance(
        rng.counter,
        (a + b) as int,
    ));
}

/// Determinism: generators seeded from the same entropy hand out the same
/// block at every place of their streams, however far.
pub proof fn lemma_determinism(first: Seq<u8>, second: Seq<u8>, k: nat)
    requires
        first == second,
    ensures
        skipped(seeded(first), k) == skipped(seeded(second), k),
        nth_block(seeded(first), k) == nth_block(seeded(second), k),
        nth_block(skipped(seeded(first), k), 0) == nth_block(seeded(second), k),
{
}

/// The word whose bytes, least significant first, stand at `at..at + 4`.
fn word_of(b: &[u8; 32], at: usize) -> (word: u32)
    requires
        at + 4 <= 32,
    ensures
        word == le32(b@.skip(at as int)),
{
    let b0: u32 = b[at] as u32;
    let b1: u32 = b[at + 1] as u32;
    let b2: u32 = b[at + 2] as u32;
    let b3: u32 = b[at + 3] as u32;
    b0 + b1 * 0x100 + b2 * 0x1_0000 + b3 * 0x100_0000
}

/// The generator as a source of words for `rand`: each method hands out what
/// the method of the same name above does.
impl rand::RngCore for RngKeccak256 {
    /// A 32-bit word from the first four bytes of the next block.
    fn next_u32(&mut self) -> (word: u32)
        ensures
            word == le32(block(old(self)@.state, old(self)@.counter)),
            final(self)@ == skipped(old(self)@, 1),
    {
        RngKeccak256::next_u32(self)
    }

    /// A 64-bit word from the first eight bytes of the next block.
    fn next_u64(&mut self) -> (word: u64)
        ensures
            word == le64(block(old(self)@.state, old(self)@.counter)),
            final(self)@ == skipped(old(self)@, 1),
    {
        RngKeccak256::next_u64(self)
    }

    /// Fills `dest` with successive blocks, the last one cut to fit.
    fn fill_bytes(&mut self, dest: &mut [u8])
        ensures
            final(dest)@.len() == old(dest)@.len(),
            forall|j: int|
                0 <= j < old(dest)@.len() ==> #[trigger] final(dest)@[j] == block(
                    old(self)@.state,
                    advance(old(self)@.counter, j / 32),
                )[j % 32],
            final(self)@.state == old(self)@.state,
            final(self)@.counter == advance(old(self)@.counter, blocks_for(old(dest)@.len() as int)),
    {
        RngKeccak256::fill_bytes(self, dest)
    }

    /// Fills `dest` as `fill_bytes` does; it never fails.
    fn try_fill_bytes(&mut self, dest: &mut [u8]) -> (done: Result<(), rand::Error>)
        ensures
            done is Ok,
            final(dest)@.len() == old(dest)@.len(),
            forall|j: int|
                0 <= j < old(dest)@.len() ==> #[trigger] final(dest)@[j] == block(
                    old(self)@.state,
                    advance(old(self)@.counter, j / 32),
                )[j % 32],
            final(self)@.state == old(self)@.state,
            final(self)@.counter == advance(old(self)@.counter, blocks_for(old(dest)@.len() as int)),
    {
        RngKeccak256::try_fill_bytes(self, dest)
    }
}

} // verus!
