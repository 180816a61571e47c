//! Deterministic seed derivation for sweep paths.
//!
//! Path seeds form a hash chain: the first seed is the configured base
//! seed, and each successive seed is the 64-bit hash of the stream of all
//! seeds used so far. The chain is a pure function of the base seed, so an
//! identical sweep description always receives the identical ordered
//! sequence of per-path seeds.

use std::collections::hash_map::DefaultHasher;
use std::hash::Hasher;
use vstd::prelude::*;
use vstd::std_specs::hash::DefaultHasherAdditionalSpecFns;

verus! {

/// The little-endian bytes of one seed, as the chain writes them into its
/// hasher.
pub open spec fn seed_bytes(x: u64) -> Seq<u8> {
    Seq::new(8, |i: int| ((x >> ((8 * i) as u64)) & 0xff) as u8)
}

/// The stream of writes the chain's hasher has consumed once `k` seeds have
/// been handed out: the bytes of each seed, in order.
pub open spec fn chain_writes(base: u64, k: nat) -> Seq<Seq<u8>>
    decreases k, 0nat,
{
    if k == 0 {
        Seq::empty()
    } else {
        chain_writes(base, (k - 1) as nat).push(seed_bytes(seed_at(base, (k - 1) as nat)))
    }
}

/// The `k`-th seed of the chain with the given base: the base seed itself
/// for `k == 0`, afterwards the hash of the stream of all earlier seeds.
pub open spec fn seed_at(base: u64, k: nat) -> u64
    decreases k, 1nat,
{
    if k == 0 {
        base
    } else {
        DefaultHasher::spec_finish(chain_writes(base, k))
    }
}

/// The little-endian bytes of `x`, matching [`seed_bytes`].
fn seed_bytes_vec(x: u64) -> (v: Vec<u8>)
    ensures
        v@ =~= seed_bytes(x),
{
    let mut v: Vec<u8> = Vec::new();
    let mut i: usize = 0;
    while i < 8
        invariant
            i <= 8,
            v@.len() == i,
            forall|k: int| 0 <= k < i ==> v@[k] == seed_bytes(x)[k],
        decreases 8 - i,
    {
        let shift: u64 = (8 * i) as u64;
        v.push(((x >> shift) & 0xff) as u8);
        i = i + 1;
    }
    v
}

/// A deterministic seed chain. `next` yields the base seed first, then the
/// successive hashes of the stream of seeds already handed out.
pub struct SeedChain {
    hasher: DefaultHasher,
    current: u64,
    base: Ghost<u64>,
    emitted: Ghost<nat>,
}

impl SeedChain {
    /// The base seed the chain was started from.
    pub closed spec fn base(self) -> u64 {
        self.base@
    }

    /// How many seeds the chain has handed out so far.
    pub closed spec fn emitted(self) -> nat {
        self.emitted@
    }

    /// The chain's hasher has consumed exactly the seeds handed out so far,
    /// and the pending seed is the next link of the chain.
    pub closed spec fn wf(self) -> bool {
        &&& self.hasher@ == chain_writes(self.base@, self.emitted@)
        &&& self.current == seed_at(self.base@, self.emitted@)
    }

    /// Starts the chain at the given base seed.
    pub fn new(base: u64) -> (r: SeedChain)
        ensures
            r.wf(),
            r.base() == base,
            r.emitted() == 0,
    {
        SeedChain { hasher: DefaultHasher::new(), current: base, base: Ghost(base), emitted: Ghost(0) }
    }

    /// Hands out the next seed of the chain and advances it.
    pub fn next(&mut self) -> (s: u64)
        requires
            old(self).wf(),
        ensures
            final(self).wf(),
            final(self).base() == old(self).base(),
            final(self).emitted() == old(self).emitted() + 1,
            s == seed_at(old(self).base(), old(self).emitted()),
    {
        let s = self.current;
        let bytes = seed_bytes_vec(s);
        self.hasher.write(bytes.as_slice());
        self.current = self.hasher.finish();
        proof {
            self.emitted@ = self.emitted@ + 1;
        }
        s
    }
}

/// Re-derives the first `count` seeds of the chain with the given base,
/// independently of any expansion that used them.
pub fn derive_seeds(base: u64, count: usize) -> (v: Vec<u64>)
    ensures
        v@.len() == count,
        forall|i: int| 0 <= i < count ==> #[trigger] v@[i] == seed_at(base, i as nat),
{
    let mut chain = SeedChain::new(base);
    let mut v: Vec<u64> = Vec::new();
    let mut i: usize = 0;
    while i < count
        invariant
            i <= count,
            v@.len() == i,
            chain.wf(),
            chain.base() == base,
            chain.emitted() == i,
            forall|k: int| 0 <= k < i ==> #[trigger] v@[k] == seed_at(base, k as nat),
        decreases count - i,
    {
        let s = chain.next();
        v.push(s);
        i = i + 1;
    }
    v
}

/// Law of the seed chain: the per-path seed sequence is a pure function of
/// the base seed, so any two sequences derived from the same base agree
/// entry by entry.
pub proof fn lemma_seed_chain_reproducible(base: u64, a: Seq<u64>, b: Seq<u64>)
    requires
        a.len() == b.len(),
        forall|i: int| 0 <= i < a.len() ==> #[trigger] a[i] == seed_at(base, i as nat),
        forall|i: int| 0 <= i < b.len() ==> #[trigger] b[i] == seed_at(base, i as nat),
    ensures
        a =~= b,
{
}

} // verus!
