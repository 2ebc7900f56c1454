//! The seeded shuffle that orders a dataset before it is split.
//!
//! The pseudo-random generator and the Fisher–Yates walk both come from the
//! `rand` crate; the library states what they leave behind — a permutation
//! that depends on the seed and the prior contents alone — and proves
//! everything past that point.

use vstd::prelude::*;

verus! {

/// What `rand`'s shuffle leaves in a slice of indices: a reordering that is a
/// pure function of the generator's seed and of the slice's prior contents.
pub uninterp spec fn shuffle_of(seed: u64, s: Seq<usize>) -> Seq<usize>;

#[verifier::external_type_specification]
#[verifier::external_body]
pub struct ExStdRng(rand::rngs::StdRng);

/// A pseudo-random generator freshly seeded from a 64-bit value. It is spent
/// by the one shuffle it drives, so its state is always the seeded one.
pub(crate) struct SeededRng {
    rng: rand::rngs::StdRng,
    seed: u64,
}

impl SeededRng {
    /// The seed this generator was built from.
    pub(crate) closed spec fn seed_spec(self) -> u64 {
        self.seed
    }

    /// Relies on `rand::SeedableRng::seed_from_u64`: the generator state is a
    /// deterministic function of the 64-bit seed.
    #[verifier::external_body]
    pub(crate) fn from_seed(seed: u64) -> (r: SeededRng)
        ensures
            r.seed_spec() == seed,
    {
        SeededRng { rng: rand::SeedableRng::seed_from_u64(seed), seed }
    }
}

/// Relies on `rand::seq::SliceRandom::shuffle`: it permutes the slice in
/// place, and the order it leaves is a function of the generator's state —
/// here always the freshly seeded one — and of the prior contents.
#[verifier::external_body]
pub(crate) fn shuffle_indices(v: &mut Vec<usize>, rng: SeededRng)
    ensures
        final(v)@ == shuffle_of(rng.seed_spec(), old(v)@),
        final(v)@.to_multiset() == old(v)@.to_multiset(),
{
    let mut rng = rng;
    rand::seq::SliceRandom::shuffle(v.as_mut_slice(), &mut rng.rng);
}

/// The sequence 0, 1, ..., n-1: the positions of a dataset of n samples.
pub open spec fn index_seq(n: nat) -> Seq<usize> {
    Seq::new(n, |i: int| i as usize)
}

/// The vector 0, 1, ..., n-1.
fn identity_indices(n: usize) -> (r: Vec<usize>)
    ensures
        r@ == index_seq(n as nat),
{
    let mut v: Vec<usize> = Vec::new();
    for i in 0..n
        invariant
            v@ =~= index_seq(i as nat),
    {
        v.push(i);
        proof {
            assert(v@ =~= index_seq((i + 1) as nat));
        }
    }
    v
}

/// The order in which a dataset of `n` samples is dealt out under `seed`:
/// each position below `n` exactly once.
pub fn shuffled_order(n: usize, seed: u64) -> (r: Vec<usize>)
    ensures
        r@ == shuffle_of(seed, index_seq(n as nat)),
        r@.to_multiset() == index_seq(n as nat).to_multiset(),
        r@.len() == n,
        forall|i: int| 0 <= i < r@.len() ==> (#[trigger] r@[i]) < n,
        r@.no_duplicates(),
{
    let mut v = identity_indices(n);
    let rng = SeededRng::from_seed(seed);
    shuffle_indices(&mut v, rng);
    proof {
        lemma_identity_multiset_is_permutation(v@, n as nat);
    }
    v
}

/// A sequence whose multiset is that of 0, 1, ..., n-1 holds each position
/// below n exactly once.
proof fn lemma_identity_multiset_is_permutation(s: Seq<usize>, n: nat)
    requires
        n <= usize::MAX,
        s.to_multiset() == index_seq(n).to_multiset(),
    ensures
        s.len() == n,
        forall|i: int| 0 <= i < s.len() ==> (#[trigger] s[i]) < n,
        s.no_duplicates(),
{
    broadcast use vstd::seq_lib::group_to_multiset_ensures;

    let ident = index_seq(n);
    assert(s.len() == n) by {
        assert(s.to_multiset().len() == s.len());
        assert(ident.to_multiset().len() == ident.len());
    }
    assert forall|i: int| 0 <= i < s.len() implies (#[trigger] s[i]) < n by {
        assert(s.contains(s[i]));
        assert(s.to_multiset().count(s[i]) > 0);
        assert(ident.contains(s[i]));
        let j = choose|j: int| 0 <= j < ident.len() && ident[j] == s[i];
        assert(s[i] == j as usize);
    }
    assert(ident.no_duplicates()) by {
        assert forall|i: int, j: int|
            0 <= i < ident.len() && 0 <= j < ident.len() && i != j implies ident[i]
            != ident[j] by {}
    }
    ident.lemma_multiset_has_no_duplicates();
    s.lemma_multiset_has_no_duplicates_conv();
}

} // verus!
