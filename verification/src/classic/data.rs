//! Colour permutations of the four colour channels.

use vstd::prelude::*;
use crate::data::{
    factorial, has_all_perms_with_prefix, is_permutation, lcg_next, lcg_shuffle,
    lemma_lcg_shuffle_multiset, lemma_swap_multiset, rows_view, sorted_perms_with_prefix, swap_at,
};

verus! {

/// A colour permutation: `perm[old_channel] = new_channel`.
pub type ColorPermutation = [usize; 4];

/// The rows of a table of permutations.
pub open spec fn table_rows(t: [ColorPermutation; 24]) -> Seq<Seq<usize>> {
    Seq::new(24, |k: int| t@[k]@)
}

/// The 24 permutations of the four colour channels, in lexicographic order;
/// the first is the identity.
pub fn all_color_permutations() -> (perms: [ColorPermutation; 24])
    ensures
        sorted_perms_with_prefix(table_rows(perms), 4, Seq::empty()),
        has_all_perms_with_prefix(table_rows(perms), 4, Seq::empty()),
{
    let v = crate::data::all_color_permutations(4);
    proof {
        reveal_with_fuel(factorial, 5);
        assert(factorial(4) == 24);
    }
    let mut perms = [[0usize; 4]; 24];
    let mut k: usize = 0;
    while k < 24
        invariant
            k <= 24,
            v@.len() == 24,
            sorted_perms_with_prefix(rows_view(v@), 4, Seq::empty()),
            forall|j: int| 0 <= j < k ==> (#[trigger] perms@[j])@ == v@[j]@,
        decreases 24 - k,
    {
        assert(rows_view(v@)[k as int] == v@[k as int]@);
        assert(is_permutation(rows_view(v@)[k as int], 4));
        let row = [v[k][0], v[k][1], v[k][2], v[k][3]];
        assert(row@ =~= v@[k as int]@);
        perms[k] = row;
        k += 1;
    }
    proof {
        assert(table_rows(perms) =~= rows_view(v@));
    }
    perms
}

/// Multiplier of the shuffle's linear congruential generator.
pub const LCG_MULTIPLIER: u64 = 6364136223846793005;

/// Increment of the shuffle's linear congruential generator.
pub const LCG_INCREMENT: u64 = 1;

/// Shuffle `indices` in place (Fisher-Yates) with a linear congruential
/// generator started at `seed + 42`: the same seed gives the same order, and
/// the entries stay the same.
pub fn shuffle_indices(indices: &mut Vec<usize>, seed: u64)
    requires
        seed <= u64::MAX - 42,
    ensures
        final(indices)@ == lcg_shuffle(old(indices)@, (seed + 42) as u64, old(indices)@.len() - 1),
        final(indices)@.to_multiset() == old(indices)@.to_multiset(),
{
    let ghost orig = indices@;
    let mut rng_state: u64 = seed + 42;
    let mut i: usize = indices.len();
    proof {
        lemma_lcg_shuffle_multiset(orig, (seed + 42) as u64, orig.len() - 1);
    }
    while i > 1
        invariant
            i <= indices@.len(),
            indices@.len() == orig.len(),
            lcg_shuffle(orig, (seed + 42) as u64, orig.len() - 1) == lcg_shuffle(
                indices@,
                rng_state,
                i - 1,
            ),
        decreases i,
    {
        i -= 1;
        let ghost prev = rng_state;
        let ghost before = indices@;
        rng_state = rng_state.wrapping_mul(LCG_MULTIPLIER).wrapping_add(LCG_INCREMENT);
        let r = rng_state >> 33;
        assert(r <= 0x7fff_ffff) by (bit_vector)
            requires
                r == rng_state >> 33,
        ;
        let j = (r as usize) % (i + 1);
        let a = indices[i];
        let b = indices[j];
        indices.set(i, b);
        indices.set(j, a);
        proof {
            assert(rng_state == lcg_next(prev));
            assert(j == (rng_state >> 33u64) as int % (i + 1));
            assert(indices@ =~= swap_at(before, i as int, j as int));
            assert(lcg_shuffle(before, prev, i as int) == lcg_shuffle(
                swap_at(before, i as int, j as int),
                rng_state,
                i - 1,
            ));
        }
    }
    proof {
        assert(lcg_shuffle(indices@, rng_state, i - 1) == indices@);
    }
}

} // verus!
