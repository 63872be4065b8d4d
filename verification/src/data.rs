//! Colour permutations, used to augment training data: every reordering of
//! the colour channels.

use vstd::prelude::*;
use crate::groups::{count_false, lemma_count_false_update};
use crate::hash_util::{spec_splitmix64, time_seed};

verus! {

/// A colour permutation: `perm[old_channel] = new_channel`.
pub type ColorPermutation = Vec<usize>;

/// `n!`.
pub open spec fn factorial(n: nat) -> nat
    decreases n,
{
    if n == 0 {
        1
    } else {
        n * factorial((n - 1) as nat)
    }
}

/// `p` is a permutation of `0..n`: `n` distinct values, each below `n`.
pub open spec fn is_permutation(p: Seq<usize>, n: int) -> bool {
    &&& p.len() == n
    &&& forall|i: int| 0 <= i < n ==> #[trigger] p[i] < n
    &&& forall|i: int, j: int| 0 <= i < j < n ==> p[i] != p[j]
}

/// `a` and `b` agree before position `k` and `a[k] < b[k]`.
pub open spec fn lex_less_at(a: Seq<usize>, b: Seq<usize>, k: int) -> bool {
    &&& 0 <= k < a.len()
    &&& k < b.len()
    &&& a.take(k) == b.take(k)
    &&& a[k] < b[k]
}

/// `a` comes strictly before `b` in lexicographic order.
pub open spec fn lex_less(a: Seq<usize>, b: Seq<usize>) -> bool {
    exists|k: int| #[trigger] lex_less_at(a, b, k)
}

/// The rows of a list of vectors.
pub open spec fn rows_view(r: Seq<Vec<usize>>) -> Seq<Seq<usize>> {
    r.map_values(|v: Vec<usize>| v@)
}

/// `block` lists permutations of `0..n` that start with `prefix`, in strictly
/// increasing lexicographic order.
pub open spec fn sorted_perms_with_prefix(block: Seq<Seq<usize>>, n: int, prefix: Seq<usize>) -> bool {
    &&& forall|k: int|
        0 <= k < block.len() ==> is_permutation(#[trigger] block[k], n) && block[k].take(
            prefix.len() as int,
        ) == prefix
    &&& forall|a: int, b: int| 0 <= a < b < block.len() ==> lex_less(block[a], block[b])
}

/// `block` holds every permutation of `0..n` that starts with `prefix`.
pub open spec fn has_all_perms_with_prefix(block: Seq<Seq<usize>>, n: int, prefix: Seq<usize>) -> bool {
    forall|p: Seq<usize>|
        #![trigger is_permutation(p, n), p.take(prefix.len() as int)]
        is_permutation(p, n) && p.take(prefix.len() as int) == prefix ==> block.contains(p)
}

/// The first `depth` entries of `cur` are distinct values below `n`, and
/// `used` marks exactly those values.
pub open spec fn prefix_ok(cur: Seq<usize>, used: Seq<bool>, depth: int, n: int) -> bool {
    &&& 0 <= depth <= n
    &&& cur.len() == n
    &&& used.len() == n
    &&& forall|t: int| 0 <= t < depth ==> #[trigger] cur[t] < n
    &&& forall|t1: int, t2: int| 0 <= t1 < t2 < depth ==> cur[t1] != cur[t2]
    &&& forall|j: int| 0 <= j < n ==> (#[trigger] used[j] <==> cur.take(depth).contains(j as usize))
    &&& count_false(used) + depth == n
}

proof fn lemma_count_false_all(n: nat)
    ensures
        count_false(Seq::new(n, |i: int| false)) == n,
    decreases n,
{
    if n > 0 {
        assert(Seq::new(n, |i: int| false).drop_last() =~= Seq::new((n - 1) as nat, |i: int| false));
        lemma_count_false_all((n - 1) as nat);
    }
}

proof fn lemma_count_false_take_step(s: Seq<bool>, i: int)
    requires
        0 <= i < s.len(),
    ensures
        count_false(s.take(i + 1)) == count_false(s.take(i)) + if s[i] {
            0nat
        } else {
            1nat
        },
{
    assert(s.take(i + 1).drop_last() =~= s.take(i));
}

/// Append to `result` every permutation of `0..num_colors` that starts with
/// `current[..depth]`, in lexicographic order.  `used` marks the values of
/// that prefix.
fn generate_perms(
    result: &mut Vec<Vec<usize>>,
    current: &mut Vec<usize>,
    used: &mut Vec<bool>,
    depth: usize,
    num_colors: usize,
)
    requires
        prefix_ok(old(current)@, old(used)@, depth as int, num_colors as int),
    ensures
        final(current)@.len() == num_colors,
        final(current)@.take(depth as int) == old(current)@.take(depth as int),
        final(used)@ == old(used)@,
        final(result)@.len() == old(result)@.len() + factorial((num_colors - depth) as nat),
        final(result)@.take(old(result)@.len() as int) == old(result)@,
        sorted_perms_with_prefix(
            rows_view(final(result)@).skip(old(result)@.len() as int),
            num_colors as int,
            old(current)@.take(depth as int),
        ),
        has_all_perms_with_prefix(
            rows_view(final(result)@).skip(old(result)@.len() as int),
            num_colors as int,
            old(current)@.take(depth as int),
        ),
    decreases num_colors - depth,
{
    let ghost r0 = result@;
    let ghost cur0 = current@;
    let ghost used0 = used@;
    let ghost n = num_colors as int;
    let ghost d = depth as int;
    let ghost prefix = cur0.take(d);
    if depth == num_colors {
        let row = current.clone();
        assert(row@ =~= cur0);
        result.push(row);
        proof {
            let block = rows_view(result@).skip(r0.len() as int);
            assert(block =~= seq![cur0]);
            assert(cur0.take(d) =~= cur0);
            assert(is_permutation(cur0, n));
            assert(result@.take(r0.len() as int) =~= r0);
            assert forall|p: Seq<usize>|
                is_permutation(p, n) && p.take(prefix.len() as int) == prefix implies block.contains(
                p,
            ) by {
                assert(p =~= p.take(n));
                assert(block[0] == p);
            }
        }
        return;
    }
    let mut i: usize = 0;
    proof {
        let f = factorial((n - d - 1) as nat);
        assert(used0.take(0) =~= Seq::<bool>::empty());
        assert(0 * f == 0) by (nonlinear_arith);
        assert(result@.take(r0.len() as int) =~= r0);
        assert(rows_view(result@).skip(r0.len() as int) =~= Seq::<Seq<usize>>::empty());
    }
    while i < num_colors
        invariant
            prefix_ok(cur0, used0, d, n),
            d < n,
            d == depth,
            n == num_colors,
            prefix == cur0.take(d),
            i <= num_colors,
            current@.len() == n,
            current@.take(d) == prefix,
            used@ == used0,
            result@.len() == r0.len() + count_false(used0.take(i as int)) * factorial(
                (n - d - 1) as nat,
            ),
            result@.take(r0.len() as int) == r0,
            sorted_perms_with_prefix(rows_view(result@).skip(r0.len() as int), n, prefix),
            forall|k: int|
                0 <= k < rows_view(result@).skip(r0.len() as int).len() ==> (#[trigger] rows_view(
                    result@,
                ).skip(r0.len() as int)[k])[d] < i,
            forall|p: Seq<usize>|
                #![trigger is_permutation(p, n), p.take(d)]
                is_permutation(p, n) && p.take(d) == prefix && p[d] < i ==> rows_view(result@).skip(
                    r0.len() as int,
                ).contains(p),
        decreases num_colors - i,
    {
        let ghost before = result@;
        let ghost old_block = rows_view(before).skip(r0.len() as int);
        proof {
            lemma_count_false_take_step(used0, i as int);
        }
        if !used[i] {
            let ghost cur_before = current@;
            proof {
                lemma_count_false_update(used0, i as int);
            }
            used.set(i, true);
            current.set(depth, i);
            let ghost new_prefix = current@.take(d + 1);
            proof {
                assert(current@.take(d) =~= cur_before.take(d));
                assert(new_prefix =~= prefix.push(i));
                assert(!prefix.contains(i));
                assert forall|t1: int, t2: int| 0 <= t1 < t2 < d + 1 implies current@[t1]
                    != current@[t2] by {
                    if t2 == d {
                        assert(prefix[t1] == current@[t1]);
                        assert(prefix.contains(current@[t1]));
                    } else {
                        assert(prefix[t1] == current@[t1]);
                        assert(prefix[t2] == current@[t2]);
                    }
                }
                assert forall|t: int| 0 <= t < d + 1 implies #[trigger] current@[t] < n by {
                    if t < d {
                        assert(prefix[t] == current@[t]);
                    }
                }
                assert forall|j: int| 0 <= j < n implies (#[trigger] used@[j] <==> current@.take(
                    d + 1,
                ).contains(j as usize)) by {
                    if j == i {
                        assert(new_prefix[d] == i);
                    } else {
                        assert(used@[j] == used0[j]);
                        if prefix.contains(j as usize) {
                            let t = choose|t: int| 0 <= t < prefix.len() && prefix[t] == j as usize;
                            assert(new_prefix[t] == j as usize);
                        }
                        if new_prefix.contains(j as usize) {
                            let t = choose|t: int|
                                0 <= t < new_prefix.len() && new_prefix[t] == j as usize;
                            assert(t < d);
                            assert(prefix[t] == j as usize);
                        }
                    }
                }
            }
            generate_perms(result, current, used, depth + 1, num_colors);
            used.set(i, false);
            proof {
                assert(used@ =~= used0);
                let sub = rows_view(result@).skip(before.len() as int);
                let all = rows_view(result@).skip(r0.len() as int);
                let f = factorial((n - d - 1) as nat);
                let c = count_false(used0.take(i as int));
                assert(count_false(used0.take(i + 1)) == c + 1);
                assert((c + 1) * f == c * f + f) by (nonlinear_arith);
                assert(result@.take(r0.len() as int) =~= r0) by {
                    assert(result@.take(before.len() as int) == before);
                    assert forall|k: int| 0 <= k < r0.len() implies result@[k] == r0[k] by {
                        assert(result@.take(before.len() as int)[k] == before[k]);
                        assert(before.take(r0.len() as int)[k] == r0[k]);
                    }
                }
                assert(current@.take(d) =~= current@.take(d + 1).take(d));
                assert(new_prefix.take(d) =~= prefix);
                // The combined block is the old block followed by `sub`.
                assert forall|k: int| 0 <= k < old_block.len() implies all[k] == old_block[k] by {
                    assert(result@.take(before.len() as int)[r0.len() + k] == before[r0.len() + k]);
                }
                assert forall|k: int| 0 <= k < sub.len() implies all[old_block.len() + k]
                    == sub[k] by {}
                assert(all.len() == old_block.len() + sub.len());
                assert forall|k: int| 0 <= k < sub.len() implies (#[trigger] sub[k])[d] == i
                    && sub[k].take(d) == prefix by {
                    assert(sub[k].take(d + 1) == new_prefix);
                    assert(sub[k].take(d + 1)[d] == sub[k][d]);
                    assert(sub[k].take(d) =~= sub[k].take(d + 1).take(d));
                }
                assert forall|k: int| 0 <= k < all.len() implies is_permutation(#[trigger] all[k], n)
                    && all[k].take(prefix.len() as int) == prefix && all[k][d] < i + 1 by {
                    if k >= old_block.len() {
                        assert(all[k] == sub[k - old_block.len()]);
                    }
                }
                assert forall|a: int, b: int| 0 <= a < b < all.len() implies lex_less(
                    all[a],
                    all[b],
                ) by {
                    if b < old_block.len() {
                        assert(lex_less(old_block[a], old_block[b]));
                    } else if a >= old_block.len() {
                        assert(lex_less(sub[a - old_block.len()], sub[b - old_block.len()]));
                    } else {
                        let x = all[a];
                        let y = all[b];
                        assert(x == old_block[a]);
                        assert(y == sub[b - old_block.len()]);
                        assert(x[d] < i);
                        assert(y[d] == i);
                        assert(lex_less_at(x, y, d));
                    }
                }
                assert forall|p: Seq<usize>|
                    is_permutation(p, n) && p.take(d) == prefix && p[d] < i + 1 implies all.contains(
                    p,
                ) by {
                    if p[d] < i {
                        let k = choose|k: int| 0 <= k < old_block.len() && old_block[k] == p;
                        assert(all[k] == p);
                    } else {
                        assert(p.take(d + 1) =~= prefix.push(i));
                        assert(is_permutation(p, n) && p.take(d + 1) == new_prefix);
                        let k = choose|k: int| 0 <= k < sub.len() && sub[k] == p;
                        assert(all[old_block.len() + k] == p);
                    }
                }
            }
        } else {
            proof {
                assert forall|p: Seq<usize>|
                    is_permutation(p, n) && p.take(d) == prefix && p[d] < i + 1 implies rows_view(
                    result@,
                ).skip(r0.len() as int).contains(p) by {
                    if p[d] == i {
                        assert(prefix.contains(i));
                        let t = choose|t: int| 0 <= t < prefix.len() && prefix[t] == i;
                        assert(p.take(d)[t] == p[t]);
                        assert(false);
                    }
                }
            }
        }
        i += 1;
    }
    proof {
        assert(used0.take(n) =~= used0);
        let f = factorial((n - d - 1) as nat);
        assert(factorial((n - d) as nat) == (n - d) * f);
        assert forall|p: Seq<usize>|
            is_permutation(p, n) && p.take(prefix.len() as int) == prefix implies rows_view(
            result@,
        ).skip(r0.len() as int).contains(p) by {
            assert(p[d] < n);
        }
    }
}

/// Every permutation of `0..num_colors` (`num_colors!` of them), in
/// lexicographic order; the first is the identity.
pub fn all_color_permutations(num_colors: usize) -> (perms: Vec<Vec<usize>>)
    ensures
        perms@.len() == factorial(num_colors as nat),
        sorted_perms_with_prefix(rows_view(perms@), num_colors as int, Seq::empty()),
        has_all_perms_with_prefix(rows_view(perms@), num_colors as int, Seq::empty()),
{
    let mut result: Vec<Vec<usize>> = Vec::new();
    let mut current: Vec<usize> = vec![0usize; num_colors];
    let mut used: Vec<bool> = vec![false; num_colors];
    proof {
        lemma_count_false_all(num_colors as nat);
        assert(used@ =~= Seq::new(num_colors as nat, |i: int| false));
        assert forall|j: int| 0 <= j < num_colors implies (#[trigger] used@[j] <==> current@.take(
            0,
        ).contains(j as usize)) by {}
    }
    generate_perms(&mut result, &mut current, &mut used, 0, num_colors);
    proof {
        assert(rows_view(result@).skip(0) =~= rows_view(result@));
        assert(current@.take(0) =~= Seq::<usize>::empty());
    }
    result
}

/// `s` with the entries at `i` and `j` exchanged.
pub open spec fn swap_at(s: Seq<usize>, i: int, j: int) -> Seq<usize> {
    s.update(i, s[j]).update(j, s[i])
}

/// Exchanging two entries keeps the same entries.
pub proof fn lemma_swap_multiset(s: Seq<usize>, i: int, j: int)
    requires
        0 <= i < s.len(),
        0 <= j < s.len(),
    ensures
        swap_at(s, i, j).to_multiset() == s.to_multiset(),
        swap_at(s, i, j).len() == s.len(),
{
    broadcast use {
        vstd::seq_lib::to_multiset_update,
        vstd::multiset::group_multiset_axioms,
        vstd::multiset::group_multiset_properties,
    };

    let s1 = s.update(i, s[j]);
    if i == j {
        assert(swap_at(s, i, j) =~= s);
    } else {
        assert(s1[j] == s[j]);
        assert(s1.to_multiset() == s.to_multiset().insert(s[j]).remove(s[i]));
        assert(swap_at(s, i, j).to_multiset() == s1.to_multiset().insert(s[i]).remove(s[j]));
        assert(s.to_multiset().count(s[i]) > 0) by {
            assert(s.contains(s[i]));
            vstd::seq_lib::to_multiset_contains(s, s[i]);
        }
        assert(swap_at(s, i, j).to_multiset() =~= s.to_multiset());
    }
}

/// The swap position drawn for position `i` from a seed: the seed's top
/// bits, modulo `i + 1`.
pub open spec fn seed_draw(seed: u64, i: int) -> int {
    ((seed >> 33u64) as usize) as int % (i + 1)
}

/// Fisher-Yates driven by `seeds`, one per step: step `k` (from 0) exchanges
/// position `len - 1 - k` with the position drawn from `seeds[k]`.
pub open spec fn seeded_shuffle(s: Seq<usize>, seeds: Seq<u64>) -> Seq<usize>
    decreases seeds.len(),
{
    if seeds.len() == 0 {
        s
    } else {
        let prev = seeded_shuffle(s, seeds.drop_last());
        let i = s.len() - seeds.len();
        swap_at(prev, i, seed_draw(seeds.last(), i))
    }
}

/// Number of Fisher-Yates steps on `n` entries: positions `n - 1` down to 1.
pub open spec fn shuffle_steps(n: int) -> int {
    if n > 1 {
        n - 1
    } else {
        0
    }
}

/// Shuffle `indices` in place (Fisher-Yates) with one seed per step: for
/// positions from the last down to 1, the entry is exchanged with the one at
/// the position drawn from that step's seed.
pub fn shuffle_with_seeds(indices: &mut [usize], seeds: &[u64])
    requires
        seeds@.len() == shuffle_steps(old(indices)@.len() as int),
    ensures
        final(indices)@ == seeded_shuffle(old(indices)@, seeds@),
        final(indices)@.to_multiset() == old(indices)@.to_multiset(),
{
    let ghost orig = indices@;
    let mut i: usize = indices.len();
    let mut k: usize = 0;
    while i > 1
        invariant
            i <= indices@.len(),
            indices@.len() == orig.len(),
            indices@.to_multiset() == orig.to_multiset(),
            seeds@.len() == shuffle_steps(orig.len() as int),
            orig.len() > 1 ==> k + i == orig.len() && i >= 1,
            orig.len() <= 1 ==> k == 0,
            indices@ == seeded_shuffle(orig, seeds@.take(k as int)),
        decreases i,
    {
        i -= 1;
        let j = ((seeds[k] >> 33) as usize) % (i + 1);
        let a = indices[i];
        let b = indices[j];
        let ghost before = indices@;
        indices[i] = b;
        indices[j] = a;
        proof {
            lemma_swap_multiset(before, i as int, j as int);
            assert(indices@ =~= swap_at(before, i as int, j as int));
            let t2 = seeds@.take(k + 1);
            assert(t2.drop_last() =~= seeds@.take(k as int));
            assert(j as int == seed_draw(seeds@[k as int], i as int));
            assert(seeded_shuffle(orig, t2) == swap_at(before, i as int, j as int));
        }
        k += 1;
    }
    assert(seeds@.take(k as int) =~= seeds@);
}

/// Shuffle `indices` in place (Fisher-Yates), drawing one seed per step
/// from the clock; the swaps are those of `shuffle_with_seeds` on the seeds
/// drawn. Whatever the readings, the entries stay the same.
pub fn shuffle_indices(indices: &mut [usize])
    ensures
        exists|seeds: Seq<u64>|
            seeds.len() == shuffle_steps(old(indices)@.len() as int) && final(indices)@
                == #[trigger] seeded_shuffle(old(indices)@, seeds),
        final(indices)@.to_multiset() == old(indices)@.to_multiset(),
{
    let n = indices.len();
    let mut seeds: Vec<u64> = Vec::new();
    let mut k: usize = 1;
    while k < n
        invariant
            n == indices@.len(),
            indices@ == old(indices)@,
            1 <= k,
            n >= 1 ==> k <= n,
            n == 0 ==> k == 1,
            seeds@.len() == k - 1,
        decreases n - k,
    {
        seeds.push(time_seed());
        k += 1;
    }
    let ghost s = seeds@;
    assert(s.len() == shuffle_steps(n as int));
    shuffle_with_seeds(indices, seeds.as_slice());
    assert(seeded_shuffle(old(indices)@, s) == final(indices)@);
}

/// One step of the linear congruential generator used to shuffle samples.
pub open spec fn lcg_next(x: u64) -> u64 {
    x.wrapping_mul(6364136223846793005u64).wrapping_add(1u64)
}

/// Fisher-Yates over positions `i` down to 1, with generator state `x`
/// before position `i`: position `i` is exchanged with position
/// `(next >> 33) % (i + 1)`, `next` being the generator's next state.
pub open spec fn lcg_shuffle(s: Seq<usize>, x: u64, i: int) -> Seq<usize>
    decreases i,
{
    if i < 1 {
        s
    } else {
        let x2 = lcg_next(x);
        let j = (x2 >> 33u64) as int % (i + 1);
        lcg_shuffle(swap_at(s, i, j), x2, i - 1)
    }
}

/// Shuffling keeps the entries.
pub proof fn lemma_lcg_shuffle_multiset(s: Seq<usize>, x: u64, i: int)
    requires
        i < s.len(),
    ensures
        lcg_shuffle(s, x, i).to_multiset() == s.to_multiset(),
        lcg_shuffle(s, x, i).len() == s.len(),
    decreases i,
{
    if i >= 1 {
        let x2 = lcg_next(x);
        let j = (x2 >> 33u64) as int % (i + 1);
        lemma_swap_multiset(s, i, j);
        lemma_lcg_shuffle_multiset(swap_at(s, i, j), x2, i - 1);
    }
}

} // verus!
