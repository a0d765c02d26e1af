//! Deterministic shuffles used to pick which gallery buttons are fetched.
//!
//! The order is a Fisher–Yates pass driven by a 64-bit linear congruential
//! generator; the seed is supplied by the caller.

use vstd::prelude::*;

verus! {

pub const LCG_MUL: u64 = 6364136223846793005;
pub const LCG_INC: u64 = 1442695040888963407;

/// One step of the generator (arithmetic modulo 2^64).
pub open spec fn lcg_next(s: u64) -> u64 {
    s.wrapping_mul(LCG_MUL).wrapping_add(LCG_INC)
}

/// The position swapped with position `i` once the generator holds `s`.
pub open spec fn lcg_pick(s: u64, i: nat) -> int {
    ((s >> 33u64) as int) % ((i + 1) as int)
}

/// Positions `i, i-1, ..., 1` of `order` processed by the shuffle, starting
/// from generator state `s`.
pub open spec fn fy_pass(order: Seq<usize>, s: u64, i: nat) -> Seq<usize>
    decreases i,
{
    if i == 0 {
        order
    } else {
        let s2 = lcg_next(s);
        let j = lcg_pick(s2, i);
        fy_pass(order.update(i as int, order[j]).update(j, order[i as int]), s2, (i - 1) as nat)
    }
}

/// The identity order `0, 1, ..., n-1`.
pub open spec fn identity_order(n: nat) -> Seq<usize> {
    Seq::new(n, |k: int| k as usize)
}

/// The shuffled order of `n` positions for a given seed.
pub open spec fn shuffled_order(n: nat, seed: u64) -> Seq<usize> {
    if n == 0 {
        Seq::empty()
    } else {
        fy_pass(identity_order(n), seed, (n - 1) as nat)
    }
}

/// `s` holds each of `0..n` exactly once.
pub open spec fn is_permutation(s: Seq<usize>, n: nat) -> bool {
    &&& s.len() == n
    &&& forall|k: int| 0 <= k < s.len() ==> #[trigger] s[k] < n
    &&& forall|a: int, b: int| 0 <= a < b < s.len() ==> s[a] != s[b]
}

proof fn lemma_pick_bounds(s: u64, i: nat)
    ensures
        0 <= lcg_pick(s, i) <= i,
{
}

/// Swapping two positions of a permutation gives a permutation.
pub proof fn lemma_swap_keeps_permutation(order: Seq<usize>, n: nat, i: int, j: int)
    requires
        is_permutation(order, n),
        0 <= i < order.len(),
        0 <= j < order.len(),
    ensures
        is_permutation(order.update(i, order[j]).update(j, order[i]), n),
{
    let r = order.update(i, order[j]).update(j, order[i]);
    assert forall|a: int, b: int| 0 <= a < b < r.len() implies r[a] != r[b] by {
        let oa = if a == j { i } else if a == i { j } else { a };
        let ob = if b == j { i } else if b == i { j } else { b };
        assert(r[a] == order[oa]);
        assert(r[b] == order[ob]);
        assert(oa != ob);
    }
}

/// The shuffle pass keeps a permutation a permutation.
proof fn lemma_fy_pass_permutation(order: Seq<usize>, n: nat, s: u64, i: nat)
    requires
        is_permutation(order, n),
        i < n,
    ensures
        is_permutation(fy_pass(order, s, i), n),
    decreases i,
{
    if i > 0 {
        let s2 = lcg_next(s);
        let j = lcg_pick(s2, i);
        lemma_pick_bounds(s2, i);
        lemma_swap_keeps_permutation(order, n, i as int, j);
        lemma_fy_pass_permutation(
            order.update(i as int, order[j]).update(j, order[i as int]),
            n,
            s2,
            (i - 1) as nat,
        );
    }
}

/// Law: for every length and seed, the shuffled order is a permutation of
/// `0..n` — every index occurs, none twice.
pub proof fn lemma_shuffled_order_is_permutation(n: nat, seed: u64)
    requires
        n <= usize::MAX,
    ensures
        is_permutation(shuffled_order(n, seed), n),
{
    if n > 0 {
        let id = identity_order(n);
        assert forall|k: int| 0 <= k < id.len() implies #[trigger] id[k] == k by {
            assert(k <= usize::MAX);
        }
        assert(is_permutation(id, n));
        lemma_fy_pass_permutation(id, n, seed, (n - 1) as nat);
    }
}

/// Shuffles the indices `0..n` with the generator seeded by `seed`.
pub fn shuffle_indices(n: usize, seed: u64) -> (r: Vec<usize>)
    ensures
        r@ == shuffled_order(n as nat, seed),
        is_permutation(r@, n as nat),
{
    proof {
        lemma_shuffled_order_is_permutation(n as nat, seed);
    }
    let mut indices: Vec<usize> = Vec::new();
    let mut k: usize = 0;
    while k < n
        invariant
            k <= n,
            indices@ == identity_order(k as nat),
        decreases n - k,
    {
        indices.push(k);
        k = k + 1;
        assert(indices@ =~= identity_order(k as nat));
    }
    if n == 0 {
        return indices;
    }
    let ghost target = shuffled_order(n as nat, seed);
    let mut s: u64 = seed;
    let mut i: usize = n - 1;
    while i > 0
        invariant
            i < n,
            indices@.len() == n,
            fy_pass(indices@, s, i as nat) == target,
        decreases i,
    {
        s = s.wrapping_mul(LCG_MUL).wrapping_add(LCG_INC);
        let j: usize = ((s >> 33u64) as usize) % (i + 1);
        proof {
            assert((s >> 33u64) as usize as int == (s >> 33u64) as int) by (bit_vector);
        }
        let vi = indices[i];
        let vj = indices[j];
        indices.set(i, vj);
        indices.set(j, vi);
        i = i - 1;
    }
    indices
}

} // verus!
