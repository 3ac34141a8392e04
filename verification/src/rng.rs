use vstd::prelude::*;
use rand::RngExt;
use rand::seq::IndexedRandom;

verus! {

/// Sum of a sequence of weights, as an unbounded integer.
pub open spec fn u64_sum(s: Seq<u64>) -> int
    decreases s.len(),
{
    if s.len() == 0 {
        0
    } else {
        u64_sum(s.drop_last()) + s.last()
    }
}

/// A sequence of weights each below `m` sums to at most `len * m`.
pub proof fn lemma_u64_sum_bound(s: Seq<u64>, m: int)
    requires
        forall|i: int| 0 <= i < s.len() ==> #[trigger] s[i] <= m,
        m >= 0,
    ensures
        0 <= u64_sum(s) <= s.len() * m,
    decreases s.len(),
{
    if s.len() == 0 {
    } else {
        lemma_u64_sum_bound(s.drop_last(), m);
        assert((s.len() - 1) * m + m == s.len() * m) by (nonlinear_arith);
    }
}

/// Relies on `rand::Rng::random_range` over `0..n`: the result is drawn
/// from that half-open range. This is the library's single source of
/// randomness.
#[verifier::external_body]
pub fn rand_below(n: u64) -> (r: u64)
    requires
        n > 0,
    ensures
        r < n,
{
    rand::rng().random_range(0..n)
}

/// Relies on `rand::seq::IndexedRandom::choose_weighted`, which draws a
/// slice element with probability proportional to its weight and never
/// returns a zero-weighted one; it fails only on an empty slice, a zero
/// total or a total overflowing `u64`, which the precondition rules out.
/// Each pair carries its own position, so the chosen position comes back.
#[verifier::external_body]
fn choose_weighted_raw(pairs: &Vec<(usize, u64)>) -> (r: usize)
    requires
        pairs@.len() > 0,
        forall|i: int| 0 <= i < pairs@.len() ==> (#[trigger] pairs@[i]).0 == i,
        u64_sum(pairs@.map_values(|p: (usize, u64)| p.1)) <= u64::MAX,
        exists|i: int| 0 <= i < pairs@.len() && #[trigger] pairs@[i].1 > 0,
    ensures
        r < pairs@.len(),
        pairs@[r as int].1 > 0,
{
    pairs.choose_weighted(&mut rand::rng(), |item| item.1).unwrap().0
}

/// Draws an index of `weights`, with probability proportional to its
/// weight; an index of weight zero is never drawn.
pub fn pick_weighted(weights: &Vec<u64>) -> (r: usize)
    requires
        weights@.len() > 0,
        u64_sum(weights@) <= u64::MAX,
        exists|i: int| 0 <= i < weights@.len() && #[trigger] weights@[i] > 0,
    ensures
        r < weights@.len(),
        weights@[r as int] > 0,
{
    let n = weights.len();
    let mut pairs: Vec<(usize, u64)> = Vec::new();
    let mut i: usize = 0;
    while i < n
        invariant
            n == weights@.len(),
            i <= n,
            pairs@.len() == i,
            forall|j: int| 0 <= j < i ==> (#[trigger] pairs@[j]) == (j as usize, weights@[j]),
        decreases n - i,
    {
        pairs.push((i, weights[i]));
        i += 1;
    }
    proof {
        assert(pairs@.map_values(|p: (usize, u64)| p.1) =~= weights@);
        let w = choose|i: int| 0 <= i < weights@.len() && #[trigger] weights@[i] > 0;
        assert(pairs@[w].1 > 0);
    }
    let idx = choose_weighted_raw(&pairs);
    idx
}

} // verus!
