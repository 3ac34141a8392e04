use vstd::prelude::*;
use crate::environment::{Action, State};
use crate::fixed::{Fixed, FX_SCALE, fx_add_sp, fx_mul_sp, fx_sub_sp, fx_tdiv, sp_abs};
use crate::rng::rand_below;
use crate::table::{Table, pair_key, pair_key_sp};
use vstd::arithmetic::div_mod::{lemma_fundamental_div_mod, lemma_div_multiples_vanish};

verus! {

/// Safety cap on the steps of one training episode, so that a rollout
/// against an environment that never terminates still ends.
pub const MAX_EPISODE_STEPS: usize = 100_000;

/// One recorded transition of an episode rollout.
#[derive(Clone, Copy, Debug)]
pub struct EpisodeStep {
    pub state: State,
    pub action: Action,
    pub reward: Fixed,
}

/// The state half of a packed (state, action) key.
pub open spec fn key_state(k: u64) -> int {
    k as int / 0x1_0000_0000
}

/// The action half of a packed (state, action) key.
pub open spec fn key_action(k: u64) -> int {
    k as int % 0x1_0000_0000
}

pub proof fn lemma_key_parts(s: int, a: int)
    requires
        0 <= s < 0x1_0000_0000,
        0 <= a < 0x1_0000_0000,
    ensures
        key_state(pair_key_sp(s, a) as u64) == s,
        key_action(pair_key_sp(s, a) as u64) == a,
        0 <= pair_key_sp(s, a) < 0x1_0000_0000_0000_0000_0000,
{
    assert(0 <= s * 0x1_0000_0000 + a && (s * 0x1_0000_0000 + a) / 0x1_0000_0000 == s && (s
        * 0x1_0000_0000 + a) % 0x1_0000_0000 == a) by (nonlinear_arith)
        requires 0 <= s < 0x1_0000_0000 && 0 <= a < 0x1_0000_0000;
}

pub proof fn lemma_key_recombine(k: u64)
    ensures
        key_state(k) * 0x1_0000_0000 + key_action(k) == k as int,
        0 <= key_state(k) < 0x1_0000_0000,
        0 <= key_action(k) < 0x1_0000_0000,
        pair_key_sp(key_state(k), key_action(k)) == k as int,
{
    lemma_fundamental_div_mod(k as int, 0x1_0000_0000);
    assert(key_state(k) < 0x1_0000_0000) by (nonlinear_arith)
        requires k as int == 0x1_0000_0000 * key_state(k) + key_action(k)
            && 0 <= key_action(k) && k <= 0xFFFF_FFFF_FFFF_FFFFu64;
}

/// The Q-estimate of a pair, with the lazy default of 0 for a pair
/// never touched.
pub open spec fn qv_sp(q: Table<Fixed>, s: int, a: int) -> int {
    let k = pair_key_sp(s, a) as u64;
    if q.contains_sp(k) {
        q.val_of(k).v as int
    } else {
        0
    }
}

/// Reads the Q-estimate of a pair (0 where the pair is untouched).
pub fn q_lookup(q: &Table<Fixed>, s: State, a: Action) -> (r: Fixed)
    requires
        q.wf(),
        s < 0x1_0000_0000,
        a < 0x1_0000_0000,
    ensures
        r.v as int == qv_sp(*q, s as int, a as int),
{
    let k = pair_key(s, a);
    q.get_or(k, Fixed { v: 0 })
}

/// The largest Q-estimate reachable through the listed actions.
pub open spec fn max_q_sp(q: Table<Fixed>, s: int, actions: Seq<Action>) -> int
    decreases actions.len(),
{
    if actions.len() == 0 {
        0
    } else if actions.len() == 1 {
        qv_sp(q, s, actions[0] as int)
    } else {
        let rest = max_q_sp(q, s, actions.drop_last());
        let lastv = qv_sp(q, s, actions.last() as int);
        if lastv > rest {
            lastv
        } else {
            rest
        }
    }
}

/// The largest Q-estimate among the given actions in the given state.
pub fn max_q_value(q: &Table<Fixed>, state: State, actions: &Vec<Action>) -> (r: Fixed)
    requires
        q.wf(),
        state < 0x1_0000_0000,
        actions@.len() > 0,
        forall|i: int| 0 <= i < actions@.len() ==> (#[trigger] actions@[i]) < 0x1_0000_0000,
    ensures
        r.v as int == max_q_sp(*q, state as int, actions@),
{
    let n = actions.len();
    let mut best = q_lookup(q, state, actions[0]);
    proof {
        assert(actions@.take(1) =~= seq![actions@[0]]);
    }
    let mut i: usize = 1;
    while i < n
        invariant
            n == actions@.len(),
            1 <= i <= n,
            q.wf(),
            state < 0x1_0000_0000,
            forall|j: int| 0 <= j < actions@.len() ==> (#[trigger] actions@[j]) < 0x1_0000_0000,
            best.v as int == max_q_sp(*q, state as int, actions@.take(i as int)),
        decreases n - i,
    {
        let v = q_lookup(q, state, actions[i]);
        proof {
            assert(actions@.take(i + 1).drop_last() =~= actions@.take(i as int));
            assert(actions@.take(i + 1).last() == actions@[i as int]);
        }
        if v.v > best.v {
            best = v;
        }
        i += 1;
    }
    proof {
        assert(actions@.take(n as int) =~= actions@);
    }
    best
}

/// An action of the list whose Q-estimate is the largest one.
pub fn greedy_action(q: &Table<Fixed>, state: State, actions: &Vec<Action>) -> (r: Action)
    requires
        q.wf(),
        state < 0x1_0000_0000,
        actions@.len() > 0,
        forall|i: int| 0 <= i < actions@.len() ==> (#[trigger] actions@[i]) < 0x1_0000_0000,
    ensures
        exists|i: int| 0 <= i < actions@.len() && (#[trigger] actions@[i]) == r,
        qv_sp(*q, state as int, r as int) == max_q_sp(*q, state as int, actions@),
{
    let n = actions.len();
    let mut best_a = actions[0];
    let mut best = q_lookup(q, state, actions[0]);
    proof {
        assert(actions@.take(1) =~= seq![actions@[0]]);
    }
    let mut i: usize = 1;
    while i < n
        invariant
            n == actions@.len(),
            1 <= i <= n,
            q.wf(),
            state < 0x1_0000_0000,
            forall|j: int| 0 <= j < actions@.len() ==> (#[trigger] actions@[j]) < 0x1_0000_0000,
            best.v as int == max_q_sp(*q, state as int, actions@.take(i as int)),
            exists|j: int| 0 <= j < i && (#[trigger] actions@[j]) == best_a,
            qv_sp(*q, state as int, best_a as int) == best.v as int,
        decreases n - i,
    {
        let v = q_lookup(q, state, actions[i]);
        proof {
            assert(actions@.take(i + 1).drop_last() =~= actions@.take(i as int));
            assert(actions@.take(i + 1).last() == actions@[i as int]);
        }
        if v.v > best.v {
            best = v;
            best_a = actions[i];
        }
        i += 1;
    }
    proof {
        assert(actions@.take(n as int) =~= actions@);
    }
    best_a
}

/// With probability `epsilon`, a uniformly random action of the list;
/// otherwise one with the largest Q-estimate.
pub fn epsilon_greedy(q: &Table<Fixed>, state: State, actions: &Vec<Action>, epsilon: Fixed) -> (r:
    Action)
    requires
        q.wf(),
        state < 0x1_0000_0000,
        actions@.len() > 0,
        forall|i: int| 0 <= i < actions@.len() ==> (#[trigger] actions@[i]) < 0x1_0000_0000,
        0 <= epsilon.v <= FX_SCALE,
    ensures
        exists|i: int| 0 <= i < actions@.len() && (#[trigger] actions@[i]) == r,
{
    let draw = rand_below(FX_SCALE as u64);
    if epsilon.v > 0 && draw < epsilon.v as u64 {
        let k = rand_below(actions.len() as u64) as usize;
        actions[k]
    } else {
        greedy_action(q, state, actions)
    }
}

/// The temporal-difference update
/// `q + alpha * (reward + gamma * max_next - q)`.
pub open spec fn q_update_sp(q: int, alpha: int, gamma: int, reward: int, max_next: int) -> int {
    fx_add_sp(q, fx_mul_sp(alpha, fx_add_sp(reward, fx_sub_sp(fx_mul_sp(gamma, max_next), q))))
}

/// One temporal-difference update of a Q-estimate.
pub fn q_update(q: Fixed, alpha: Fixed, gamma: Fixed, reward: Fixed, max_next: Fixed) -> (r: Fixed)
    ensures
        r.v as int == q_update_sp(
            q.v as int,
            alpha.v as int,
            gamma.v as int,
            reward.v as int,
            max_next.v as int,
        ),
{
    q.add(alpha.mul(reward.add(gamma.mul(max_next).sub(q))))
}

/// Saturating sum of a list of scalars, left to right.
pub open spec fn fx_sum(s: Seq<Fixed>) -> int
    decreases s.len(),
{
    if s.len() == 0 {
        0
    } else {
        fx_add_sp(fx_sum(s.drop_last()), s.last().v as int)
    }
}

/// The arithmetic mean of a non-empty list of scalars.
pub fn fx_mean(xs: &Vec<Fixed>) -> (r: Fixed)
    requires
        xs@.len() > 0,
    ensures
        r.v as int == fx_tdiv(fx_sum(xs@), xs@.len() as int),
{
    let n = xs.len();
    let mut acc = Fixed { v: 0 };
    let mut i: usize = 0;
    while i < n
        invariant
            n == xs@.len(),
            i <= n,
            acc.v as int == fx_sum(xs@.take(i as int)),
        decreases n - i,
    {
        proof {
            assert(xs@.take(i + 1).drop_last() =~= xs@.take(i as int));
            assert(xs@.take(i + 1).last() == xs@[i as int]);
        }
        acc = acc.add(xs[i]);
        i += 1;
    }
    proof {
        assert(xs@.take(n as int) =~= xs@);
    }
    acc.div_count(n as u64)
}

/// A list of equal values sums to value times length, as long as that
/// product stays in range.
pub proof fn lemma_sum_of_constant(s: Seq<Fixed>, c: int)
    requires
        forall|i: int| 0 <= i < s.len() ==> (#[trigger] s[i]).v as int == c,
        sp_abs(c) * s.len() <= i64::MAX as int,
    ensures
        fx_sum(s) == c * s.len(),
    decreases s.len(),
{
    if s.len() == 0 {
        assert(c * 0 == 0) by (nonlinear_arith);
    } else {
        assert(sp_abs(c) * (s.len() - 1) <= sp_abs(c) * s.len() && sp_abs(c * (s.len() - 1) as int)
            == sp_abs(c) * (s.len() - 1)) by (nonlinear_arith)
            requires s.len() >= 1;
        lemma_sum_of_constant(s.drop_last(), c);
        assert(c * (s.len() - 1) as int + c == c * s.len() && sp_abs(c * s.len())
            == sp_abs(c) * s.len()) by (nonlinear_arith);
    }
}

/// The mean of a list of equal values is that value (P6's zero-variance
/// replay case rests on this).
pub proof fn lemma_mean_of_constant(s: Seq<Fixed>, c: int)
    requires
        s.len() > 0,
        forall|i: int| 0 <= i < s.len() ==> (#[trigger] s[i]).v as int == c,
        sp_abs(c) * s.len() <= i64::MAX as int,
    ensures
        fx_tdiv(fx_sum(s), s.len() as int) == c,
{
    lemma_sum_of_constant(s, c);
    let n = s.len() as int;
    if c >= 0 {
        lemma_div_multiples_vanish(c, n);
        assert(sp_abs(c * n) == c * n && c * n >= 0 && c * n == n * c) by (nonlinear_arith)
            requires c >= 0 && n > 0;
    } else {
        lemma_div_multiples_vanish(-c, n);
        assert(sp_abs(c * n) == n * (-c) && c * n < 0) by (nonlinear_arith)
            requires c < 0 && n > 0;
    }
}

/// Replaying an identical episode leaves a pair's running mean at that
/// episode's discounted return: appending the same return `g` to a
/// list of returns all equal to `g` gives a list whose mean is exactly
/// `g` (zero variance after any number of identical replays).
pub proof fn lemma_replay_running_mean(base: Seq<Fixed>, g: int)
    requires
        forall|i: int| 0 <= i < base.len() ==> (#[trigger] base[i]).v as int == g,
        sp_abs(g) * (base.len() + 1) <= i64::MAX as int,
    ensures
        fx_tdiv(fx_sum(base.push(Fixed { v: g as i64 })), base.len() + 1 as int) == g,
{
    assert(sp_abs(g) * 1 <= sp_abs(g) * (base.len() + 1)) by (nonlinear_arith)
        requires sp_abs(g) >= 0;
    let s = base.push(Fixed { v: g as i64 });
    assert(forall|i: int| 0 <= i < s.len() ==> (#[trigger] s[i]).v as int == g);
    lemma_mean_of_constant(s, g);
}

/// The packed pair key of one episode step.
pub open spec fn step_key(st: EpisodeStep) -> u64 {
    pair_key_sp(st.state as int, st.action as int) as u64
}

/// Whether the pair `k` is taken anywhere in `ep[i..]`.
pub open spec fn in_suffix(ep: Seq<EpisodeStep>, i: int, k: u64) -> bool {
    exists|j: int| i <= j < ep.len() && step_key(#[trigger] ep[j]) == k
}

/// The earliest index at or after `from` where pair `k` is taken (the
/// episode's length when it never is).
pub open spec fn first_idx_from(ep: Seq<EpisodeStep>, k: u64, from: int) -> int
    decreases ep.len() - from when 0 <= from
{
    if from >= ep.len() {
        ep.len() as int
    } else if step_key(ep[from]) == k {
        from
    } else {
        first_idx_from(ep, k, from + 1)
    }
}

/// The earliest index at which pair `k` is taken: its first visit.
pub open spec fn first_idx(ep: Seq<EpisodeStep>, k: u64) -> int {
    first_idx_from(ep, k, 0)
}

/// The discounted return accumulated by the backward walk once it has
/// processed index `i`: `g_i = gamma * g_{i+1} + reward_i`.
pub open spec fn g_suffix(ep: Seq<EpisodeStep>, i: int, gamma: int) -> int
    decreases ep.len() - i when i >= 0
{
    if i < 0 || i >= ep.len() {
        0
    } else {
        fx_add_sp(fx_mul_sp(gamma, g_suffix(ep, i + 1, gamma)), ep[i].reward.v as int)
    }
}

/// Steps of an episode stay inside the packable key space.
pub open spec fn episode_ok(ep: Seq<EpisodeStep>) -> bool {
    forall|i: int|
        0 <= i < ep.len() ==> (#[trigger] ep[i]).state < 0x1_0000_0000 && ep[i].action
            < 0x1_0000_0000
}

fn vec_contains(v: &Vec<u64>, k: u64) -> (r: bool)
    ensures
        r == exists|i: int| 0 <= i < v@.len() && (#[trigger] v@[i]) == k,
{
    let n = v.len();
    let mut i: usize = 0;
    while i < n
        invariant
            n == v@.len(),
            i <= n,
            forall|j: int| 0 <= j < i ==> (#[trigger] v@[j]) != k,
        decreases n - i,
    {
        if v[i] == k {
            return true;
        }
        i += 1;
    }
    false
}

fn copy_fixed_vec(v: &Vec<Fixed>) -> (r: Vec<Fixed>)
    ensures
        r@ =~= v@,
{
    let n = v.len();
    let mut out: Vec<Fixed> = Vec::new();
    let mut i: usize = 0;
    while i < n
        invariant
            n == v@.len(),
            i <= n,
            out@ =~= v@.take(i as int),
        decreases n - i,
    {
        out.push(v[i]);
        proof {
            assert(out@ =~= v@.take(i + 1));
        }
        i += 1;
    }
    out
}

/// Walks an episode backward, appending the discounted return of each
/// pair's first visit (its earliest episode index) to its return list and
/// setting the pair's Q-estimate to the mean of that list. The result lists
/// the processed pair keys. Pairs outside the episode keep their lists and
/// estimates.
#[verifier::rlimit(100)]
#[verifier::spinoff_prover]
pub fn record_first_visit(
    ret_lists: &mut Table<Vec<Fixed>>,
    q: &mut Table<Fixed>,
    episode: &Vec<EpisodeStep>,
    gamma: Fixed,
) -> (visited: Vec<u64>)
    requires
        old(ret_lists).wf(),
        old(q).wf(),
        episode_ok(episode@),
    ensures
        final(ret_lists).wf(),
        final(q).wf(),
        forall|k: u64|
            !in_suffix(episode@, 0, k) ==> #[trigger] final(ret_lists).contains_sp(k) == old(
                ret_lists,
            ).contains_sp(k) && (old(ret_lists).contains_sp(k) ==> final(ret_lists).val_of(k) == old(
                ret_lists,
            ).val_of(k)),
        forall|k: u64|
            !in_suffix(episode@, 0, k) ==> #[trigger] final(q).contains_sp(k) == old(
                q,
            ).contains_sp(k) && (old(q).contains_sp(k) ==> final(q).val_of(k) == old(q).val_of(k)),
        forall|k: u64|
            #[trigger] in_suffix(episode@, 0, k) ==> {
                let g = g_suffix(episode@, first_idx(episode@, k), gamma.v as int);
                let base = if old(ret_lists).contains_sp(k) {
                    old(ret_lists).val_of(k)@
                } else {
                    Seq::empty()
                };
                &&& final(ret_lists).contains_sp(k)
                &&& final(ret_lists).val_of(k)@ =~= base.push(Fixed { v: g as i64 })
                &&& final(q).contains_sp(k)
                &&& final(q).val_of(k).v as int == fx_tdiv(
                    fx_sum(final(ret_lists).val_of(k)@),
                    final(ret_lists).val_of(k)@.len() as int,
                )
            },
        forall|j: int|
            0 <= j < visited@.len() ==> in_suffix(episode@, 0, #[trigger] visited@[j]),
        forall|k: u64|
            #[trigger] in_suffix(episode@, 0, k) ==> exists|j: int|
                0 <= j < visited@.len() && visited@[j] == k,
{
    let len = episode.len();
    let mut g = Fixed { v: 0 };
    let mut visited: Vec<u64> = Vec::new();
    let mut i: usize = len;
    while i > 0
        invariant
            len == episode@.len(),
            i <= len,
            episode_ok(episode@),
            ret_lists.wf(),
            q.wf(),
            g.v as int == g_suffix(episode@, i as int, gamma.v as int),
            forall|j: int|
                0 <= j < visited@.len() ==> in_suffix(episode@, i as int, #[trigger] visited@[j]),
            forall|k: u64|
                #[trigger] in_suffix(episode@, i as int, k) ==> exists|j: int|
                    0 <= j < visited@.len() && visited@[j] == k,
            forall|k: u64|
                !in_suffix(episode@, i as int, k) ==> #[trigger] ret_lists.contains_sp(k) == old(
                    ret_lists,
                ).contains_sp(k) && (old(ret_lists).contains_sp(k) ==> ret_lists.val_of(k) == old(
                    ret_lists,
                ).val_of(k)),
            forall|k: u64|
                !in_suffix(episode@, i as int, k) ==> #[trigger] q.contains_sp(k) == old(
                    q,
                ).contains_sp(k) && (old(q).contains_sp(k) ==> q.val_of(k) == old(q).val_of(k)),
            forall|k: u64|
                #[trigger] in_suffix(episode@, i as int, k) ==> {
                    let gk = g_suffix(episode@, first_idx_from(episode@, k, i as int), gamma.v as int);
                    let base = if old(ret_lists).contains_sp(k) {
                        old(ret_lists).val_of(k)@
                    } else {
                        Seq::empty()
                    };
                    &&& ret_lists.contains_sp(k)
                    &&& ret_lists.val_of(k)@ =~= base.push(Fixed { v: gk as i64 })
                    &&& q.contains_sp(k)
                    &&& q.val_of(k).v as int == fx_tdiv(
                        fx_sum(ret_lists.val_of(k)@),
                        ret_lists.val_of(k)@.len() as int,
                    )
                },
        decreases i,
    {
        i = i - 1;
        let st = episode[i];
        g = gamma.mul(g).add(st.reward);
        let k = pair_key(st.state, st.action);
        proof {
            lemma_key_parts(st.state as int, st.action as int);
            assert(step_key(episode@[i as int]) == k);
            assert(in_suffix(episode@, i as int, k));
        }
        let seen = vec_contains(&visited, k);
        let ghost pre_visited = visited@;
        let ghost pre_ret = *ret_lists;
        let ghost pre_q = *q;
        if !seen {
            proof {
                // k occurs at no later index: this backward visit is its
                // first encounter, so a fresh return is appended.
                assert(!in_suffix(episode@, i as int + 1, k));
            }
            visited.push(k);
            let base = match ret_lists.find(k) {
                Some(idx) => copy_fixed_vec(&ret_lists.entries[idx].1),
                None => Vec::new(),
            };
            let mut new_list = base;
            new_list.push(g);
            let mean = fx_mean(&new_list);
            ret_lists.insert(k, new_list);
            q.insert(k, mean);
        } else {
            // An earlier episode occurrence of a pair already recorded:
            // the first visit is this earlier index, so its G replaces
            // the return appended at the later occurrence.
            proof {
                let j = choose|j: int|
                    0 <= j < visited@.len() && (#[trigger] visited@[j]) == k;
                assert(in_suffix(episode@, i as int + 1, k));
            }
            let mut new_list = match ret_lists.find(k) {
                Some(idx) => copy_fixed_vec(&ret_lists.entries[idx].1),
                None => Vec::new(),
            };
            proof {
                assert(new_list@.len() > 0);
            }
            let _replaced = new_list.pop();
            new_list.push(g);
            let mean = fx_mean(&new_list);
            ret_lists.insert(k, new_list);
            q.insert(k, mean);
        }
        proof {
            assert forall|k2: u64| #[trigger] in_suffix(episode@, i as int, k2) implies (
            in_suffix(episode@, i as int + 1, k2) || k2 == k) by {
                let j = choose|j: int|
                    i <= j < episode@.len() && step_key(#[trigger] episode@[j]) == k2;
                if j > i {
                    assert(in_suffix(episode@, i as int + 1, k2));
                }
            }
            assert forall|k2: u64| !in_suffix(episode@, i as int, k2) implies (
            #[trigger] ret_lists.contains_sp(k2) == old(ret_lists).contains_sp(k2) && (old(
                ret_lists,
            ).contains_sp(k2) ==> ret_lists.val_of(k2) == old(ret_lists).val_of(k2))) by {
                if in_suffix(episode@, i as int + 1, k2) {
                    assert(in_suffix(episode@, i as int, k2));
                }
                assert(k2 != k);
                assert(ret_lists.contains_sp(k2) == pre_ret.contains_sp(k2));
                if pre_ret.contains_sp(k2) {
                    assert(ret_lists.val_of(k2) == pre_ret.val_of(k2));
                }
            }
            assert forall|k2: u64| !in_suffix(episode@, i as int, k2) implies (
            #[trigger] q.contains_sp(k2) == old(q).contains_sp(k2) && (old(q).contains_sp(k2)
                ==> q.val_of(k2) == old(q).val_of(k2))) by {
                if in_suffix(episode@, i as int + 1, k2) {
                    assert(in_suffix(episode@, i as int, k2));
                }
                assert(k2 != k);
                assert(q.contains_sp(k2) == pre_q.contains_sp(k2));
                if pre_q.contains_sp(k2) {
                    assert(q.val_of(k2) == pre_q.val_of(k2));
                }
            }
            assert forall|k2: u64| #[trigger] in_suffix(episode@, i as int, k2) implies exists|
                j: int,
            | 0 <= j < visited@.len() && visited@[j] == k2 by {
                if k2 == k {
                    if seen {
                        let j = choose|j: int|
                            0 <= j < pre_visited.len() && (#[trigger] pre_visited[j]) == k;
                        assert(visited@[j] == k2);
                    } else {
                        assert(visited@[visited@.len() - 1] == k2);
                    }
                } else {
                    assert(in_suffix(episode@, i as int + 1, k2));
                    let j = choose|j: int|
                        0 <= j < pre_visited.len() && (#[trigger] pre_visited[j]) == k2;
                    assert(visited@[j] == k2);
                }
            }
            assert forall|k2: u64| #[trigger] in_suffix(episode@, i as int, k2) implies {
                let gk = g_suffix(episode@, first_idx_from(episode@, k2, i as int), gamma.v as int);
                let base = if old(ret_lists).contains_sp(k2) {
                    old(ret_lists).val_of(k2)@
                } else {
                    Seq::empty()
                };
                &&& ret_lists.contains_sp(k2)
                &&& ret_lists.val_of(k2)@ =~= base.push(Fixed { v: gk as i64 })
                &&& q.contains_sp(k2)
                &&& q.val_of(k2).v as int == fx_tdiv(
                    fx_sum(ret_lists.val_of(k2)@),
                    ret_lists.val_of(k2)@.len() as int,
                )
            } by {
                let base = if old(ret_lists).contains_sp(k2) {
                    old(ret_lists).val_of(k2)@
                } else {
                    Seq::empty()
                };
                if k2 == k {
                    assert(first_idx_from(episode@, k, i as int) == i as int);
                    if seen {
                        let gk_old = g_suffix(
                            episode@,
                            first_idx_from(episode@, k, i as int + 1),
                            gamma.v as int,
                        );
                        let prev = pre_ret.val_of(k)@;
                        assert(prev =~= base.push(Fixed { v: gk_old as i64 }));
                        assert(prev.drop_last() =~= base);
                        assert(ret_lists.val_of(k)@ =~= prev.drop_last().push(g));
                    } else {
                        assert(!in_suffix(episode@, i as int + 1, k));
                        assert(pre_ret.contains_sp(k) == old(ret_lists).contains_sp(k));
                    }
                } else {
                    assert(in_suffix(episode@, i as int + 1, k2));
                    assert(first_idx_from(episode@, k2, i as int) == first_idx_from(
                        episode@,
                        k2,
                        i as int + 1,
                    ));
                    assert(ret_lists.contains_sp(k2) == pre_ret.contains_sp(k2));
                    assert(ret_lists.val_of(k2) == pre_ret.val_of(k2));
                    assert(q.val_of(k2) == pre_q.val_of(k2));
                }
            }
        }
    }
    visited
}

/// A strictly increasing list of values below `bound` has at most
/// `bound` entries.
pub proof fn lemma_increasing_bounded(s: Seq<usize>, bound: int)
    requires
        forall|i: int, j: int| 0 <= i < j < s.len() ==> s[i] < s[j],
        forall|i: int| 0 <= i < s.len() ==> ((#[trigger] s[i]) as int) < bound,
        bound >= 0,
    ensures
        s.len() <= bound,
{
    if s.len() > 0 {
        lemma_increasing_at(s, s.len() - 1);
    }
}

proof fn lemma_increasing_at(s: Seq<usize>, i: int)
    requires
        forall|i2: int, j2: int| 0 <= i2 < j2 < s.len() ==> s[i2] < s[j2],
        0 <= i < s.len(),
    ensures
        s[i] as int >= i,
    decreases i,
{
    if i > 0 {
        lemma_increasing_at(s, i - 1);
        assert(s[i - 1] < s[i]);
    }
}

/// The greedy scan of state `s` over the first `upto` table entries:
/// the action and estimate of the first entry reaching the running
/// maximum (a strictly greater estimate replaces it).
pub open spec fn best_of_upto(q: Table<Fixed>, s: int, upto: int) -> Option<(u64, Fixed)>
    decreases upto,
{
    if upto <= 0 {
        None
    } else {
        let prev = best_of_upto(q, s, upto - 1);
        let e = q.entries@[upto - 1];
        if key_state(e.0) == s {
            match prev {
                None => Some(((key_action(e.0)) as u64, e.1)),
                Some((ba, bv)) => if e.1.v > bv.v {
                    Some(((key_action(e.0)) as u64, e.1))
                } else {
                    prev
                },
            }
        } else {
            prev
        }
    }
}

/// The greedy action of state `s` in the Q-table, or nothing where the
/// state has no estimated pair.
pub open spec fn best_of(q: Table<Fixed>, s: int) -> Option<u64> {
    match best_of_upto(q, s, q.entries@.len() as int) {
        Some((a, _)) => Some(a),
        None => None,
    }
}

/// A state with at least one estimated pair has a greedy action.
pub proof fn lemma_best_of_some(q: Table<Fixed>, s: int, i: int, upto: int)
    requires
        0 <= i < q.entries@.len(),
        key_state(q.entries@[i].0) == s,
        i < upto <= q.entries@.len(),
    ensures
        best_of_upto(q, s, upto) is Some,
    decreases upto,
{
    if upto == i + 1 {
    } else {
        lemma_best_of_some(q, s, i, upto - 1);
    }
}

/// Whether any step of the episode is taken from state `s`.
pub open spec fn episode_has_state(ep: Seq<EpisodeStep>, s: int) -> bool {
    exists|j: int| 0 <= j < ep.len() && (#[trigger] ep[j]).state == s
}

/// Whether any step of `ep[i..]` visits state `s`.
pub open spec fn state_in_suffix(ep: Seq<EpisodeStep>, i: int, s: int) -> bool {
    exists|j: int| i <= j < ep.len() && (#[trigger] ep[j]).state == s
}

/// The action of the greatest estimate among a single state's
/// estimated pairs, or nothing where the state has none; ties go to
/// the earliest entry.
pub fn best_action_for_state(q: &Table<Fixed>, s: State) -> (r: Option<u64>)
    requires
        q.wf(),
        s < 0x1_0000_0000,
    ensures
        r == best_of(*q, s as int),
        match r {
            Some(a) => {
                &&& a < 0x1_0000_0000
                &&& q.contains_sp(pair_key_sp(s as int, a as int) as u64)
                &&& forall|i: int|
                    0 <= i < q.entries@.len() && key_state(#[trigger] q.entries@[i].0) == s as int
                        ==> q.entries@[i].1.v as int <= qv_sp(*q, s as int, a as int)
            },
            None => forall|i: int|
                0 <= i < q.entries@.len() ==> key_state(#[trigger] q.entries@[i].0) != s as int,
        },
{
    let n = q.entries.len();
    let mut best: Option<(u64, Fixed)> = None;
    let mut i: usize = 0;
    while i < n
        invariant
            n == q.entries@.len(),
            i <= n,
            q.wf(),
            s < 0x1_0000_0000,
            best_of_upto(*q, s as int, i as int) == best,
            match best {
                Some((a, bv)) => {
                    &&& a < 0x1_0000_0000
                    &&& q.contains_sp(pair_key_sp(s as int, a as int) as u64)
                    &&& bv.v as int == qv_sp(*q, s as int, a as int)
                    &&& forall|j: int|
                        0 <= j < i && key_state(#[trigger] q.entries@[j].0) == s as int
                            ==> q.entries@[j].1.v <= bv.v
                },
                None => forall|j: int|
                    0 <= j < i ==> key_state(#[trigger] q.entries@[j].0) != s as int,
            },
        decreases n - i,
    {
        let k = q.entries[i].0;
        let v = q.entries[i].1;
        let s64 = k / 0x1_0000_0000u64;
        if s64 as usize == s {
            proof {
                lemma_key_recombine(k);
                q.lemma_idx(k, i as int);
                assert(pair_key_sp(s as int, key_action(k)) == k as int);
            }
            let a = k % 0x1_0000_0000u64;
            match best {
                None => {
                    best = Some((a, v));
                },
                Some((_ba, bv)) => {
                    if v.v > bv.v {
                        best = Some((a, v));
                    }
                },
            }
        }
        i += 1;
    }
    match best {
        Some((a, _)) => Some(a),
        None => None,
    }
}

/// Every Q-table entry's estimate is at most the estimate of the
/// policy's action for that entry's state: the policy is greedy.
pub open spec fn greedy_over(q: Table<Fixed>, policy: Table<u64>) -> bool {
    forall|i: int|
        0 <= i < q.entries@.len() ==> (#[trigger] q.entries@[i]).1.v as int <= qv_sp(
            q,
            key_state(q.entries@[i].0),
            policy.val_of((key_state(q.entries@[i].0)) as u64) as int,
        )
}

/// Every key of `a` is still a key of `b`: entries are never removed.
pub open spec fn keys_kept<V>(a: Table<V>, b: Table<V>) -> bool {
    forall|k: u64| #[trigger] a.contains_sp(k) ==> b.contains_sp(k)
}

pub proof fn lemma_keys_kept_trans<V>(a: Table<V>, b: Table<V>, c: Table<V>)
    requires
        keys_kept(a, b),
        keys_kept(b, c),
    ensures
        keys_kept(a, c),
{
}

/// The greedy policy read off a Q-table: for every state that has at
/// least one estimated pair, an action whose estimate is the largest
/// over that state's estimated pairs.
pub fn derive_greedy_policy(q: &Table<Fixed>) -> (r: Table<u64>)
    requires
        q.wf(),
    ensures
        r.wf(),
        forall|s: u64|
            #[trigger] r.contains_sp(s) <==> exists|i: int|
                0 <= i < q.entries@.len() && key_state(#[trigger] q.entries@[i].0) == s as int,
        forall|s: u64| #[trigger] r.contains_sp(s) ==> 0 <= r.val_of(s) < 0x1_0000_0000,
        forall|s: u64|
            #[trigger] r.contains_sp(s) ==> q.contains_sp(
                pair_key_sp(s as int, r.val_of(s) as int) as u64,
            ),
        forall|i: int|
            0 <= i < q.entries@.len() ==> (#[trigger] q.entries@[i]).1.v as int <= qv_sp(
                *q,
                key_state(q.entries@[i].0),
                r.val_of((key_state(q.entries@[i].0)) as u64) as int,
            ),
        greedy_over(*q, r),
{
    let n = q.entries.len();
    let mut policy: Table<u64> = Table::new();
    let mut i: usize = 0;
    while i < n
        invariant
            n == q.entries@.len(),
            i <= n,
            q.wf(),
            policy.wf(),
            forall|s: u64|
                #[trigger] policy.contains_sp(s) <==> exists|j: int|
                    0 <= j < i && key_state(#[trigger] q.entries@[j].0) == s as int,
            forall|s: u64|
                #[trigger] policy.contains_sp(s) ==> 0 <= policy.val_of(s) < 0x1_0000_0000,
            forall|s: u64|
                #[trigger] policy.contains_sp(s) ==> q.contains_sp(
                    pair_key_sp(s as int, policy.val_of(s) as int) as u64,
                ),
            forall|j: int|
                0 <= j < i ==> (#[trigger] q.entries@[j]).1.v as int <= qv_sp(
                    *q,
                    key_state(q.entries@[j].0),
                    policy.val_of((key_state(q.entries@[j].0)) as u64) as int,
                ),
        decreases n - i,
    {
        let k = q.entries[i].0;
        let cur = q.entries[i].1;
        let s64 = k / 0x1_0000_0000u64;
        let a64 = k % 0x1_0000_0000u64;
        proof {
            lemma_key_recombine(k);
            q.lemma_idx(k, i as int);
        }
        let prior = policy.get(s64);
        let ghost pre_policy = policy;
        match prior {
            None => {
                policy.insert(s64, a64);
                proof {
                    lemma_key_parts(s64 as int, a64 as int);
                    assert(pair_key_sp(s64 as int, a64 as int) == k as int);
                    assert(qv_sp(*q, key_state(k), a64 as int) == cur.v as int);
                    assert(key_state(q.entries@[i as int].0) == s64 as int);
                }
            },
            Some(best_a) => {
                let bk = pair_key(s64 as usize, best_a as usize);
                let bv = q.get_or(bk, Fixed { v: i64::MIN });
                proof {
                    assert(q.contains_sp(bk));
                    assert(qv_sp(*q, s64 as int, best_a as int) == bv.v as int);
                }
                if cur.v > bv.v {
                    policy.insert(s64, a64);
                    proof {
                        lemma_key_parts(s64 as int, a64 as int);
                        assert(qv_sp(*q, key_state(k), a64 as int) == cur.v as int);
                        assert(key_state(q.entries@[i as int].0) == s64 as int);
                        assert forall|j: int|
                            0 <= j < i + 1 implies (#[trigger] q.entries@[j]).1.v as int <= qv_sp(
                            *q,
                            key_state(q.entries@[j].0),
                            policy.val_of((key_state(q.entries@[j].0)) as u64) as int,
                        ) by {
                            let sj = (key_state(q.entries@[j].0)) as u64;
                            if j < i {
                                if sj == s64 {
                                    assert(q.entries@[j].1.v as int <= qv_sp(
                                        *q,
                                        s64 as int,
                                        best_a as int,
                                    ));
                                } else {
                                    assert(policy.val_of(sj) == pre_policy.val_of(sj));
                                }
                            }
                        }
                    }
                } else {
                    proof {
                        assert(key_state(q.entries@[i as int].0) == s64 as int);
                        assert(qv_sp(*q, key_state(k), best_a as int) == bv.v as int);
                    }
                }
            },
        }
        i += 1;
    }
    policy
}

} // verus!
