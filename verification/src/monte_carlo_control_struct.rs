use vstd::prelude::*;
use crate::environment::{Action, Environment, State};
use crate::fixed::{Fixed, FX_SCALE, fx_tdiv};
use crate::learning::{
    best_action_for_state, episode_ok, fx_sum, first_idx, g_suffix, in_suffix, key_state,
    lemma_key_parts, record_first_visit, EpisodeStep,
};
use crate::rng::{lemma_u64_sum_bound, pick_weighted, rand_below};
use crate::table::{pair_key, pair_key_sp, Table};

verus! {

/// Per-state action probabilities of an epsilon-soft policy: each
/// listed action carries a probability in [0, 1].
pub open spec fn soft_ok(p: Table<Vec<(u64, Fixed)>>) -> bool {
    &&& p.wf()
    &&& forall|i: int| 0 <= i < p.entries@.len() ==> (#[trigger] p.entries@[i]).1@.len()
        <= 0x1_0000_0000
    &&& forall|i: int, j: int|
        0 <= i < p.entries@.len() && 0 <= j < p.entries@[i].1@.len() ==> {
            let pr = (#[trigger] p.entries@[i].1@[j]);
            &&& pr.0 < 0x1_0000_0000
            &&& 0 <= pr.1.v <= FX_SCALE
        }
}

/// The probability a distribution lists for action `a`: the first
/// matching pair's probability.
pub open spec fn first_prob(e: Seq<(u64, Fixed)>, a: int) -> Option<Fixed>
    decreases e.len(),
{
    if e.len() == 0 {
        None
    } else if e[0].0 == a {
        Some(e[0].1)
    } else {
        first_prob(e.drop_first(), a)
    }
}

/// The probability the soft policy gives the pair, where the state has
/// a distribution listing the action.
pub open spec fn soft_prob_lookup(soft: Table<Vec<(u64, Fixed)>>, s: int, a: int) -> Option<
    Fixed,
> {
    if soft.contains_sp(s as u64) {
        first_prob(soft.val_of(s as u64)@, a)
    } else {
        None
    }
}

/// The first pair of maximal probability among the first `upto`
/// entries of a distribution (a strictly greater probability
/// replaces).
pub open spec fn soft_best_upto(e: Seq<(u64, Fixed)>, upto: int) -> (u64, Fixed)
    decreases upto,
{
    if upto <= 1 {
        e[0]
    } else {
        let p = soft_best_upto(e, upto - 1);
        if e[upto - 1].1.v > p.1.v {
            e[upto - 1]
        } else {
            p
        }
    }
}

/// The epsilon-soft re-centring of a distribution on the action
/// `best`: the same actions, the greedy one at `1 - eps + eps/m`, the
/// others at `eps/m`.
pub open spec fn recentred(e: Seq<(u64, Fixed)>, best: int, eps: int) -> Seq<(u64, Fixed)> {
    e.map_values(
        |p: (u64, Fixed)|
            (
                p.0,
                Fixed {
                    v: (if p.0 as int == best {
                        1_000_000 - eps + fx_tdiv(eps, e.len() as int)
                    } else {
                        fx_tdiv(eps, e.len() as int)
                    }) as i64,
                },
            ),
    )
}

/// The derived policy collapses the soft policy: every state with a
/// non-empty distribution maps to that distribution's first action of
/// maximal probability, and no other state is mapped.
pub open spec fn collapsed_from(soft: Table<Vec<(u64, Fixed)>>, derived: Table<u64>) -> bool {
    &&& forall|i: int|
        0 <= i < soft.entries@.len() && (#[trigger] soft.entries@[i]).1@.len() > 0 ==> {
            &&& derived.contains_sp(soft.entries@[i].0)
            &&& derived.val_of(soft.entries@[i].0) == soft_best_upto(
                soft.entries@[i].1@,
                soft.entries@[i].1@.len() as int,
            ).0
        }
    &&& forall|k: u64|
        #[trigger] derived.contains_sp(k) ==> exists|i: int|
            0 <= i < soft.entries@.len() && (#[trigger] soft.entries@[i]).0 == k
                && soft.entries@[i].1@.len() > 0
}

/// Re-centres one state's distribution in place (see `recentred`); a
/// state without a distribution, or with an empty one, is left alone,
/// and every other state keeps its distribution.
pub fn recentre_soft(
    soft: &mut Table<Vec<(u64, Fixed)>>,
    state: State,
    best_action: Action,
    eps: Fixed,
)
    requires
        soft_ok(*old(soft)),
        state < 0x1_0000_0000,
        best_action < 0x1_0000_0000,
        0 <= eps.v <= FX_SCALE,
    ensures
        soft_ok(*final(soft)),
        !old(soft).contains_sp(state as u64) ==> *final(soft) == *old(soft),
        old(soft).contains_sp(state as u64) && old(soft).val_of(state as u64)@.len() == 0
            ==> *final(soft) == *old(soft),
        old(soft).contains_sp(state as u64) && old(soft).val_of(state as u64)@.len() > 0 ==> {
            &&& final(soft).contains_sp(state as u64)
            &&& final(soft).val_of(state as u64)@ =~= recentred(
                old(soft).val_of(state as u64)@,
                best_action as int,
                eps.v as int,
            )
        },
        forall|s2: u64|
            s2 != state ==> (#[trigger] final(soft).contains_sp(s2)) == old(soft).contains_sp(s2)
                && (old(soft).contains_sp(s2) ==> final(soft).val_of(s2) == old(soft).val_of(s2)),
{
    let found = soft.find(state as u64);
    match found {
        Some(pi) => {
            let m = soft.entries[pi].1.len();
            if m == 0 {
                return ;
            }
            let share = eps.div_count(m as u64);
            proof {
                crate::fixed::lemma_tdiv_ordered(0, eps.v as int, m as int);
                assert(fx_tdiv(eps.v as int, m as int) <= eps.v as int) by (nonlinear_arith)
                    requires m >= 1 && eps.v >= 0;
            }
            let greedy_prob = Fixed { v: FX_SCALE - eps.v + share.v };
            let other_prob = Fixed { v: share.v };
            let mut rebuilt: Vec<(u64, Fixed)> = Vec::new();
            let mut j: usize = 0;
            while j < m
                invariant
                    pi < soft.entries@.len(),
                    m == soft.entries@[pi as int].1@.len(),
                    j <= m,
                    soft_ok(*soft),
                    best_action < 0x1_0000_0000,
                    greedy_prob.v as int == 1_000_000 - eps.v + fx_tdiv(eps.v as int, m as int),
                    other_prob.v as int == fx_tdiv(eps.v as int, m as int),
                    0 <= greedy_prob.v <= FX_SCALE,
                    0 <= other_prob.v <= FX_SCALE,
                    rebuilt@.len() == j,
                    forall|x: int|
                        0 <= x < j ==> (#[trigger] rebuilt@[x]) == recentred(
                            soft.entries@[pi as int].1@,
                            best_action as int,
                            eps.v as int,
                        )[x],
                decreases m - j,
            {
                let (a64, _old_prob) = soft.entries[pi].1[j];
                proof {
                    assert(soft.entries@[pi as int].1@[j as int].0 < 0x1_0000_0000);
                }
                if a64 as usize == best_action {
                    rebuilt.push((a64, greedy_prob));
                } else {
                    rebuilt.push((a64, other_prob));
                }
                j += 1;
            }
            proof {
                soft.lemma_idx(soft.entries@[pi as int].0, pi as int);
            }
            let key = soft.entries[pi].0;
            let ghost pre_soft = *soft;
            soft.insert(key, rebuilt);
            proof {
                assert forall|i2: int|
                    0 <= i2 < soft.entries@.len() implies {
                    let en = (#[trigger] soft.entries@[i2]);
                    en.1@.len() <= 0x1_0000_0000 && forall|x: int|
                        0 <= x < en.1@.len() ==> (#[trigger] en.1@[x]).0 < 0x1_0000_0000 && 0
                            <= en.1@[x].1.v <= FX_SCALE
                } by {
                    if pre_soft.contains_sp(key) {
                        if i2 != pre_soft.idx_of(key) {
                            assert(soft.entries@[i2] == pre_soft.entries@[i2]);
                        }
                    }
                }
            }
        },
        None => {},
    }
}

/// Collapses a soft policy: per state with a non-empty distribution,
/// the first action of maximal probability.
pub fn collapse_soft(soft: &Table<Vec<(u64, Fixed)>>) -> (r: Table<u64>)
    requires
        soft.wf(),
    ensures
        r.wf(),
        collapsed_from(*soft, r),
{
    let mut derived: Table<u64> = Table::new();
    let n = soft.entries.len();
    let mut i: usize = 0;
    while i < n
        invariant
            n == soft.entries@.len(),
            i <= n,
            soft.wf(),
            derived.wf(),
            forall|x: int|
                0 <= x < i && (#[trigger] soft.entries@[x]).1@.len() > 0 ==> {
                    &&& derived.contains_sp(soft.entries@[x].0)
                    &&& derived.val_of(soft.entries@[x].0) == soft_best_upto(
                        soft.entries@[x].1@,
                        soft.entries@[x].1@.len() as int,
                    ).0
                },
            forall|k: u64|
                #[trigger] derived.contains_sp(k) ==> exists|x: int|
                    0 <= x < i && (#[trigger] soft.entries@[x]).0 == k && soft.entries@[x].1@.len()
                        > 0,
        decreases n - i,
    {
        let m = soft.entries[i].1.len();
        if m > 0 {
            let s = soft.entries[i].0;
            let mut best = soft.entries[i].1[0];
            let mut j: usize = 1;
            while j < m
                invariant
                    i < soft.entries@.len(),
                    m == soft.entries@[i as int].1@.len(),
                    1 <= j <= m,
                    soft.wf(),
                    best == soft_best_upto(soft.entries@[i as int].1@, j as int),
                decreases m - j,
            {
                let cand = soft.entries[i].1[j];
                if cand.1.v > best.1.v {
                    best = cand;
                }
                j += 1;
            }
            let ghost pre = derived;
            derived.insert(s, best.0);
            proof {
                soft.lemma_idx(s, i as int);
                assert forall|x: int|
                    0 <= x < i + 1 && (#[trigger] soft.entries@[x]).1@.len() > 0 implies {
                    &&& derived.contains_sp(soft.entries@[x].0)
                    &&& derived.val_of(soft.entries@[x].0) == soft_best_upto(
                        soft.entries@[x].1@,
                        soft.entries@[x].1@.len() as int,
                    ).0
                } by {
                    if x < i {
                        assert(soft.entries@[x].0 != s);
                        assert(derived.contains_sp(soft.entries@[x].0) == pre.contains_sp(
                            soft.entries@[x].0,
                        ));
                        if pre.contains_sp(soft.entries@[x].0) {
                            assert(derived.val_of(soft.entries@[x].0) == pre.val_of(
                                soft.entries@[x].0,
                            ));
                        }
                    }
                }
                assert forall|k: u64| #[trigger] derived.contains_sp(k) implies exists|x: int|
                    0 <= x < i + 1 && (#[trigger] soft.entries@[x]).0 == k
                        && soft.entries@[x].1@.len() > 0 by {
                    if k == s {
                        assert(soft.entries@[i as int].0 == k && soft.entries@[i as int].1@.len()
                            > 0);
                    } else {
                        assert(derived.contains_sp(k) == pre.contains_sp(k));
                    }
                }
            }
        }
        i += 1;
    }
    derived
}

/// On-policy first-visit Monte-Carlo control with an epsilon-soft
/// behavior policy: rollouts draw from per-state action distributions,
/// the backward pass keeps running-mean Q-estimates, and every visited
/// state's distribution is re-centred on its greedy action.
pub struct MonteCarloControl {
    pub epsilon: Fixed,
    pub gamma: Fixed,
    pub policy: Table<Vec<(u64, Fixed)>>,
    pub q_values: Table<Fixed>,
    pub return_lists: Table<Vec<Fixed>>,
    pub derived_policy: Table<u64>,
}

/// A uniformly random available action, preferring the non-forbidden
/// ones: only where every available action is forbidden does a
/// forbidden one come back.
pub fn pick_available_admissible<E: Environment>(env: &mut E) -> (r: Action)
    requires
        old(env).inv(),
        !old(env).over_sp(),
    ensures
        *final(env) == *old(env),
        final(env).avail_sp(r as int),
        !final(env).forbidden_sp(r as int) || (forall|a2: int|
            0 <= a2 < final(env).n_actions() && final(env).avail_sp(a2) ==> final(
                env).forbidden_sp(a2)),
{
    let available_actions = env.available_actions();
    let n = available_actions.len();
    let mut admissible: Vec<Action> = Vec::new();
    let mut i: usize = 0;
    while i < n
        invariant
            n == available_actions@.len(),
            i <= n,
            env.inv(),
            *env == *old(env),
            forall|x: int|
                0 <= x < available_actions@.len() ==> env.avail_sp((
                #[trigger] available_actions@[x]) as int),
            forall|x: int|
                0 <= x < admissible@.len() ==> env.avail_sp((#[trigger] admissible@[x]) as int)
                    && !env.forbidden_sp(admissible@[x] as int),
            forall|x: int|
                0 <= x < i && !env.forbidden_sp((#[trigger] available_actions@[x]) as int)
                    ==> exists|y: int|
                    0 <= y < admissible@.len() && (#[trigger] admissible@[y])
                        == available_actions@[x],
        decreases n - i,
    {
        let a = available_actions[i];
        if !env.is_forbidden(a) {
            let ghost pre = admissible@;
            admissible.push(a);
            proof {
                assert forall|x: int|
                    0 <= x < i + 1 && !env.forbidden_sp((
                    #[trigger] available_actions@[x]) as int) implies exists|y: int|
                    0 <= y < admissible@.len() && (#[trigger] admissible@[y])
                        == available_actions@[x] by {
                    if x < i {
                        let y = choose|y: int|
                            0 <= y < pre.len() && (#[trigger] pre[y]) == available_actions@[x];
                        assert(admissible@[y] == available_actions@[x]);
                    } else {
                        assert(admissible@[admissible@.len() - 1] == available_actions@[x]);
                    }
                }
            }
        }
        i += 1;
    }
    if admissible.len() > 0 {
        let k = rand_below(admissible.len() as u64) as usize;
        admissible[k]
    } else {
        proof {
            assert forall|a2: int|
                0 <= a2 < env.n_actions() && env.avail_sp(a2) implies env.forbidden_sp(a2) by {
                let x = choose|x: int|
                    0 <= x < available_actions@.len() && (
                    #[trigger] available_actions@[x]) as int == a2;
                if !env.forbidden_sp(available_actions@[x] as int) {
                    let y = choose|y: int|
                        0 <= y < admissible@.len() && (#[trigger] admissible@[y])
                            == available_actions@[x];
                    assert(false);
                }
            }
        }
        let k = rand_below(available_actions.len() as u64) as usize;
        available_actions[k]
    }
}

/// Table `after` agrees with `before` on every pair key whose state
/// half is not `state`: same presence, same value.
pub open spec fn state_pairs_frame<V>(state: int, before: Table<V>, after: Table<V>) -> bool {
    forall|k2: u64|
        key_state(k2) != state ==> (#[trigger] after.contains_sp(k2)) == before.contains_sp(k2)
            && (before.contains_sp(k2) ==> after.val_of(k2) == before.val_of(k2))
}

/// Seeds a fresh state's uniform action list: every non-forbidden
/// nominal action is listed with probability `share`, its Q-estimate
/// and return list zero-initialized; pairs of other states are
/// untouched.
fn seed_state_pairs<E: Environment>(
    q: &mut Table<Fixed>,
    ret: &mut Table<Vec<Fixed>>,
    env: &mut E,
    state: State,
    available_actions: &Vec<Action>,
    share: Fixed,
) -> (actions: Vec<(u64, Fixed)>)
    requires
        old(q).wf(),
        old(ret).wf(),
        old(env).inv(),
        state < 0x1_0000_0000,
        available_actions@.len() <= 0x1_0000_0000,
        forall|j: int|
            0 <= j < available_actions@.len() ==> (#[trigger] available_actions@[j]) as int == j,
    ensures
        final(q).wf(),
        final(ret).wf(),
        *final(env) == *old(env),
        actions@.len() <= available_actions@.len(),
        forall|j: int|
            0 <= j < actions@.len() ==> {
                let pr = (#[trigger] actions@[j]);
                &&& (pr.0 as int) < available_actions@.len()
                &&& !old(env).forbidden_sp(pr.0 as int)
                &&& pr.1 == share
            },
        forall|a: int|
            0 <= a < available_actions@.len() && !old(env).forbidden_sp(a) ==> exists|j: int|
                0 <= j < actions@.len() && ((#[trigger] actions@[j]).0 as int) == a,
        forall|j: int|
            0 <= j < actions@.len() ==> {
                let k = pair_key_sp(state as int, ((#[trigger] actions@[j]).0) as int) as u64;
                &&& final(q).contains_sp(k)
                &&& final(q).val_of(k).v == 0
                &&& final(ret).contains_sp(k)
                &&& final(ret).val_of(k)@.len() == 0
            },
        state_pairs_frame(state as int, *old(q), *final(q)),
        state_pairs_frame(state as int, *old(ret), *final(ret)),
{
    let n = available_actions.len();
    let mut actions: Vec<(u64, Fixed)> = Vec::new();
    let mut i: usize = 0;
    while i < n
        invariant
            n == available_actions@.len(),
            n <= 0x1_0000_0000,
            i <= n,
            q.wf(),
            ret.wf(),
            env.inv(),
            *env == *old(env),
            state < 0x1_0000_0000,
            forall|j: int|
                0 <= j < available_actions@.len() ==> (
                #[trigger] available_actions@[j]) as int == j,
            actions@.len() <= i,
            forall|j: int|
                0 <= j < actions@.len() ==> {
                    let pr = (#[trigger] actions@[j]);
                    &&& (pr.0 as int) < i
                    &&& !env.forbidden_sp(pr.0 as int)
                    &&& pr.1 == share
                },
            forall|a: int|
                0 <= a < i && !env.forbidden_sp(a) ==> exists|j: int|
                    0 <= j < actions@.len() && ((#[trigger] actions@[j]).0 as int) == a,
            forall|j: int|
                0 <= j < actions@.len() ==> {
                    let k = pair_key_sp(
                        state as int,
                        ((#[trigger] actions@[j]).0) as int,
                    ) as u64;
                    &&& q.contains_sp(k)
                    &&& q.val_of(k).v == 0
                    &&& ret.contains_sp(k)
                    &&& ret.val_of(k)@.len() == 0
                },
            state_pairs_frame(state as int, *old(q), *q),
            state_pairs_frame(state as int, *old(ret), *ret),
        decreases n - i,
    {
        let a = available_actions[i];
        if !env.is_forbidden(a) {
            proof {
                assert(available_actions@[i as int] as int == i as int);
            }
            let ghost pre_actions = actions@;
            let ghost pre_q = *q;
            let ghost pre_r = *ret;
            actions.push((a as u64, share));
            let k = pair_key(state, a);
            q.insert(k, Fixed { v: 0 });
            ret.insert(k, Vec::new());
            proof {
                lemma_key_parts(state as int, a as int);
                assert forall|j: int|
                    0 <= j < actions@.len() implies {
                    let kj = pair_key_sp(
                        state as int,
                        ((#[trigger] actions@[j]).0) as int,
                    ) as u64;
                    &&& q.contains_sp(kj)
                    &&& q.val_of(kj).v == 0
                    &&& ret.contains_sp(kj)
                    &&& ret.val_of(kj)@.len() == 0
                } by {
                    let kj = pair_key_sp(state as int, (actions@[j].0) as int) as u64;
                    if j < pre_actions.len() {
                        assert(actions@[j] == pre_actions[j]);
                        assert((pre_actions[j].0 as int) < i as int);
                        assert(kj != k) by {
                            if kj == k {
                                crate::table::lemma_pair_key_injective(
                                    state as int,
                                    actions@[j].0 as int,
                                    state as int,
                                    a as int,
                                );
                            }
                        }
                        assert(q.contains_sp(kj) == pre_q.contains_sp(kj));
                        assert(q.val_of(kj) == pre_q.val_of(kj));
                        assert(ret.contains_sp(kj) == pre_r.contains_sp(kj));
                        assert(ret.val_of(kj) == pre_r.val_of(kj));
                    } else {
                        assert(actions@[j] == (a as u64, share));
                    }
                }
                assert forall|a2: int|
                    0 <= a2 < i + 1 && !env.forbidden_sp(a2) implies exists|j: int|
                    0 <= j < actions@.len() && ((#[trigger] actions@[j]).0 as int) == a2 by {
                    if a2 < i {
                        let j = choose|j: int|
                            0 <= j < pre_actions.len() && ((
                            #[trigger] pre_actions[j]).0 as int) == a2;
                        assert(actions@[j] == pre_actions[j]);
                    } else {
                        assert(actions@[actions@.len() - 1].0 as int == a2);
                    }
                }
                assert forall|k2: u64| key_state(k2) != state as int implies (
                #[trigger] q.contains_sp(k2)) == old(q).contains_sp(k2) && (old(q).contains_sp(
                    k2,
                ) ==> q.val_of(k2) == old(q).val_of(k2)) by {
                    assert(k2 != k);
                    assert(q.contains_sp(k2) == pre_q.contains_sp(k2));
                    if pre_q.contains_sp(k2) {
                        assert(q.val_of(k2) == pre_q.val_of(k2));
                    }
                }
                assert(state_pairs_frame(state as int, *old(q), *q));
                assert forall|k2: u64| key_state(k2) != state as int implies (
                #[trigger] ret.contains_sp(k2)) == old(ret).contains_sp(k2) && (old(
                    ret).contains_sp(k2) ==> ret.val_of(k2) == old(ret).val_of(k2)) by {
                    assert(k2 != k);
                    assert(pre_r.contains_sp(k2) == old(ret).contains_sp(k2));
                    if old(ret).contains_sp(k2) {
                        assert(pre_r.val_of(k2) == old(ret).val_of(k2));
                    }
                    assert(ret.contains_sp(k2) == pre_r.contains_sp(k2));
                    if pre_r.contains_sp(k2) {
                        assert(ret.val_of(k2) == pre_r.val_of(k2));
                    }
                }
                assert(state_pairs_frame(state as int, *old(ret), *ret));
            }
        }
        i += 1;
    }
    actions
}

impl MonteCarloControl {
    pub open spec fn wf(&self) -> bool {
        &&& soft_ok(self.policy)
        &&& self.q_values.wf()
        &&& self.return_lists.wf()
        &&& self.derived_policy.wf()
        &&& 0 <= self.epsilon.v <= FX_SCALE
    }

    pub fn new(epsilon: Fixed, gamma: Fixed) -> (r: MonteCarloControl)
        requires
            0 <= epsilon.v <= FX_SCALE,
        ensures
            r.wf(),
            r.epsilon == epsilon,
            r.gamma == gamma,
            r.policy.len_sp() == 0,
            r.q_values.len_sp() == 0,
            r.return_lists.len_sp() == 0,
            r.derived_policy.len_sp() == 0,
    {
        MonteCarloControl {
            epsilon,
            gamma,
            policy: Table::new(),
            q_values: Table::new(),
            return_lists: Table::new(),
            derived_policy: Table::new(),
        }
    }

    /// Lazily gives a state a uniform distribution over the
    /// non-forbidden nominal actions, zero-initializing the Q-estimate
    /// and return list of each such pair.
    #[verifier::rlimit(100)]
    #[verifier::spinoff_prover]
    pub fn ensure_policy_initialized<E: Environment>(&mut self, state: State, env: &mut E)
        requires
            old(self).wf(),
            old(env).inv(),
            state < 0x1_0000_0000,
        ensures
            final(self).wf(),
            *final(env) == *old(env),
            final(self).policy.contains_sp(state as u64),
            final(self).epsilon == old(self).epsilon,
            final(self).gamma == old(self).gamma,
            // A state already initialized is left exactly as it was.
            old(self).policy.contains_sp(state as u64) ==> *final(self) == *old(self),
            // A fresh state gets the uniform share over exactly the
            // non-forbidden nominal actions, each listed pair's
            // Q-estimate and return list zero-initialized, and no
            // other state's entries move.
            !old(self).policy.contains_sp(state as u64) ==> {
                let entry = final(self).policy.val_of(state as u64)@;
                &&& forall|j: int|
                    0 <= j < entry.len() ==> ((#[trigger] entry[j]).0 as int) < old(
                        env).n_actions() && !old(env).forbidden_sp(entry[j].0 as int)
                        && entry[j].1.v as int == fx_tdiv(FX_SCALE as int, old(env).n_actions())
                &&& forall|a: int|
                    0 <= a < old(env).n_actions() && !old(env).forbidden_sp(a) ==> exists|j: int|
                        0 <= j < entry.len() && ((#[trigger] entry[j]).0 as int) == a
                &&& forall|j: int|
                    0 <= j < entry.len() ==> {
                        let k = pair_key_sp(state as int, ((#[trigger] entry[j]).0) as int) as u64;
                        &&& final(self).q_values.contains_sp(k)
                        &&& final(self).q_values.val_of(k).v == 0
                        &&& final(self).return_lists.contains_sp(k)
                        &&& final(self).return_lists.val_of(k)@.len() == 0
                    }
                &&& forall|s2: u64|
                    s2 != state ==> (#[trigger] final(self).policy.contains_sp(s2)) == old(
                        self).policy.contains_sp(s2) && (old(self).policy.contains_sp(s2)
                        ==> final(self).policy.val_of(s2) == old(self).policy.val_of(s2))
                &&& state_pairs_frame(
                    state as int,
                    old(self).q_values,
                    final(self).q_values,
                )
                &&& state_pairs_frame(
                    state as int,
                    old(self).return_lists,
                    final(self).return_lists,
                )
            },
    {
        if !self.policy.contains_key(state as u64) {
            proof {
                env.space_properties();
            }
            let available_actions = env.all_action();
            let n = available_actions.len();
            let share = Fixed { v: FX_SCALE }.div_count(n as u64);
            proof {
                assert(0 <= fx_tdiv(FX_SCALE as int, n as int) <= FX_SCALE) by {
                    crate::fixed::lemma_tdiv_ordered(0, FX_SCALE as int, n as int);
                    crate::fixed::lemma_tdiv_ordered(FX_SCALE as int, FX_SCALE as int, 1);
                    assert(fx_tdiv(FX_SCALE as int, n as int) <= FX_SCALE as int)
                        by (nonlinear_arith)
                        requires n >= 1;
                }
            }
            let actions = seed_state_pairs(
                &mut self.q_values,
                &mut self.return_lists,
                env,
                state,
                &available_actions,
                share,
            );
            let ghost pre_policy = self.policy;
            self.policy.insert(state as u64, actions);
            proof {
                assert forall|i2: int|
                    0 <= i2 < self.policy.entries@.len() implies {
                    let en = (#[trigger] self.policy.entries@[i2]);
                    en.1@.len() <= 0x1_0000_0000 && forall|j: int|
                        0 <= j < en.1@.len() ==> (#[trigger] en.1@[j]).0 < 0x1_0000_0000 && 0 <= en.1@[j].1.v
                            <= FX_SCALE
                } by {
                    if pre_policy.contains_sp(state as u64) {
                        if i2 != pre_policy.idx_of(state as u64) {
                            assert(self.policy.entries@[i2] == pre_policy.entries@[i2]);
                        }
                    } else {
                        if i2 < self.policy.entries@.len() - 1 {
                            assert(self.policy.entries@[i2] == pre_policy.entries@[i2]);
                        }
                    }
                }
            }
        }
    }

    /// Draws an action from the state's soft distribution, restricted
    /// to the currently available, non-forbidden actions; weightless
    /// corner cases fall back to a uniformly random available action.
    pub fn choose_action_soft<E: Environment>(&mut self, state: State, env: &mut E) -> (r: Action)
        requires
            old(self).wf(),
            old(env).inv(),
            !old(env).over_sp(),
            state < 0x1_0000_0000,
        ensures
            final(self).wf(),
            *final(env) == *old(env),
            final(env).avail_sp(r as int),
            // The pick avoids forbidden actions whenever any available
            // action is admissible at all.
            !final(env).forbidden_sp(r as int) || (forall|a2: int|
                0 <= a2 < final(env).n_actions() && final(env).avail_sp(a2) ==> final(
                    env).forbidden_sp(a2)),
            final(self).epsilon == old(self).epsilon,
            final(self).gamma == old(self).gamma,
    {
        self.ensure_policy_initialized(state, env);
        let available_actions = env.available_actions();
        proof {
            env.space_properties();
        }
        let entry_idx = self.policy.find(state as u64);
        let mut acts: Vec<usize> = Vec::new();
        let mut weights: Vec<u64> = Vec::new();
        match entry_idx {
            Some(pi) => {
                let m = self.policy.entries[pi].1.len();
                let mut j: usize = 0;
                while j < m
                    invariant
                        pi < self.policy.entries@.len(),
                        m == self.policy.entries@[pi as int].1@.len(),
                        j <= m,
                        self.wf(),
                        env.inv(),
                        acts@.len() == weights@.len(),
                        weights@.len() <= j,
                        forall|x: int|
                            0 <= x < acts@.len() ==> env.avail_sp((#[trigger] acts@[x]) as int)
                                && !env.forbidden_sp(acts@[x] as int),
                        forall|x: int|
                            0 <= x < weights@.len() ==> (#[trigger] weights@[x]) <= FX_SCALE,
                        forall|x: int|
                            0 <= x < available_actions@.len() ==> env.avail_sp((
                            #[trigger] available_actions@[x]) as int),
                    decreases m - j,
                {
                    let (a64, prob) = self.policy.entries[pi].1[j];
                    let a = a64 as usize;
                    let mut present = false;
                    let alen = available_actions.len();
                    let mut x: usize = 0;
                    while x < alen
                        invariant
                            alen == available_actions@.len(),
                            x <= alen,
                            forall|y: int|
                                0 <= y < available_actions@.len() ==> env.avail_sp((
                                #[trigger] available_actions@[y]) as int),
                            present ==> env.avail_sp(a as int),
                        decreases alen - x,
                    {
                        if available_actions[x] == a {
                            present = true;
                        }
                        x += 1;
                    }
                    if present && !env.is_forbidden(a) && prob.v >= 0 {
                        acts.push(a);
                        weights.push(prob.v as u64);
                    }
                    j += 1;
                }
            },
            None => {},
        }
        let wlen = weights.len();
        let mut any_positive = false;
        let mut x: usize = 0;
        while x < wlen
            invariant
                wlen == weights@.len(),
                x <= wlen,
                any_positive ==> exists|y: int|
                    0 <= y < weights@.len() && (#[trigger] weights@[y]) > 0,
            decreases wlen - x,
        {
            if weights[x] > 0 {
                any_positive = true;
            }
            x += 1;
        }
        if wlen == 0 || !any_positive {
            return pick_available_admissible(env);
        }
        proof {
            lemma_u64_sum_bound(weights@, FX_SCALE as int);
            assert(weights@.len() * (FX_SCALE as int) <= 0xFFFF_FFFF_FFFF_FFFF)
                by (nonlinear_arith)
                requires weights@.len() <= 0x1_0000_0001;
        }
        let idx = pick_weighted(&weights);
        acts[idx]
    }

    /// Runs `num_episodes` rollouts of at most `max_steps` steps under
    /// the soft policy, processing each episode's backward pass and
    /// re-deriving the greedy policy.
    pub fn on_policy_mc_control<E: Environment>(
        &mut self,
        env: &mut E,
        num_episodes: usize,
        max_steps: usize,
    )
        requires
            old(self).wf(),
            old(env).inv(),
        ensures
            final(self).wf(),
            final(env).inv(),
            final(self).epsilon == old(self).epsilon,
            final(self).gamma == old(self).gamma,
            num_episodes > 0 ==> collapsed_from(
                final(self).policy,
                final(self).derived_policy,
            ),
    {
        let mut e: usize = 0;
        while e < num_episodes
            invariant
                self.wf(),
                env.inv(),
                self.epsilon == old(self).epsilon,
                self.gamma == old(self).gamma,
                e > 0 ==> collapsed_from(self.policy, self.derived_policy),
            decreases num_episodes - e,
        {
            let mut episode: Vec<EpisodeStep> = Vec::new();
            let mut state = env.reset();
            let mut done = env.is_game_over();
            let mut steps: usize = 0;
            while !done && steps < max_steps
                invariant
                    self.wf(),
                    env.inv(),
                    episode_ok(episode@),
                    self.epsilon == old(self).epsilon,
                    self.gamma == old(self).gamma,
                    state as int == env.state_sp(),
                    done == env.over_sp(),
                decreases max_steps - steps,
            {
                proof {
                    env.space_properties();
                }
                let action = self.choose_action_soft(state, env);
                let (next_state, reward, is_done) = env.step(action);
                proof {
                    env.space_properties();
                }
                episode.push(EpisodeStep { state, action, reward });
                state = next_state;
                done = is_done;
                steps += 1;
            }
            self.process_episode(episode);
            self.derive_and_assign_policy();
            e += 1;
        }
    }

    /// The backward credit-assignment pass: running-mean Q-estimates
    /// exactly as in exploring-starts control, then the epsilon-soft
    /// re-centring of each visited state's distribution on its greedy
    /// action.
    pub fn process_episode(&mut self, episode: Vec<EpisodeStep>)
        requires
            old(self).wf(),
            episode_ok(episode@),
        ensures
            final(self).wf(),
            final(self).epsilon == old(self).epsilon,
            final(self).gamma == old(self).gamma,
            forall|k: u64|
                !in_suffix(episode@, 0, k) ==> (#[trigger] final(self).q_values.contains_sp(k))
                    == old(self).q_values.contains_sp(k) && (old(self).q_values.contains_sp(k)
                    ==> final(self).q_values.val_of(k) == old(self).q_values.val_of(k)),
            forall|k: u64|
                #[trigger] in_suffix(episode@, 0, k) ==> {
                    let g = g_suffix(episode@, first_idx(episode@, k), old(self).gamma.v as int);
                    let base = if old(self).return_lists.contains_sp(k) {
                        old(self).return_lists.val_of(k)@
                    } else {
                        Seq::empty()
                    };
                    &&& final(self).return_lists.contains_sp(k)
                    &&& final(self).return_lists.val_of(k)@ =~= base.push(Fixed { v: g as i64 })
                    &&& final(self).q_values.contains_sp(k)
                    &&& final(self).q_values.val_of(k).v as int == fx_tdiv(
                        fx_sum(final(self).return_lists.val_of(k)@),
                        final(self).return_lists.val_of(k)@.len() as int,
                    )
                },
    {
        let visited = record_first_visit(
            &mut self.return_lists,
            &mut self.q_values,
            &episode,
            self.gamma,
        );
        let ghost q_after = self.q_values;
        let ghost ret_after = self.return_lists;
        let n = visited.len();
        let mut i: usize = 0;
        while i < n
            invariant
                n == visited@.len(),
                i <= n,
                self.wf(),
                self.q_values == q_after,
                self.return_lists == ret_after,
                self.epsilon == old(self).epsilon,
                self.gamma == old(self).gamma,
            decreases n - i,
        {
            let k = visited[i];
            let s = (k / 0x1_0000_0000u64) as usize;
            proof {
                crate::learning::lemma_key_recombine(k);
            }
            let best = best_action_for_state(&self.q_values, s);
            match best {
                Some(a) => {
                    self.update_policy(s, a as usize);
                },
                None => {},
            }
            i += 1;
        }
    }

    /// The epsilon-soft re-centring: in the state's distribution the
    /// greedy action gets `1 - epsilon + epsilon/|A|` and every other
    /// one `epsilon/|A|`. A state with no distribution is left alone.
    pub fn update_policy(&mut self, state: State, best_action: Action)
        requires
            old(self).wf(),
            state < 0x1_0000_0000,
            best_action < 0x1_0000_0000,
        ensures
            final(self).wf(),
            *final(self) == (MonteCarloControl { policy: final(self).policy, ..*old(self) }),
            !old(self).policy.contains_sp(state as u64) ==> final(self).policy == old(self).policy,
            old(self).policy.contains_sp(state as u64) && old(self).policy.val_of(
                state as u64,
            )@.len() == 0 ==> final(self).policy == old(self).policy,
            old(self).policy.contains_sp(state as u64) && old(self).policy.val_of(
                state as u64,
            )@.len() > 0 ==> {
                &&& final(self).policy.contains_sp(state as u64)
                &&& final(self).policy.val_of(state as u64)@ =~= recentred(
                    old(self).policy.val_of(state as u64)@,
                    best_action as int,
                    old(self).epsilon.v as int,
                )
            },
            forall|s2: u64|
                s2 != state ==> (#[trigger] final(self).policy.contains_sp(s2)) == old(
                    self).policy.contains_sp(s2) && (old(self).policy.contains_sp(s2) ==> final(
                    self).policy.val_of(s2) == old(self).policy.val_of(s2)),
    {
        let eps = self.epsilon;
        recentre_soft(&mut self.policy, state, best_action, eps);
    }

    /// Collapses the soft policy: per state with a non-empty
    /// distribution, the first action of maximal probability.
    pub fn derive_and_assign_policy(&mut self)
        requires
            old(self).wf(),
        ensures
            final(self).wf(),
            *final(self) == (MonteCarloControl {
                derived_policy: final(self).derived_policy,
                ..*old(self)
            }),
            collapsed_from(final(self).policy, final(self).derived_policy),
    {
        self.derived_policy = collapse_soft(&self.policy);
    }
}

} // verus!
