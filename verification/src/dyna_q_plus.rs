use vstd::prelude::*;
use crate::environment::{Action, Environment, State};
use crate::fixed::{Fixed, FX_SCALE, fx_add_sp, fx_mul_sp, is_isqrt, fx_sqrt_count};
use crate::fixed::lemma_isqrt_monotone;
use crate::learning::{
    epsilon_greedy, greedy_over, key_state, key_action, keys_kept, lemma_key_recombine,
    lemma_keys_kept_trans, max_q_sp, max_q_value, q_update, q_update_sp, qv_sp,
    derive_greedy_policy, MAX_EPISODE_STEPS,
};
use crate::learning::lemma_key_parts;
use crate::dyna_q::model_ok;
use crate::rng::rand_below;
use crate::table::{Table, pair_key, pair_key_sp};

verus! {

/// The raw fixed-point square root of a bare count: the unique `r` with
/// `r^2 <= tau * FX_SCALE^2 < (r+1)^2`.
pub open spec fn fx_sqrt_sp(tau: int) -> int {
    choose|r: int| #[trigger] is_isqrt(tau * 1_000_000 * 1_000_000, r)
}

pub proof fn lemma_isqrt_unique(n: int, r1: int, r2: int)
    requires
        n >= 0,
        is_isqrt(n, r1),
        is_isqrt(n, r2),
    ensures
        r1 == r2,
{
    lemma_isqrt_monotone(n, r1, n, r2);
    lemma_isqrt_monotone(n, r2, n, r1);
}

/// The Dyna-Q+ exploration bonus `kappa * sqrt(tau)` of a recency
/// count `tau`.
pub open spec fn bonus_sp(kappa: int, tau: int) -> int {
    fx_mul_sp(kappa, fx_sqrt_sp(tau))
}

/// The exploration bonus of a pair untried for `tau` steps.
pub fn exploration_bonus(kappa: Fixed, tau: u64) -> (r: Fixed)
    requires
        kappa.v >= 0,
    ensures
        r.v as int == bonus_sp(kappa.v as int, tau as int),
        r.v >= 0,
{
    let root = fx_sqrt_count(tau);
    proof {
        assert(is_isqrt(tau as int * 1_000_000 * 1_000_000, fx_sqrt_sp(tau as int))) by {
            assert(is_isqrt(tau as int * 1_000_000 * 1_000_000, root.v as int));
        }
        lemma_isqrt_unique(tau as int * 1_000_000 * 1_000_000, root.v as int, fx_sqrt_sp(
            tau as int,
        ));
        assert(tau as int * 1_000_000 * 1_000_000 >= 0) by (nonlinear_arith);
        assert(kappa.v as int * root.v as int >= 0) by (nonlinear_arith)
            requires kappa.v >= 0 && root.v >= 0;
    }
    kappa.mul(root)
}

/// The exploration bonus is non-negative and does not fall while a
/// pair stays untried: a larger recency count never gets a smaller
/// bonus.
pub proof fn lemma_exploration_bonus_monotone(kappa: int, tau1: int, tau2: int)
    requires
        kappa >= 0,
        0 <= tau1 <= tau2,
        tau2 <= 0xFFFF_FFFF_FFFF_FFFF,
    ensures
        0 <= bonus_sp(kappa, tau1) <= bonus_sp(kappa, tau2),
{
    let n1 = tau1 * 1_000_000 * 1_000_000;
    let n2 = tau2 * 1_000_000 * 1_000_000;
    assert(0 <= tau1 * 1_000_000 * 1_000_000 <= tau2 * 1_000_000 * 1_000_000) by (nonlinear_arith)
        requires 0 <= tau1 <= tau2;
    assert(is_isqrt(n1, fx_sqrt_sp(tau1)) && is_isqrt(n2, fx_sqrt_sp(tau2))) by {
        lemma_isqrt_exists(n1);
        lemma_isqrt_exists(n2);
    }
    let r1 = fx_sqrt_sp(tau1);
    let r2 = fx_sqrt_sp(tau2);
    lemma_isqrt_monotone(n1, r1, n2, r2);
    assert(0 <= kappa * r1 <= kappa * r2) by (nonlinear_arith)
        requires kappa >= 0 && 0 <= r1 <= r2;
    crate::fixed::lemma_tdiv_ordered(kappa * r1, kappa * r2, 1_000_000);
}

proof fn lemma_isqrt_exists(n: int)
    requires
        n >= 0,
    ensures
        exists|r: int| #[trigger] is_isqrt(n, r),
    decreases n,
{
    if n == 0 {
        assert(is_isqrt(0, 0));
    } else {
        lemma_isqrt_exists(n - 1);
        let r = choose|r: int| #[trigger] is_isqrt(n - 1, r);
        if (r + 1) * (r + 1) > n {
            assert(is_isqrt(n, r));
        } else {
            assert((r + 1) * (r + 1) == n) by (nonlinear_arith)
                requires r * r <= n - 1 && (r + 1) * (r + 1) > n - 1 && (r + 1) * (r + 1) <= n;
            assert(is_isqrt(n, r + 1)) by (nonlinear_arith)
                requires (r + 1) * (r + 1) == n && r >= 0;
        }
    }
}

/// Dyna-Q with an exploration bonus: a recency counter per pair feeds
/// `kappa * sqrt(tau)` into each planning backup's reward, favouring
/// pairs the real agent has not tried lately.
pub struct DynaQPlusModel {
    pub iterations: usize,
    pub gamma: Fixed,
    pub alpha: Fixed,
    pub epsilon: Fixed,
    pub planning_steps: usize,
    pub kappa: Fixed,
    pub q_values: Table<Fixed>,
    pub model: Table<(Fixed, u64)>,
    pub time_since_last_action: Table<u64>,
    pub policy: Table<u64>,
}

impl DynaQPlusModel {
    pub open spec fn wf(&self) -> bool {
        &&& self.q_values.wf()
        &&& model_ok(self.model)
        &&& self.time_since_last_action.wf()
        &&& self.policy.wf()
        &&& 0 <= self.epsilon.v <= FX_SCALE
        &&& self.kappa.v >= 0
    }

    pub fn new(
        iterations: usize,
        gamma: Fixed,
        alpha: Fixed,
        epsilon: Fixed,
        planning_steps: usize,
        kappa: Fixed,
    ) -> (r: DynaQPlusModel)
        requires
            0 <= epsilon.v <= FX_SCALE,
            kappa.v >= 0,
        ensures
            r.wf(),
            r.iterations == iterations,
            r.gamma == gamma,
            r.alpha == alpha,
            r.epsilon == epsilon,
            r.planning_steps == planning_steps,
            r.kappa == kappa,
            r.q_values.len_sp() == 0,
            r.model.len_sp() == 0,
            r.time_since_last_action.len_sp() == 0,
            r.policy.len_sp() == 0,
    {
        DynaQPlusModel {
            iterations,
            gamma,
            alpha,
            epsilon,
            planning_steps,
            kappa,
            q_values: Table::new(),
            model: Table::new(),
            time_since_last_action: Table::new(),
            policy: Table::new(),
        }
    }

    /// Ticks the recency counter of every listed pair by exactly one
    /// (saturating at the counter's ceiling); every other pair's
    /// counter is untouched.
    pub fn update_time_since_last_action(&mut self, state: State, actions: &Vec<Action>)
        requires
            old(self).wf(),
            state < 0x1_0000_0000,
            forall|i: int| 0 <= i < actions@.len() ==> (#[trigger] actions@[i]) < 0x1_0000_0000,
            forall|i: int, j: int| 0 <= i < j < actions@.len() ==> actions@[i] != actions@[j],
        ensures
            final(self).wf(),
            *final(self) == (DynaQPlusModel {
                time_since_last_action: final(self).time_since_last_action,
                ..*old(self)
            }),
            forall|i: int|
                0 <= i < actions@.len() ==> {
                    let k = pair_key_sp(state as int, (#[trigger] actions@[i]) as int) as u64;
                    let before = if old(self).time_since_last_action.contains_sp(k) {
                        old(self).time_since_last_action.val_of(k)
                    } else {
                        0
                    };
                    &&& final(self).time_since_last_action.contains_sp(k)
                    &&& final(self).time_since_last_action.val_of(k) == if before
                        < 0xFFFF_FFFF_FFFF_FFFF {
                        (before + 1) as u64
                    } else {
                        before
                    }
                },
            forall|k: u64|
                (forall|i: int|
                    0 <= i < actions@.len() ==> k != pair_key_sp(
                        state as int,
                        (#[trigger] actions@[i]) as int,
                    )) ==> (#[trigger] final(self).time_since_last_action.contains_sp(k)) == old(
                    self).time_since_last_action.contains_sp(k) && (old(
                    self).time_since_last_action.contains_sp(k) ==> final(
                    self).time_since_last_action.val_of(k) == old(
                    self).time_since_last_action.val_of(k)),
    {
        let n = actions.len();
        let mut i: usize = 0;
        while i < n
            invariant
                n == actions@.len(),
                i <= n,
                self.wf(),
                state < 0x1_0000_0000,
                forall|j: int| 0 <= j < actions@.len() ==> (#[trigger] actions@[j]) < 0x1_0000_0000,
                forall|x: int, j: int| 0 <= x < j < actions@.len() ==> actions@[x] != actions@[j],
                *self == (DynaQPlusModel {
                    time_since_last_action: self.time_since_last_action,
                    ..*old(self)
                }),
                forall|j: int|
                    0 <= j < i ==> {
                        let k = pair_key_sp(state as int, (#[trigger] actions@[j]) as int) as u64;
                        let before = if old(self).time_since_last_action.contains_sp(k) {
                            old(self).time_since_last_action.val_of(k)
                        } else {
                            0
                        };
                        &&& self.time_since_last_action.contains_sp(k)
                        &&& self.time_since_last_action.val_of(k) == if before
                            < 0xFFFF_FFFF_FFFF_FFFF {
                            (before + 1) as u64
                        } else {
                            before
                        }
                    },
                forall|k: u64|
                    (forall|j: int|
                        0 <= j < i ==> k != pair_key_sp(
                            state as int,
                            (#[trigger] actions@[j]) as int,
                        )) ==> (#[trigger] self.time_since_last_action.contains_sp(k)) == old(
                        self).time_since_last_action.contains_sp(k) && (old(
                        self).time_since_last_action.contains_sp(k)
                        ==> self.time_since_last_action.val_of(k) == old(
                        self).time_since_last_action.val_of(k)),
            decreases n - i,
        {
            let k = pair_key(state, actions[i]);
            proof {
                lemma_key_parts(state as int, actions@[i as int] as int);
                // untouched so far: no earlier action shares this key
                assert forall|j: int| 0 <= j < i implies k != pair_key_sp(
                    state as int,
                    (#[trigger] actions@[j]) as int,
                ) by {
                    if k == pair_key_sp(state as int, actions@[j] as int) {
                        crate::table::lemma_pair_key_injective(
                            state as int,
                            actions@[i as int] as int,
                            state as int,
                            actions@[j] as int,
                        );
                    }
                }
            }
            let t = self.time_since_last_action.get_or(k, 0);
            let bumped: u64 = if t < 0xFFFF_FFFF_FFFF_FFFF {
                t + 1
            } else {
                t
            };
            let ghost pre = self.time_since_last_action;
            self.time_since_last_action.insert(k, bumped);
            proof {
                assert forall|j: int|
                    0 <= j < i + 1 implies {
                    let kj = pair_key_sp(state as int, (#[trigger] actions@[j]) as int) as u64;
                    let before = if old(self).time_since_last_action.contains_sp(kj) {
                        old(self).time_since_last_action.val_of(kj)
                    } else {
                        0
                    };
                    &&& self.time_since_last_action.contains_sp(kj)
                    &&& self.time_since_last_action.val_of(kj) == if before
                        < 0xFFFF_FFFF_FFFF_FFFF {
                        (before + 1) as u64
                    } else {
                        before
                    }
                } by {
                    let kj = pair_key_sp(state as int, actions@[j] as int) as u64;
                    if j < i {
                        assert(kj != k) by {
                            if kj == k {
                                crate::table::lemma_pair_key_injective(
                                    state as int,
                                    actions@[j] as int,
                                    state as int,
                                    actions@[i as int] as int,
                                );
                            }
                        }
                        assert(self.time_since_last_action.contains_sp(kj) == pre.contains_sp(kj));
                        assert(pre.contains_sp(kj));
                        assert(self.time_since_last_action.val_of(kj) == pre.val_of(kj));
                    }
                }
                assert forall|k2: u64|
                    (forall|j: int|
                        0 <= j < i + 1 ==> k2 != pair_key_sp(
                            state as int,
                            (#[trigger] actions@[j]) as int,
                        )) implies (#[trigger] self.time_since_last_action.contains_sp(k2)) == old(
                    self).time_since_last_action.contains_sp(k2) && (old(
                    self).time_since_last_action.contains_sp(k2)
                    ==> self.time_since_last_action.val_of(k2) == old(
                    self).time_since_last_action.val_of(k2)) by {
                    assert(k2 != k);
                    assert(self.time_since_last_action.contains_sp(k2) == pre.contains_sp(k2));
                    if pre.contains_sp(k2) {
                        assert(self.time_since_last_action.val_of(k2) == pre.val_of(k2));
                    }
                }
            }
            i += 1;
        }
    }

    /// Marks one real step: every currently available pair's recency
    /// counter ticks by one (saturating), then the taken pair's is
    /// reset to exactly 0.
    #[verifier::rlimit(100)]
    #[verifier::spinoff_prover]
    pub fn note_real_step(&mut self, state: State, action: Action, actions: &Vec<Action>)
        requires
            old(self).wf(),
            state < 0x1_0000_0000,
            action < 0x1_0000_0000,
            forall|i: int| 0 <= i < actions@.len() ==> (#[trigger] actions@[i]) < 0x1_0000_0000,
            forall|i: int, j: int| 0 <= i < j < actions@.len() ==> actions@[i] != actions@[j],
        ensures
            final(self).wf(),
            *final(self) == (DynaQPlusModel {
                time_since_last_action: final(self).time_since_last_action,
                ..*old(self)
            }),
            final(self).time_since_last_action.contains_sp(
                pair_key_sp(state as int, action as int) as u64,
            ),
            final(self).time_since_last_action.val_of(
                pair_key_sp(state as int, action as int) as u64,
            ) == 0,
            // Every listed pair other than the taken one ticks by
            // exactly one (saturating at the ceiling) ...
            forall|i: int|
                0 <= i < actions@.len() && (#[trigger] actions@[i]) != action ==> {
                    let kj = pair_key_sp(state as int, actions@[i] as int) as u64;
                    let before = if old(self).time_since_last_action.contains_sp(kj) {
                        old(self).time_since_last_action.val_of(kj)
                    } else {
                        0
                    };
                    &&& final(self).time_since_last_action.contains_sp(kj)
                    &&& final(self).time_since_last_action.val_of(kj) == if before
                        < 0xFFFF_FFFF_FFFF_FFFF {
                        (before + 1) as u64
                    } else {
                        before
                    }
                },
            // ... and a pair neither taken nor listed is untouched.
            forall|k2: u64|
                (k2 != pair_key_sp(state as int, action as int) && forall|i: int|
                    0 <= i < actions@.len() ==> k2 != pair_key_sp(
                        state as int,
                        (#[trigger] actions@[i]) as int,
                    )) ==> (#[trigger] final(self).time_since_last_action.contains_sp(k2)) == old(
                    self).time_since_last_action.contains_sp(k2) && (old(
                    self).time_since_last_action.contains_sp(k2) ==> final(
                    self).time_since_last_action.val_of(k2) == old(
                    self).time_since_last_action.val_of(k2)),
    {
        self.update_time_since_last_action(state, actions);
        let k = pair_key(state, action);
        let ghost mid = self.time_since_last_action;
        self.time_since_last_action.insert(k, 0);
        proof {
            lemma_key_parts(state as int, action as int);
            assert forall|i: int|
                0 <= i < actions@.len() && (#[trigger] actions@[i]) != action implies {
                let kj = pair_key_sp(state as int, actions@[i] as int) as u64;
                let before = if old(self).time_since_last_action.contains_sp(kj) {
                    old(self).time_since_last_action.val_of(kj)
                } else {
                    0
                };
                &&& self.time_since_last_action.contains_sp(kj)
                &&& self.time_since_last_action.val_of(kj) == if before < 0xFFFF_FFFF_FFFF_FFFF {
                    (before + 1) as u64
                } else {
                    before
                }
            } by {
                let kj = pair_key_sp(state as int, actions@[i] as int) as u64;
                assert(kj != k) by {
                    if kj == k {
                        crate::table::lemma_pair_key_injective(
                            state as int,
                            actions@[i] as int,
                            state as int,
                            action as int,
                        );
                    }
                }
                assert(self.time_since_last_action.contains_sp(kj) == mid.contains_sp(kj));
                assert(mid.contains_sp(kj));
                assert(self.time_since_last_action.val_of(kj) == mid.val_of(kj));
            }
            assert forall|k2: u64|
                (k2 != pair_key_sp(state as int, action as int) && forall|i: int|
                    0 <= i < actions@.len() ==> k2 != pair_key_sp(
                        state as int,
                        (#[trigger] actions@[i]) as int,
                    )) implies (#[trigger] self.time_since_last_action.contains_sp(k2)) == old(
                self).time_since_last_action.contains_sp(k2) && (old(
                self).time_since_last_action.contains_sp(k2)
                ==> self.time_since_last_action.val_of(k2) == old(
                self).time_since_last_action.val_of(k2)) by {
                assert(k2 != k);
                assert(mid.contains_sp(k2) == old(self).time_since_last_action.contains_sp(k2));
                if old(self).time_since_last_action.contains_sp(k2) {
                    assert(mid.val_of(k2) == old(self).time_since_last_action.val_of(k2));
                }
                assert(self.time_since_last_action.contains_sp(k2) == mid.contains_sp(k2));
                if mid.contains_sp(k2) {
                    assert(self.time_since_last_action.val_of(k2) == mid.val_of(k2));
                }
            }
        }
    }

    /// One backup of the pair, toward `reward + gamma * max_next`.
    pub fn backup(&mut self, state: State, action: Action, reward: Fixed, max_next: Fixed)
        requires
            old(self).wf(),
            state < 0x1_0000_0000,
            action < 0x1_0000_0000,
        ensures
            final(self).wf(),
            *final(self) == (DynaQPlusModel { q_values: final(self).q_values, ..*old(self) }),
            qv_sp(final(self).q_values, state as int, action as int) == q_update_sp(
                qv_sp(old(self).q_values, state as int, action as int),
                old(self).alpha.v as int,
                old(self).gamma.v as int,
                reward.v as int,
                max_next.v as int,
            ),
            keys_kept(old(self).q_values, final(self).q_values),
    {
        let k = pair_key(state, action);
        let q0 = self.q_values.get_or(k, Fixed { v: 0 });
        let nv = q_update(q0, self.alpha, self.gamma, reward, max_next);
        self.q_values.insert(k, nv);
        proof {
            assert forall|k2: u64| old(self).q_values.contains_sp(k2) implies
                self.q_values.contains_sp(k2) by {
                if k2 != k {
                    assert(self.q_values.contains_sp(k2) == old(self).q_values.contains_sp(k2));
                }
            }
        }
    }

    /// One planning backup from a recorded model entry: the sampled
    /// pair's estimate moves toward `(reward + kappa * sqrt(tau)) +
    /// gamma * max over `actions` of the next state's estimates`, with
    /// `tau` the pair's recency count (0 where none is recorded).
    pub fn planning_backup(&mut self, k: u64, rew: Fixed, nxt: u64, actions: &Vec<Action>)
        requires
            old(self).wf(),
            nxt < 0x1_0000_0000,
            actions@.len() > 0,
            forall|i: int| 0 <= i < actions@.len() ==> (#[trigger] actions@[i]) < 0x1_0000_0000,
        ensures
            final(self).wf(),
            *final(self) == (DynaQPlusModel { q_values: final(self).q_values, ..*old(self) }),
            qv_sp(final(self).q_values, key_state(k), key_action(k)) == q_update_sp(
                qv_sp(old(self).q_values, key_state(k), key_action(k)),
                old(self).alpha.v as int,
                old(self).gamma.v as int,
                fx_add_sp(
                    rew.v as int,
                    bonus_sp(
                        old(self).kappa.v as int,
                        (if old(self).time_since_last_action.contains_sp(k) {
                            old(self).time_since_last_action.val_of(k)
                        } else {
                            0
                        }) as int,
                    ),
                ),
                max_q_sp(old(self).q_values, nxt as int, actions@),
            ),
            keys_kept(old(self).q_values, final(self).q_values),
    {
        proof {
            lemma_key_recombine(k);
        }
        let s = (k / 0x1_0000_0000u64) as usize;
        let a = (k % 0x1_0000_0000u64) as usize;
        let tau = self.time_since_last_action.get_or(k, 0);
        let bonus = exploration_bonus(self.kappa, tau);
        let boosted = rew.add(bonus);
        let max_q_next = max_q_value(&self.q_values, nxt as usize, actions);
        self.backup(s, a, boosted, max_q_next);
    }

    /// `planning_steps` extra backups, each from a uniformly random
    /// recorded model entry, with the sampled pair's exploration bonus
    /// added to its reward.
    fn planning_phase(&mut self, actions: &Vec<Action>)
        requires
            old(self).wf(),
            actions@.len() > 0,
            forall|i: int| 0 <= i < actions@.len() ==> (#[trigger] actions@[i]) < 0x1_0000_0000,
        ensures
            final(self).wf(),
            *final(self) == (DynaQPlusModel { q_values: final(self).q_values, ..*old(self) }),
            keys_kept(old(self).q_values, final(self).q_values),
    {
        let rounds = self.planning_steps;
        let mut p: usize = 0;
        while p < rounds
            invariant
                self.wf(),
                *self == (DynaQPlusModel { q_values: self.q_values, ..*old(self) }),
                forall|i: int|
                    0 <= i < actions@.len() ==> (#[trigger] actions@[i]) < 0x1_0000_0000,
                actions@.len() > 0,
                keys_kept(old(self).q_values, self.q_values),
            decreases rounds - p,
        {
            let mlen = self.model.len();
            if mlen > 0 {
                let idx = rand_below(mlen as u64) as usize;
                let k = self.model.entries[idx].0;
                let (rew, nxt) = self.model.entries[idx].1;
                let ghost pre_q = self.q_values;
                self.planning_backup(k, rew, nxt, actions);
                proof {
                    lemma_keys_kept_trans(old(self).q_values, pre_q, self.q_values);
                }
            }
            p += 1;
        }
    }

    /// Runs `iterations` episodes: per real step a direct backup, a
    /// model write, a recency tick for the available pairs with a reset
    /// for the taken one, and a bonus-boosted planning phase.
    pub fn dyna_q_plus<E: Environment>(&mut self, env: &mut E)
        requires
            old(self).wf(),
            old(env).inv(),
        ensures
            final(self).wf(),
            final(env).inv(),
            final(self).gamma == old(self).gamma,
            final(self).alpha == old(self).alpha,
            final(self).epsilon == old(self).epsilon,
            final(self).kappa == old(self).kappa,
            final(self).iterations == old(self).iterations,
            final(self).planning_steps == old(self).planning_steps,
            keys_kept(old(self).q_values, final(self).q_values),
            keys_kept(old(self).model, final(self).model),
            greedy_over(final(self).q_values, final(self).policy),
    {
        let iters = self.iterations;
        let mut it: usize = 0;
        while it < iters
            invariant
                self.wf(),
                env.inv(),
                self.gamma == old(self).gamma,
                self.alpha == old(self).alpha,
                self.epsilon == old(self).epsilon,
                self.kappa == old(self).kappa,
                self.iterations == old(self).iterations,
                self.planning_steps == old(self).planning_steps,
                keys_kept(old(self).q_values, self.q_values),
                keys_kept(old(self).model, self.model),
            decreases iters - it,
        {
            let mut state = env.reset();
            let mut steps: usize = 0;
            while steps < MAX_EPISODE_STEPS
                invariant
                    self.wf(),
                    env.inv(),
                    self.gamma == old(self).gamma,
                    self.alpha == old(self).alpha,
                    self.epsilon == old(self).epsilon,
                    self.kappa == old(self).kappa,
                    self.iterations == old(self).iterations,
                    self.planning_steps == old(self).planning_steps,
                    state as int == env.state_sp(),
                    keys_kept(old(self).q_values, self.q_values),
                    keys_kept(old(self).model, self.model),
                decreases MAX_EPISODE_STEPS - steps,
            {
                if env.is_game_over() {
                    break ;
                }
                proof {
                    env.space_properties();
                }
                let actions = env.available_actions();
                let action = epsilon_greedy(&self.q_values, state, &actions, self.epsilon);
                let (next_state, reward, done) = env.step(action);
                proof {
                    env.space_properties();
                }
                let next_actions = env.available_actions();
                let max_q_next = if next_actions.len() > 0 {
                    max_q_value(&self.q_values, next_state, &next_actions)
                } else {
                    Fixed { v: 0 }
                };
                let ghost pre_q1 = self.q_values;
                self.backup(state, action, reward, max_q_next);
                proof {
                    lemma_keys_kept_trans(old(self).q_values, pre_q1, self.q_values);
                }
                let k = pair_key(state, action);
                let ghost pre_m = self.model;
                self.model.insert(k, (reward, next_state as u64));
                proof {
                    assert forall|i: int| 0 <= i < self.model.entries@.len() implies (
                    #[trigger] self.model.entries@[i]).1.1 < 0x1_0000_0000 by {
                        if self.model.entries@[i].0 == k {
                            self.model.lemma_idx(k, i);
                        }
                    }
                    assert forall|k2: u64| pre_m.contains_sp(k2) implies self.model.contains_sp(
                        k2,
                    ) by {
                        if k2 != k {
                            assert(self.model.contains_sp(k2) == pre_m.contains_sp(k2));
                        }
                    }
                    lemma_keys_kept_trans(old(self).model, pre_m, self.model);
                }
                self.note_real_step(state, action, &actions);
                let ghost pre_q2 = self.q_values;
                self.planning_phase(&actions);
                proof {
                    lemma_keys_kept_trans(old(self).q_values, pre_q2, self.q_values);
                }
                state = next_state;
                if done {
                    break ;
                }
                steps += 1;
            }
            it += 1;
        }
        self.derive_and_assign_policy();
    }

    /// The greedy policy read off the learned Q-table.
    pub fn derive_policy(&self) -> (r: Table<u64>)
        requires
            self.wf(),
        ensures
            r.wf(),
            forall|i: int|
                0 <= i < self.q_values.entries@.len() ==> (
                #[trigger] self.q_values.entries@[i]).1.v as int <= qv_sp(
                    self.q_values,
                    key_state(self.q_values.entries@[i].0),
                    r.val_of((key_state(self.q_values.entries@[i].0)) as u64) as int,
                ),
    {
        derive_greedy_policy(&self.q_values)
    }

    /// Recomputes and stores the greedy policy.
    pub fn derive_and_assign_policy(&mut self)
        requires
            old(self).wf(),
        ensures
            final(self).wf(),
            *final(self) == (DynaQPlusModel { policy: final(self).policy, ..*old(self) }),
            greedy_over(final(self).q_values, final(self).policy),
    {
        self.policy = derive_greedy_policy(&self.q_values);
    }
}

} // verus!
