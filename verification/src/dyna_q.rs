use vstd::prelude::*;
use crate::environment::{Action, Environment, State};
use crate::fixed::{Fixed, FX_SCALE};
use crate::learning::{
    epsilon_greedy, greedy_over, key_state, key_action, keys_kept, lemma_key_recombine,
    lemma_keys_kept_trans, max_q_value, q_update, q_update_sp, qv_sp, derive_greedy_policy,
    MAX_EPISODE_STEPS,
};
use crate::rng::rand_below;
use crate::table::{Table, pair_key, pair_key_sp};

verus! {

/// Entries of a learned deterministic model: the last observed reward
/// and next state of a pair.
pub open spec fn model_ok(m: Table<(Fixed, u64)>) -> bool {
    &&& m.wf()
    &&& forall|i: int| 0 <= i < m.entries@.len() ==> (#[trigger] m.entries@[i]).1.1 < 0x1_0000_0000
}

/// Direct Q-learning plus model-based planning replay: every real step
/// also records (state, action) -> (reward, next state), and each real
/// step is followed by `planning_steps` extra backups drawn from the
/// recorded model.
pub struct DynaQModel {
    pub iterations: usize,
    pub gamma: Fixed,
    pub alpha: Fixed,
    pub epsilon: Fixed,
    pub planning_steps: usize,
    pub q_values: Table<Fixed>,
    pub model: Table<(Fixed, u64)>,
    pub policy: Table<u64>,
}

impl DynaQModel {
    pub open spec fn wf(&self) -> bool {
        &&& self.q_values.wf()
        &&& model_ok(self.model)
        &&& self.policy.wf()
        &&& 0 <= self.epsilon.v <= FX_SCALE
    }

    pub fn new(
        iterations: usize,
        gamma: Fixed,
        alpha: Fixed,
        epsilon: Fixed,
        planning_steps: usize,
    ) -> (r: DynaQModel)
        requires
            0 <= epsilon.v <= FX_SCALE,
        ensures
            r.wf(),
            r.iterations == iterations,
            r.gamma == gamma,
            r.alpha == alpha,
            r.epsilon == epsilon,
            r.planning_steps == planning_steps,
            r.q_values.len_sp() == 0,
            r.model.len_sp() == 0,
            r.policy.len_sp() == 0,
    {
        DynaQModel {
            iterations,
            gamma,
            alpha,
            epsilon,
            planning_steps,
            q_values: Table::new(),
            model: Table::new(),
            policy: Table::new(),
        }
    }

    /// One backup of the pair, toward `reward + gamma * max_next`.
    pub fn backup(&mut self, state: State, action: Action, reward: Fixed, max_next: Fixed)
        requires
            old(self).wf(),
            state < 0x1_0000_0000,
            action < 0x1_0000_0000,
        ensures
            final(self).wf(),
            *final(self) == (DynaQModel { q_values: final(self).q_values, ..*old(self) }),
            qv_sp(final(self).q_values, state as int, action as int) == q_update_sp(
                qv_sp(old(self).q_values, state as int, action as int),
                old(self).alpha.v as int,
                old(self).gamma.v as int,
                reward.v as int,
                max_next.v as int,
            ),
            keys_kept(old(self).q_values, final(self).q_values),
    {
        let k = pair_key(state, action);
        let q0 = self.q_values.get_or(k, Fixed { v: 0 });
        let nv = q_update(q0, self.alpha, self.gamma, reward, max_next);
        self.q_values.insert(k, nv);
        proof {
            assert forall|k2: u64| old(self).q_values.contains_sp(k2) implies
                self.q_values.contains_sp(k2) by {
                if k2 != k {
                    assert(self.q_values.contains_sp(k2) == old(self).q_values.contains_sp(k2));
                }
            }
        }
    }

    /// `planning_steps` extra backups, each from a uniformly random
    /// recorded pair, using the model's reward and next state.
    fn planning_phase(&mut self, actions: &Vec<Action>)
        requires
            old(self).wf(),
            actions@.len() > 0,
            forall|i: int| 0 <= i < actions@.len() ==> (#[trigger] actions@[i]) < 0x1_0000_0000,
        ensures
            final(self).wf(),
            *final(self) == (DynaQModel { q_values: final(self).q_values, ..*old(self) }),
            keys_kept(old(self).q_values, final(self).q_values),
    {
        let rounds = self.planning_steps;
        let mut p: usize = 0;
        while p < rounds
            invariant
                self.wf(),
                *self == (DynaQModel { q_values: self.q_values, ..*old(self) }),
                forall|i: int|
                    0 <= i < actions@.len() ==> (#[trigger] actions@[i]) < 0x1_0000_0000,
                actions@.len() > 0,
                keys_kept(old(self).q_values, self.q_values),
            decreases rounds - p,
        {
            let mlen = self.model.len();
            if mlen > 0 {
                let idx = rand_below(mlen as u64) as usize;
                let k = self.model.entries[idx].0;
                let (rew, nxt) = self.model.entries[idx].1;
                proof {
                    lemma_key_recombine(k);
                }
                let s = (k / 0x1_0000_0000u64) as usize;
                let a = (k % 0x1_0000_0000u64) as usize;
                let max_q_next = max_q_value(&self.q_values, nxt as usize, actions);
                let ghost pre_q = self.q_values;
                self.backup(s, a, rew, max_q_next);
                proof {
                    lemma_keys_kept_trans(old(self).q_values, pre_q, self.q_values);
                }
            }
            p += 1;
        }
    }

    /// Runs `iterations` episodes of epsilon-greedy interaction with
    /// one direct backup, a model write and a planning phase per step.
    pub fn dyna_q<E: Environment>(&mut self, env: &mut E)
        requires
            old(self).wf(),
            old(env).inv(),
        ensures
            final(self).wf(),
            final(env).inv(),
            final(self).gamma == old(self).gamma,
            final(self).alpha == old(self).alpha,
            final(self).epsilon == old(self).epsilon,
            final(self).iterations == old(self).iterations,
            final(self).planning_steps == old(self).planning_steps,
            keys_kept(old(self).q_values, final(self).q_values),
            keys_kept(old(self).model, final(self).model),
            final(self).policy == old(self).policy,
    {
        let iters = self.iterations;
        let mut it: usize = 0;
        while it < iters
            invariant
                self.wf(),
                env.inv(),
                self.gamma == old(self).gamma,
                self.alpha == old(self).alpha,
                self.epsilon == old(self).epsilon,
                self.iterations == old(self).iterations,
                self.planning_steps == old(self).planning_steps,
                keys_kept(old(self).q_values, self.q_values),
                keys_kept(old(self).model, self.model),
                self.policy == old(self).policy,
            decreases iters - it,
        {
            let mut state = env.reset();
            let mut steps: usize = 0;
            while steps < MAX_EPISODE_STEPS
                invariant
                    self.wf(),
                    env.inv(),
                    self.gamma == old(self).gamma,
                    self.alpha == old(self).alpha,
                    self.epsilon == old(self).epsilon,
                    self.iterations == old(self).iterations,
                    self.planning_steps == old(self).planning_steps,
                    state as int == env.state_sp(),
                    keys_kept(old(self).q_values, self.q_values),
                    keys_kept(old(self).model, self.model),
                    self.policy == old(self).policy,
                decreases MAX_EPISODE_STEPS - steps,
            {
                if env.is_game_over() {
                    break ;
                }
                proof {
                    env.space_properties();
                }
                let actions = env.available_actions();
                let action = epsilon_greedy(&self.q_values, state, &actions, self.epsilon);
                let (next_state, reward, done) = env.step(action);
                proof {
                    env.space_properties();
                }
                let next_actions = env.available_actions();
                let max_q_next = if next_actions.len() > 0 {
                    max_q_value(&self.q_values, next_state, &next_actions)
                } else {
                    Fixed { v: 0 }
                };
                let ghost pre_q1 = self.q_values;
                self.backup(state, action, reward, max_q_next);
                proof {
                    lemma_keys_kept_trans(old(self).q_values, pre_q1, self.q_values);
                }
                let k = pair_key(state, action);
                let ghost pre_m = self.model;
                self.model.insert(k, (reward, next_state as u64));
                proof {
                    assert forall|i: int| 0 <= i < self.model.entries@.len() implies (
                    #[trigger] self.model.entries@[i]).1.1 < 0x1_0000_0000 by {
                        if self.model.entries@[i].0 == k {
                            self.model.lemma_idx(k, i);
                        }
                    }
                    assert forall|k2: u64| pre_m.contains_sp(k2) implies self.model.contains_sp(
                        k2,
                    ) by {
                        if k2 != k {
                            assert(self.model.contains_sp(k2) == pre_m.contains_sp(k2));
                        }
                    }
                    lemma_keys_kept_trans(old(self).model, pre_m, self.model);
                }
                let ghost pre_q2 = self.q_values;
                self.planning_phase(&actions);
                proof {
                    lemma_keys_kept_trans(old(self).q_values, pre_q2, self.q_values);
                }
                state = next_state;
                if done {
                    break ;
                }
                steps += 1;
            }
            it += 1;
        }
    }

    /// The greedy policy read off the learned Q-table.
    pub fn derive_policy(&self) -> (r: Table<u64>)
        requires
            self.wf(),
        ensures
            r.wf(),
            forall|i: int|
                0 <= i < self.q_values.entries@.len() ==> (
                #[trigger] self.q_values.entries@[i]).1.v as int <= qv_sp(
                    self.q_values,
                    key_state(self.q_values.entries@[i].0),
                    r.val_of((key_state(self.q_values.entries@[i].0)) as u64) as int,
                ),
    {
        derive_greedy_policy(&self.q_values)
    }

    /// Recomputes and stores the greedy policy.
    pub fn derive_and_assign_policy(&mut self)
        requires
            old(self).wf(),
        ensures
            final(self).wf(),
            *final(self) == (DynaQModel { policy: final(self).policy, ..*old(self) }),
            greedy_over(final(self).q_values, final(self).policy),
    {
        self.policy = derive_greedy_policy(&self.q_values);
    }
}

} // verus!
