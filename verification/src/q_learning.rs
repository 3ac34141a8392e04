use vstd::prelude::*;
use crate::environment::{Action, Environment, State};
use crate::fixed::{Fixed, FX_SCALE};
use crate::learning::{
    epsilon_greedy, greedy_over, key_state, keys_kept, max_q_value, q_update, q_update_sp, qv_sp,
    derive_greedy_policy, MAX_EPISODE_STEPS,
};
use crate::table::{Table, pair_key, pair_key_sp};

verus! {

/// Off-policy temporal-difference control: per transition, the taken
/// pair's estimate moves toward `reward + gamma * max_a' Q(s', a')`.
pub struct QLearning {
    pub iterations: usize,
    pub gamma: Fixed,
    pub alpha: Fixed,
    pub epsilon: Fixed,
    pub q_values: Table<Fixed>,
    pub policy: Table<u64>,
}

impl QLearning {
    pub open spec fn wf(&self) -> bool {
        &&& self.q_values.wf()
        &&& self.policy.wf()
        &&& 0 <= self.epsilon.v <= FX_SCALE
    }

    pub fn new(iterations: usize, gamma: Fixed, alpha: Fixed, epsilon: Fixed) -> (r: QLearning)
        requires
            0 <= epsilon.v <= FX_SCALE,
        ensures
            r.wf(),
            r.iterations == iterations,
            r.gamma == gamma,
            r.alpha == alpha,
            r.epsilon == epsilon,
            r.q_values.len_sp() == 0,
            r.policy.len_sp() == 0,
    {
        QLearning {
            iterations,
            gamma,
            alpha,
            epsilon,
            q_values: Table::new(),
            policy: Table::new(),
        }
    }

    /// One temporal-difference backup of the pair (state, action): its
    /// estimate becomes `q + alpha * (reward + gamma * max_next - q)`;
    /// every other pair keeps its estimate.
    pub fn apply_q_update(&mut self, state: State, action: Action, reward: Fixed, max_next: Fixed)
        requires
            old(self).wf(),
            state < 0x1_0000_0000,
            action < 0x1_0000_0000,
        ensures
            final(self).wf(),
            final(self).gamma == old(self).gamma,
            final(self).alpha == old(self).alpha,
            final(self).epsilon == old(self).epsilon,
            final(self).iterations == old(self).iterations,
            final(self).policy == old(self).policy,
            qv_sp(final(self).q_values, state as int, action as int) == q_update_sp(
                qv_sp(old(self).q_values, state as int, action as int),
                old(self).alpha.v as int,
                old(self).gamma.v as int,
                reward.v as int,
                max_next.v as int,
            ),
            forall|k: u64|
                k != pair_key_sp(state as int, action as int) ==> (#[trigger] final(
                    self).q_values.contains_sp(k)) == old(self).q_values.contains_sp(k) && (old(
                    self).q_values.contains_sp(k) ==> final(self).q_values.val_of(k) == old(
                    self).q_values.val_of(k)),
            keys_kept(old(self).q_values, final(self).q_values),
    {
        let k = pair_key(state, action);
        let q0 = self.q_values.get_or(k, Fixed { v: 0 });
        let nv = q_update(q0, self.alpha, self.gamma, reward, max_next);
        self.q_values.insert(k, nv);
        proof {
            assert forall|k2: u64| old(self).q_values.contains_sp(k2) implies
                self.q_values.contains_sp(k2) by {
                if k2 != k {
                    assert(self.q_values.contains_sp(k2) == old(self).q_values.contains_sp(k2));
                }
            }
        }
    }

    /// Runs `iterations` episodes of epsilon-greedy interaction, one
    /// backup per real step, then derives the greedy policy.
    pub fn q_learning<E: Environment>(&mut self, env: &mut E)
        requires
            old(self).wf(),
            old(env).inv(),
        ensures
            final(self).wf(),
            final(env).inv(),
            final(self).gamma == old(self).gamma,
            final(self).alpha == old(self).alpha,
            final(self).epsilon == old(self).epsilon,
            final(self).iterations == old(self).iterations,
            keys_kept(old(self).q_values, final(self).q_values),
            greedy_over(final(self).q_values, final(self).policy),
    {
        let iters = self.iterations;
        let mut it: usize = 0;
        while it < iters
            invariant
                self.wf(),
                env.inv(),
                self.gamma == old(self).gamma,
                self.alpha == old(self).alpha,
                self.epsilon == old(self).epsilon,
                self.iterations == old(self).iterations,
                keys_kept(old(self).q_values, self.q_values),
            decreases iters - it,
        {
            let mut state = env.reset();
            let mut steps: usize = 0;
            proof {
                env.space_properties();
            }
            while steps < MAX_EPISODE_STEPS
                invariant
                    self.wf(),
                    env.inv(),
                    self.gamma == old(self).gamma,
                    self.alpha == old(self).alpha,
                    self.epsilon == old(self).epsilon,
                    self.iterations == old(self).iterations,
                    state as int == env.state_sp(),
                    keys_kept(old(self).q_values, self.q_values),
                decreases MAX_EPISODE_STEPS - steps,
            {
                if env.is_game_over() {
                    break ;
                }
                proof {
                    env.space_properties();
                }
                let actions = env.available_actions();
                let action = epsilon_greedy(&self.q_values, state, &actions, self.epsilon);
                let (next_state, reward, done) = env.step(action);
                proof {
                    env.space_properties();
                }
                let next_actions = env.available_actions();
                let max_q_next = if next_actions.len() > 0 {
                    max_q_value(&self.q_values, next_state, &next_actions)
                } else {
                    Fixed { v: 0 }
                };
                let ghost pre_q = self.q_values;
                self.apply_q_update(state, action, reward, max_q_next);
                proof {
                    crate::learning::lemma_keys_kept_trans(
                        old(self).q_values,
                        pre_q,
                        self.q_values,
                    );
                }
                state = next_state;
                if done {
                    break ;
                }
                steps += 1;
            }
            it += 1;
        }
        self.derive_and_assign_policy();
    }

    /// The greedy policy read off the learned Q-table.
    pub fn derive_policy(&self) -> (r: Table<u64>)
        requires
            self.wf(),
        ensures
            r.wf(),
            forall|s: u64|
                #[trigger] r.contains_sp(s) <==> exists|i: int|
                    0 <= i < self.q_values.entries@.len() && key_state(
                        #[trigger] self.q_values.entries@[i].0,
                    ) == s as int,
            forall|s: u64| #[trigger] r.contains_sp(s) ==> 0 <= r.val_of(s) < 0x1_0000_0000,
            forall|i: int|
                0 <= i < self.q_values.entries@.len() ==> (
                #[trigger] self.q_values.entries@[i]).1.v as int <= qv_sp(
                    self.q_values,
                    key_state(self.q_values.entries@[i].0),
                    r.val_of((key_state(self.q_values.entries@[i].0)) as u64) as int,
                ),
    {
        derive_greedy_policy(&self.q_values)
    }

    /// Recomputes and stores the greedy policy.
    pub fn derive_and_assign_policy(&mut self)
        requires
            old(self).wf(),
        ensures
            final(self).wf(),
            *final(self) == (QLearning { policy: final(self).policy, ..*old(self) }),
            forall|i: int|
                0 <= i < final(self).q_values.entries@.len() ==> (
                #[trigger] final(self).q_values.entries@[i]).1.v as int <= qv_sp(
                    final(self).q_values,
                    key_state(final(self).q_values.entries@[i].0),
                    final(self).policy.val_of(
                        (key_state(final(self).q_values.entries@[i].0)) as u64,
                    ) as int,
                ),
            greedy_over(final(self).q_values, final(self).policy),
    {
        self.policy = derive_greedy_policy(&self.q_values);
    }
}

} // verus!
