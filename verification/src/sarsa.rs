use vstd::prelude::*;
use crate::environment::{Action, Environment, State};
use crate::fixed::{Fixed, FX_SCALE};
use crate::learning::{q_update, q_update_sp};
use crate::rng::rand_below;
use crate::tools::fx_zeros;

verus! {

/// On-policy temporal-difference control over a dense `[state][action]`
/// value table: per transition, the taken pair's estimate moves toward
/// `reward + gamma * Q(s', a')` for the next pair actually chosen.
pub struct SarsaModel {
    pub alpha: Fixed,
    pub gamma: Fixed,
    pub epsilon: Fixed,
    pub nb_episode: usize,
    pub num_states: usize,
    pub num_actions: usize,
    pub policy: Vec<Action>,
    pub q_values: Vec<Vec<Fixed>>,
}

impl SarsaModel {
    pub open spec fn wf(&self) -> bool {
        &&& 2 <= self.num_states <= 0x1_0000_0000
        &&& 1 <= self.num_actions <= 0x1_0000_0000
        &&& self.policy@.len() == self.num_states
        &&& self.q_values@.len() == self.num_states
        &&& forall|s: int|
            0 <= s < self.num_states ==> (#[trigger] self.q_values@[s])@.len() == self.num_actions
        &&& 0 <= self.epsilon.v <= FX_SCALE
    }

    /// Sizes the dense table from the environment: uniform-random
    /// values in [0, 1) for every pair, exact zeros on terminal states.
    pub fn new<E: Environment>(
        env: &mut E,
        alpha: Fixed,
        gamma: Fixed,
        epsilon: Fixed,
        nb_episode: usize,
    ) -> (r: SarsaModel)
        requires
            old(env).inv(),
            0 <= epsilon.v <= FX_SCALE,
        ensures
            r.wf(),
            *final(env) == *old(env),
            r.alpha == alpha,
            r.gamma == gamma,
            r.epsilon == epsilon,
            r.nb_episode == nb_episode,
            r.num_states == old(env).n_states(),
            r.num_actions == old(env).n_actions(),
    {
        proof {
            env.space_properties();
        }
        let states = env.all_states();
        let actions = env.all_action();
        let ns = states.len();
        let na = actions.len();
        let mut q_values: Vec<Vec<Fixed>> = Vec::new();
        let mut s: usize = 0;
        while s < ns
            invariant
                s <= ns,
                q_values@.len() == s,
                forall|x: int| 0 <= x < s ==> (#[trigger] q_values@[x])@.len() == na,
            decreases ns - s,
        {
            let mut row: Vec<Fixed> = Vec::new();
            let mut a: usize = 0;
            while a < na
                invariant
                    a <= na,
                    row@.len() == a,
                decreases na - a,
            {
                row.push(Fixed { v: rand_below(FX_SCALE as u64) as i64 });
                a += 1;
            }
            q_values.push(row);
            s += 1;
        }
        let terminal = env.terminal_states();
        let zeros = fx_zeros(na);
        let mut t: usize = 0;
        while t < terminal.len()
            invariant
                t <= terminal@.len(),
                q_values@.len() == ns,
                ns == old(env).n_states(),
                zeros@.len() == na,
                forall|x: int|
                    0 <= x < terminal@.len() ==> ((#[trigger] terminal@[x]) as int) < ns,
                forall|x: int| 0 <= x < ns ==> (#[trigger] q_values@[x])@.len() == na,
            decreases terminal@.len() - t,
        {
            let ts = terminal[t];
            q_values[ts] = crate::nn_struct::copy_fixed_row(&zeros);
            t += 1;
        }
        let mut policy: Vec<usize> = Vec::new();
        let mut p: usize = 0;
        while p < ns
            invariant
                p <= ns,
                policy@.len() == p,
            decreases ns - p,
        {
            policy.push(0);
            p += 1;
        }
        SarsaModel {
            alpha,
            gamma,
            epsilon,
            nb_episode,
            num_states: ns,
            num_actions: na,
            policy,
            q_values,
        }
    }

    /// Epsilon-greedy over the available actions: a uniformly random
    /// one with probability `epsilon`, otherwise one maximizing the
    /// dense row of the current state.
    pub fn chose_action<E: Environment>(&mut self, env: &E, state: State) -> (r: Action)
        requires
            old(self).wf(),
            env.inv(),
            !env.over_sp(),
            env.n_states() == old(self).num_states,
            env.n_actions() == old(self).num_actions,
            (state as int) < old(self).num_states,
        ensures
            *final(self) == *old(self),
            env.avail_sp(r as int),
    {
        proof {
            env.space_properties();
        }
        let available_actions = env.available_actions();
        let draw = rand_below(FX_SCALE as u64);
        if self.epsilon.v > 0 && draw < self.epsilon.v as u64 {
            available_actions[rand_below(available_actions.len() as u64) as usize]
        } else {
            let m = available_actions.len();
            let mut best = available_actions[0];
            let mut best_v = self.q_values[state][best];
            let mut j: usize = 1;
            while j < m
                invariant
                    m == available_actions@.len(),
                    1 <= j <= m,
                    self.wf(),
                    env.inv(),
                    (state as int) < self.num_states,
                    env.n_actions() == self.num_actions,
                    forall|x: int|
                        0 <= x < available_actions@.len() ==> env.avail_sp((
                        #[trigger] available_actions@[x]) as int),
                    exists|x: int|
                        0 <= x < available_actions@.len() && (#[trigger] available_actions@[x])
                            == best,
                decreases m - j,
            {
                let a = available_actions[j];
                proof {
                    env.space_properties();
                }
                let v = self.q_values[state][a];
                if v.v > best_v.v {
                    best_v = v;
                    best = a;
                }
                j += 1;
            }
            best
        }
    }

    /// One dense-table backup of the pair (state, action).
    pub fn apply_update(
        &mut self,
        state: State,
        action: Action,
        reward: Fixed,
        next_value: Fixed,
    )
        requires
            old(self).wf(),
            (state as int) < old(self).num_states,
            (action as int) < old(self).num_actions,
        ensures
            final(self).wf(),
            *final(self) == (SarsaModel { q_values: final(self).q_values, ..*old(self) }),
            final(self).q_values@[state as int]@[action as int].v as int == q_update_sp(
                old(self).q_values@[state as int]@[action as int].v as int,
                old(self).alpha.v as int,
                old(self).gamma.v as int,
                reward.v as int,
                next_value.v as int,
            ),
            forall|s: int, a: int|
                0 <= s < old(self).num_states && 0 <= a < old(self).num_actions && !(s
                    == state as int && a == action as int) ==> (
                #[trigger] final(self).q_values@[s]@[a]) == old(self).q_values@[s]@[a],
    {
        let q0 = self.q_values[state][action];
        let updated = q_update(q0, self.alpha, self.gamma, reward, next_value);
        let mut row = crate::nn_struct::copy_fixed_row(&self.q_values[state]);
        row[action] = updated;
        self.q_values[state] = row;
    }

    /// Runs `nb_episode` episodes, forcing the environment through the
    /// tracked state before each step and pairing each transition with
    /// the next epsilon-greedy action. An episode ends at the last
    /// state index, after the same state repeats more than 20 times,
    /// or at the step cap.
    pub fn process_episode<E: Environment>(&mut self, env: &mut E) -> (r: Vec<Action>)
        requires
            old(self).wf(),
            old(env).inv(),
            old(env).n_states() == old(self).num_states,
            old(env).n_actions() == old(self).num_actions,
        ensures
            final(self).wf(),
            final(env).inv(),
            r@.len() == final(self).num_states,
            r@ =~= final(self).policy@,
            *final(self) == (SarsaModel {
                q_values: final(self).q_values,
                policy: final(self).policy,
                ..*old(self)
            }),
            forall|s: int, a: int|
                0 <= s < final(self).num_states && 0 <= a < final(self).num_actions ==> (
                #[trigger] final(self).q_values@[s]@[a]).v <= final(self).q_values@[s]@[final(
                    self).policy@[s] as int].v,
    {
        let episodes = self.nb_episode;
        let mut e: usize = 0;
        while e < episodes
            invariant
                self.wf(),
                env.inv(),
                env.n_states() == self.num_states,
                env.n_actions() == self.num_actions,
                *self == (SarsaModel {
                    q_values: self.q_values,
                    policy: self.policy,
                    ..*old(self)
                }),
            decreases episodes - e,
        {
            env.reset();
            if !env.is_game_over() {
                let start = env.state_id();
                proof {
                    env.space_properties();
                }
                let mut state: usize = start;
                let mut action = self.chose_action(env, state);
                let mut count: usize = 0;
                let mut steps: usize = 0;
                while steps < crate::learning::MAX_EPISODE_STEPS
                    invariant
                        self.wf(),
                        env.inv(),
                        env.n_states() == self.num_states,
                        env.n_actions() == self.num_actions,
                        (state as int) < self.num_states,
                        *self == (SarsaModel {
                            q_values: self.q_values,
                            policy: self.policy,
                            ..*old(self)
                        }),
                    decreases crate::learning::MAX_EPISODE_STEPS - steps,
                {
                    env.set_state(state);
                    if env.is_game_over() {
                        break ;
                    }
                    proof {
                        env.space_properties();
                    }
                    let avail = env.available_actions();
                    let mut ok = false;
                    let mut x: usize = 0;
                    while x < avail.len()
                        invariant
                            x <= avail@.len(),
                            forall|y: int|
                                0 <= y < avail@.len() ==> env.avail_sp((#[trigger] avail@[y]) as int),
                            ok ==> env.avail_sp(action as int),
                        decreases avail@.len() - x,
                    {
                        if avail[x] == action {
                            ok = true;
                        }
                        x += 1;
                    }
                    if !ok {
                        action = avail[rand_below(avail.len() as u64) as usize];
                    }
                    let (new_state, reward, _done) = env.step(action);
                    proof {
                        env.space_properties();
                    }
                    if env.is_game_over() {
                        let next_value = Fixed { v: 0 };
                        if (action as usize) < self.num_actions {
                            self.apply_update(state, action, reward, next_value);
                        }
                        break ;
                    }
                    let new_action = self.chose_action(env, new_state);
                    proof {
                        env.space_properties();
                    }
                    let next_value = if (new_action as usize) < self.num_actions {
                        self.q_values[new_state][new_action]
                    } else {
                        Fixed { v: 0 }
                    };
                    if (action as usize) < self.num_actions {
                        self.apply_update(state, action, reward, next_value);
                    }
                    if new_state == state {
                        count = if count < 100 {
                            count + 1
                        } else {
                            count
                        };
                    } else {
                        count = 0;
                    }
                    let stop = new_state == self.num_states - 1 || count > 20;
                    state = new_state;
                    action = new_action;
                    if stop {
                        break ;
                    }
                    steps += 1;
                }
            }
            e += 1;
        }
        self.derive_policy()
    }

    /// The greedy policy of the dense table: per state, the first
    /// action of maximal value.
    pub fn derive_policy(&mut self) -> (r: Vec<Action>)
        requires
            old(self).wf(),
        ensures
            final(self).wf(),
            *final(self) == (SarsaModel { policy: final(self).policy, ..*old(self) }),
            r@ =~= final(self).policy@,
            r@.len() == old(self).num_states,
            forall|s: int, a: int|
                0 <= s < old(self).num_states && 0 <= a < old(self).num_actions ==> (
                #[trigger] old(self).q_values@[s]@[a]).v <= old(self).q_values@[s]@[r@[s] as int].v,
    {
        let ns = self.num_states;
        let na = self.num_actions;
        let mut policy: Vec<usize> = Vec::new();
        let mut s: usize = 0;
        while s < ns
            invariant
                s <= ns,
                self.wf(),
                ns == self.num_states,
                na == self.num_actions,
                policy@.len() == s,
                forall|x: int, a: int|
                    0 <= x < s && 0 <= a < na ==> (#[trigger] self.q_values@[x]@[a]).v
                        <= self.q_values@[x]@[policy@[x] as int].v,
                forall|x: int| 0 <= x < s ==> (#[trigger] policy@[x]) < na,
            decreases ns - s,
        {
            let mut best: usize = 0;
            let mut best_v = self.q_values[s][0];
            let mut a: usize = 1;
            while a < na
                invariant
                    s < ns,
                    1 <= a <= na,
                    self.wf(),
                    ns == self.num_states,
                    na == self.num_actions,
                    best < na,
                    best_v == self.q_values@[s as int]@[best as int],
                    forall|x: int|
                        0 <= x < a ==> (#[trigger] self.q_values@[s as int]@[x]).v <= best_v.v,
                decreases na - a,
            {
                let v = self.q_values[s][a];
                if v.v > best_v.v {
                    best_v = v;
                    best = a;
                }
                a += 1;
            }
            policy.push(best);
            s += 1;
        }
        self.policy = policy;
        let out = crate::nn_struct::copy_usize_vec(&self.policy);
        out
    }

    /// The dense policy as a state-keyed map.
    pub fn policy_to_hashmap(&self) -> (r: crate::table::Table<u64>)
        requires
            self.wf(),
        ensures
            r.wf(),
            r.len_sp() == self.policy@.len(),
            forall|i: int|
                0 <= i < self.policy@.len() ==> (#[trigger] r.entries@[i]) == (
                i as u64,
                self.policy@[i] as u64,
            ),
    {
        let n = self.policy.len();
        let mut out: crate::table::Table<u64> = crate::table::Table::new();
        let mut i: usize = 0;
        while i < n
            invariant
                n == self.policy@.len(),
                n <= 0x1_0000_0000,
                i <= n,
                out.entries@.len() == i,
                out.wf(),
                forall|x: int|
                    0 <= x < i ==> (#[trigger] out.entries@[x]) == (
                    x as u64,
                    self.policy@[x] as u64,
                ),
            decreases n - i,
        {
            proof {
                assert(forall|x: int|
                    0 <= x < out.entries@.len() ==> (#[trigger] out.entries@[x]).0 == x as u64);
                if out.contains_sp(i as u64) {
                    let w = choose|w: int|
                        0 <= w < out.entries@.len() && (#[trigger] out.entries@[w]).0 == i as u64;
                    assert(false);
                }
            }
            out.insert(i as u64, self.policy[i] as u64);
            i += 1;
        }
        out
    }
}

} // verus!
