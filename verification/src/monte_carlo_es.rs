use vstd::prelude::*;
use crate::environment::Environment;
use crate::fixed::{Fixed, fx_tdiv};
use crate::learning::{
    best_action_for_state, best_of, derive_greedy_policy, episode_has_state, episode_ok, fx_sum,
    first_idx, g_suffix, greedy_over, in_suffix, key_state, keys_kept, lemma_best_of_some,
    lemma_key_parts, lemma_key_recombine, lemma_keys_kept_trans, qv_sp, record_first_visit,
    step_key, EpisodeStep,
};
use crate::rng::rand_below;
use crate::table::Table;

verus! {

/// Every pair visited in the episode has its state's policy entry
/// re-greedified against the Q-table.
pub open spec fn es_policy_updated(
    ep: Seq<EpisodeStep>,
    q: crate::table::Table<Fixed>,
    pol: crate::table::Table<u64>,
) -> bool {
    forall|k: u64|
        #[trigger] in_suffix(ep, 0, k) ==> pol.contains_sp((key_state(k)) as u64) && (best_of(
            q,
            key_state(k),
        ) matches Some(a) && pol.val_of((key_state(k)) as u64) == a)
}

/// States the episode never visits keep their policy entries.
pub open spec fn es_policy_frame(
    ep: Seq<EpisodeStep>,
    before: crate::table::Table<u64>,
    after: crate::table::Table<u64>,
) -> bool {
    forall|s2: u64|
        !episode_has_state(ep, s2 as int) ==> (#[trigger] after.contains_sp(s2))
            == before.contains_sp(s2) && (before.contains_sp(s2) ==> after.val_of(s2)
            == before.val_of(s2))
}

/// First-visit Monte-Carlo control with exploring starts: each episode
/// opens with a uniformly random action, then follows the greedy
/// policy; the backward pass turns sampled discounted returns into
/// running-mean Q-estimates.
pub struct MonteCarloESModel {
    pub num_episodes: usize,
    pub gamma: Fixed,
    pub max_steps: usize,
    pub policy: Table<u64>,
    pub q_values: Table<Fixed>,
    pub return_lists: Table<Vec<Fixed>>,
}

impl MonteCarloESModel {
    pub open spec fn wf(&self) -> bool {
        &&& self.policy.wf()
        &&& self.q_values.wf()
        &&& self.return_lists.wf()
    }

    pub fn new(num_episodes: usize, gamma: Fixed, max_steps: usize) -> (r: MonteCarloESModel)
        ensures
            r.wf(),
            r.num_episodes == num_episodes,
            r.gamma == gamma,
            r.max_steps == max_steps,
            r.policy.len_sp() == 0,
            r.q_values.len_sp() == 0,
            r.return_lists.len_sp() == 0,
    {
        MonteCarloESModel {
            num_episodes,
            gamma,
            max_steps,
            policy: Table::new(),
            q_values: Table::new(),
            return_lists: Table::new(),
        }
    }

    /// The backward credit-assignment pass: walking the episode from
    /// its end, the first visit of each pair appends the discounted
    /// return accumulated there to the pair's list, re-averages the
    /// pair's Q-estimate, and re-greedifies the visited state's policy
    /// entry. Pairs outside the episode keep list and estimate.
    #[verifier::rlimit(100)]
    #[verifier::spinoff_prover]
    pub fn process_episode(&mut self, episode: Vec<EpisodeStep>)
        requires
            old(self).wf(),
            episode_ok(episode@),
        ensures
            final(self).wf(),
            final(self).num_episodes == old(self).num_episodes,
            final(self).gamma == old(self).gamma,
            final(self).max_steps == old(self).max_steps,
            forall|k: u64|
                !in_suffix(episode@, 0, k) ==> (#[trigger] final(self).return_lists.contains_sp(k))
                    == old(self).return_lists.contains_sp(k) && (old(
                    self).return_lists.contains_sp(k) ==> final(self).return_lists.val_of(k)
                    == old(self).return_lists.val_of(k)),
            forall|k: u64|
                !in_suffix(episode@, 0, k) ==> (#[trigger] final(self).q_values.contains_sp(k))
                    == old(self).q_values.contains_sp(k) && (old(self).q_values.contains_sp(k)
                    ==> final(self).q_values.val_of(k) == old(self).q_values.val_of(k)),
            forall|k: u64|
                #[trigger] in_suffix(episode@, 0, k) ==> {
                    let g = g_suffix(episode@, first_idx(episode@, k), old(self).gamma.v as int);
                    let base = if old(self).return_lists.contains_sp(k) {
                        old(self).return_lists.val_of(k)@
                    } else {
                        Seq::empty()
                    };
                    &&& final(self).return_lists.contains_sp(k)
                    &&& final(self).return_lists.val_of(k)@ =~= base.push(Fixed { v: g as i64 })
                    &&& final(self).q_values.contains_sp(k)
                    &&& final(self).q_values.val_of(k).v as int == fx_tdiv(
                        fx_sum(final(self).return_lists.val_of(k)@),
                        final(self).return_lists.val_of(k)@.len() as int,
                    )
                },
            // Every visited state's policy entry is re-greedified
            // against the final estimates; untouched states keep their
            // entries.
            es_policy_updated(episode@, final(self).q_values, final(self).policy),
            es_policy_frame(episode@, old(self).policy, final(self).policy),
    {
        let visited = record_first_visit(
            &mut self.return_lists,
            &mut self.q_values,
            &episode,
            self.gamma,
        );
        let ghost q_after = self.q_values;
        let ghost ret_after = self.return_lists;
        let n = visited.len();
        let mut i: usize = 0;
        while i < n
            invariant
                n == visited@.len(),
                i <= n,
                self.wf(),
                self.q_values == q_after,
                self.return_lists == ret_after,
                self.num_episodes == old(self).num_episodes,
                self.gamma == old(self).gamma,
                self.max_steps == old(self).max_steps,
                episode_ok(episode@),
                forall|j: int|
                    0 <= j < visited@.len() ==> in_suffix(episode@, 0, #[trigger] visited@[j])
                        && self.q_values.contains_sp(visited@[j]),
                forall|k: u64|
                    #[trigger] in_suffix(episode@, 0, k) ==> exists|j: int|
                        0 <= j < visited@.len() && visited@[j] == k,
                forall|j: int|
                    0 <= j < i ==> {
                        let sj = key_state(#[trigger] visited@[j]);
                        &&& self.policy.contains_sp(sj as u64)
                        &&& (best_of(self.q_values, sj) matches Some(a) && self.policy.val_of(
                            sj as u64,
                        ) == a)
                    },
                es_policy_frame(episode@, old(self).policy, self.policy),
            decreases n - i,
        {
            let k = visited[i];
            proof {
                lemma_key_recombine(k);
                let ei = self.q_values.idx_of(k);
                lemma_best_of_some(
                    self.q_values,
                    key_state(k),
                    ei,
                    self.q_values.entries@.len() as int,
                );
            }
            let s = (k / 0x1_0000_0000u64) as usize;
            let best = best_action_for_state(&self.q_values, s);
            let ghost pre_p = self.policy;
            match best {
                Some(a) => {
                    self.policy.insert(s as u64, a);
                },
                None => {
                    proof {
                        assert(false);
                    }
                    self.policy.insert(s as u64, 0);
                },
            }
            proof {
                assert forall|j: int|
                    0 <= j < i + 1 implies {
                    let sj = key_state(#[trigger] visited@[j]);
                    &&& self.policy.contains_sp(sj as u64)
                    &&& (best_of(self.q_values, sj) matches Some(a) && self.policy.val_of(
                        sj as u64,
                    ) == a)
                } by {
                    let sj = key_state(visited@[j]);
                    if j < i && sj != key_state(k) {
                        assert(self.policy.contains_sp(sj as u64) == pre_p.contains_sp(sj as u64));
                        assert(self.policy.val_of(sj as u64) == pre_p.val_of(sj as u64));
                    }
                }
                assert forall|s2: u64| !episode_has_state(episode@, s2 as int) implies (
                #[trigger] self.policy.contains_sp(s2)) == old(self).policy.contains_sp(s2) && (old(
                    self).policy.contains_sp(s2) ==> self.policy.val_of(s2) == old(
                    self).policy.val_of(s2)) by {
                    assert(in_suffix(episode@, 0, k));
                    let x = choose|x: int|
                        0 <= x < episode@.len() && crate::learning::step_key(
                            #[trigger] episode@[x],
                        ) == k;
                    crate::learning::lemma_key_parts(
                        episode@[x].state as int,
                        episode@[x].action as int,
                    );
                    assert(episode@[x].state == s);
                    assert(s2 != s as u64) by {
                        if s2 == s as u64 {
                            assert(episode_has_state(episode@, s2 as int));
                        }
                    }
                    assert(self.policy.contains_sp(s2) == pre_p.contains_sp(s2));
                    assert(pre_p.contains_sp(s2) == old(self).policy.contains_sp(s2));
                    if old(self).policy.contains_sp(s2) {
                        assert(self.policy.val_of(s2) == pre_p.val_of(s2));
                        assert(pre_p.val_of(s2) == old(self).policy.val_of(s2));
                    }
                }
                assert(es_policy_frame(episode@, old(self).policy, self.policy));
            }
            i += 1;
        }
        proof {
            assert forall|k: u64|
                #[trigger] in_suffix(episode@, 0, k) implies self.policy.contains_sp(
                (key_state(k)) as u64,
            ) && (best_of(self.q_values, key_state(k)) matches Some(a) && self.policy.val_of(
                (key_state(k)) as u64,
            ) == a) by {
                let j = choose|j: int| 0 <= j < visited@.len() && (#[trigger] visited@[j]) == k;
            }
            assert(es_policy_updated(episode@, self.q_values, self.policy));
        }
    }

    /// Runs `num_episodes` rollouts of at most `max_steps` steps from a
    /// random start, forcing the first action to be a uniformly random
    /// available one, and feeds each rollout to the backward pass.
    pub fn monte_carlo_es<E: Environment>(&mut self, env: &mut E)
        requires
            old(self).wf(),
            old(env).inv(),
        ensures
            final(self).wf(),
            final(env).inv(),
            final(self).num_episodes == old(self).num_episodes,
            final(self).gamma == old(self).gamma,
            final(self).max_steps == old(self).max_steps,
            // The tables never shrink: every pair and state entry that
            // training touched stays recorded.
            keys_kept(old(self).q_values, final(self).q_values),
            keys_kept(old(self).return_lists, final(self).return_lists),
            keys_kept(old(self).policy, final(self).policy),
    {
        let episodes = self.num_episodes;
        let cap = self.max_steps;
        let mut e: usize = 0;
        while e < episodes
            invariant
                self.wf(),
                env.inv(),
                self.num_episodes == old(self).num_episodes,
                self.gamma == old(self).gamma,
                self.max_steps == old(self).max_steps,
                keys_kept(old(self).q_values, self.q_values),
                keys_kept(old(self).return_lists, self.return_lists),
                keys_kept(old(self).policy, self.policy),
            decreases episodes - e,
        {
            env.random_state();
            let mut is_first_action = true;
            let mut trajectory: Vec<EpisodeStep> = Vec::new();
            let mut steps_count: usize = 0;
            while steps_count < cap
                invariant
                    self.wf(),
                    env.inv(),
                    episode_ok(trajectory@),
                    self.num_episodes == old(self).num_episodes,
                    self.gamma == old(self).gamma,
                    self.max_steps == old(self).max_steps,
                    keys_kept(old(self).q_values, self.q_values),
                    keys_kept(old(self).return_lists, self.return_lists),
                    keys_kept(old(self).policy, self.policy),
                decreases cap - steps_count,
            {
                if env.is_game_over() {
                    break ;
                }
                let state = env.state_id();
                proof {
                    env.space_properties();
                }
                let available_actions = env.available_actions();
                if !self.policy.contains_key(state as u64) {
                    let pick = available_actions[rand_below(
                        available_actions.len() as u64,
                    ) as usize];
                    let ghost pre_pol = self.policy;
                    self.policy.insert(state as u64, pick as u64);
                    proof {
                        assert forall|k2: u64| pre_pol.contains_sp(k2) implies
                            self.policy.contains_sp(k2) by {
                            if k2 != state as u64 {
                                assert(self.policy.contains_sp(k2) == pre_pol.contains_sp(k2));
                            }
                        }
                        lemma_keys_kept_trans(old(self).policy, pre_pol, self.policy);
                    }
                }
                let action: usize = if is_first_action {
                    is_first_action = false;
                    available_actions[rand_below(available_actions.len() as u64) as usize]
                } else {
                    let planned = self.policy.get_or(state as u64, 0);
                    let planned_act = planned as usize;
                    let mut found = false;
                    let mut j: usize = 0;
                    let m = available_actions.len();
                    while j < m
                        invariant
                            m == available_actions@.len(),
                            j <= m,
                            found ==> exists|x: int|
                                0 <= x < available_actions@.len() && (
                                #[trigger] available_actions@[x]) == planned_act,
                        decreases m - j,
                    {
                        if available_actions[j] == planned_act {
                            found = true;
                        }
                        j += 1;
                    }
                    if found {
                        planned_act
                    } else {
                        available_actions[rand_below(available_actions.len() as u64) as usize]
                    }
                };
                let (_new_state, reward, done) = env.step(action);
                trajectory.push(EpisodeStep { state, action, reward });
                steps_count += 1;
                if done {
                    break ;
                }
            }
            let ghost pre = *self;
            let ghost pre_traj = trajectory@;
            self.process_episode(trajectory);
            proof {
                assert forall|k: u64| pre.q_values.contains_sp(k) implies
                    self.q_values.contains_sp(k) by {
                    if !in_suffix(pre_traj, 0, k) {
                        assert(self.q_values.contains_sp(k) == pre.q_values.contains_sp(k));
                    }
                }
                assert forall|k: u64| pre.return_lists.contains_sp(k) implies
                    self.return_lists.contains_sp(k) by {
                    if !in_suffix(pre_traj, 0, k) {
                        assert(self.return_lists.contains_sp(k) == pre.return_lists.contains_sp(
                            k,
                        ));
                    }
                }
                assert forall|s2: u64| pre.policy.contains_sp(s2) implies
                    self.policy.contains_sp(s2) by {
                    if episode_has_state(pre_traj, s2 as int) {
                        let j = choose|j: int|
                            0 <= j < pre_traj.len() && (#[trigger] pre_traj[j]).state == s2 as int;
                        lemma_key_parts(pre_traj[j].state as int, pre_traj[j].action as int);
                        assert(step_key(pre_traj[j]) == step_key(pre_traj[j]));
                        assert(in_suffix(pre_traj, 0, step_key(pre_traj[j])));
                        assert(key_state(step_key(pre_traj[j])) == s2 as int);
                    } else {
                        assert(self.policy.contains_sp(s2) == pre.policy.contains_sp(s2));
                    }
                }
                lemma_keys_kept_trans(old(self).q_values, pre.q_values, self.q_values);
                lemma_keys_kept_trans(
                    old(self).return_lists,
                    pre.return_lists,
                    self.return_lists,
                );
                lemma_keys_kept_trans(old(self).policy, pre.policy, self.policy);
            }
            e += 1;
        }
    }

    /// The greedy policy read off the accumulated Q-table.
    pub fn derive_policy(&self) -> (r: Table<u64>)
        requires
            self.wf(),
        ensures
            r.wf(),
            forall|s: u64|
                #[trigger] r.contains_sp(s) <==> exists|i: int|
                    0 <= i < self.q_values.entries@.len() && key_state(
                        #[trigger] self.q_values.entries@[i].0,
                    ) == s as int,
            forall|s: u64| #[trigger] r.contains_sp(s) ==> 0 <= r.val_of(s) < 0x1_0000_0000,
            forall|i: int|
                0 <= i < self.q_values.entries@.len() ==> (
                #[trigger] self.q_values.entries@[i]).1.v as int <= qv_sp(
                    self.q_values,
                    key_state(self.q_values.entries@[i].0),
                    r.val_of((key_state(self.q_values.entries@[i].0)) as u64) as int,
                ),
            greedy_over(self.q_values, r),
    {
        derive_greedy_policy(&self.q_values)
    }
}

} // verus!
