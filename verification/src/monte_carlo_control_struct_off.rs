use vstd::prelude::*;
use crate::environment::{Action, Environment, State};
use crate::fixed::{Fixed, FX_SCALE, fx_add_sp, fx_div_sp, fx_mul_sp, fx_sub_sp, fx_tdiv};
use crate::learning::{
    best_action_for_state, best_of, episode_ok, in_suffix, state_in_suffix, EpisodeStep,
};
use crate::monte_carlo_control_struct::{
    collapse_soft, collapsed_from, first_prob, pick_available_admissible, recentre_soft,
    recentred, soft_ok, soft_prob_lookup,
};
use crate::rng::{lemma_u64_sum_bound, pick_weighted, rand_below};
use crate::table::{Table, pair_key};

verus! {

/// Off-policy first-visit Monte-Carlo control with weighted importance
/// sampling: episodes are generated under the epsilon-soft behavior
/// policy, and the backward pass stops at the first step whose taken
/// action differs from the greedy target action.
pub struct MonteCarloControlOff {
    pub epsilon: Fixed,
    pub gamma: Fixed,
    pub derived_policy: Table<Vec<(u64, Fixed)>>,
    pub q_values: Table<Fixed>,
    pub c_values: Table<Fixed>,
    pub policy: Table<u64>,
}

/// Table `b` agrees with table `a` on every pair key not taken in
/// `ep[cut..]`: same presence, same value.
pub open spec fn tbl_preserved(a: Table<Fixed>, b: Table<Fixed>, ep: Seq<EpisodeStep>, cut: int) -> bool {
    forall|k: u64|
        !in_suffix(ep, cut, k) ==> (#[trigger] b.contains_sp(k)) == a.contains_sp(k) && (
        a.contains_sp(k) ==> b.val_of(k) == a.val_of(k))
}

/// Soft-policy table `b` agrees with `a` on every state not visited in
/// `ep[cut..]`: same presence, same distribution.
pub open spec fn soft_preserved(
    a: Table<Vec<(u64, Fixed)>>,
    b: Table<Vec<(u64, Fixed)>>,
    ep: Seq<EpisodeStep>,
    cut: int,
) -> bool {
    forall|s2: u64|
        !state_in_suffix(ep, cut, s2 as int) ==> (#[trigger] b.contains_sp(s2)) == a.contains_sp(
            s2,
        ) && (a.contains_sp(s2) ==> b.val_of(s2) == a.val_of(s2))
}

impl MonteCarloControlOff {
    pub open spec fn wf(&self) -> bool {
        &&& soft_ok(self.derived_policy)
        &&& self.q_values.wf()
        &&& self.c_values.wf()
        &&& self.policy.wf()
        &&& 0 <= self.epsilon.v <= FX_SCALE
        &&& forall|i: int| 0 <= i < self.c_values.entries@.len() ==> (#[trigger] self.c_values.entries@[i]).1.v >= 0
    }

    pub fn new(epsilon: Fixed, gamma: Fixed) -> (r: MonteCarloControlOff)
        requires
            0 <= epsilon.v <= FX_SCALE,
        ensures
            r.wf(),
            r.epsilon == epsilon,
            r.gamma == gamma,
            r.derived_policy.len_sp() == 0,
            r.q_values.len_sp() == 0,
            r.c_values.len_sp() == 0,
            r.policy.len_sp() == 0,
    {
        MonteCarloControlOff {
            epsilon,
            gamma,
            derived_policy: Table::new(),
            q_values: Table::new(),
            c_values: Table::new(),
            policy: Table::new(),
        }
    }

    /// Draws an action from the behavior policy's distribution for the
    /// state, lazily initialized to uniform over the available actions;
    /// weightless corner cases fall back to a uniformly random
    /// available action.
    pub fn choose_action_soft<E: Environment>(&mut self, env: &mut E, state: State) -> (r: Action)
        requires
            old(self).wf(),
            old(env).inv(),
            !old(env).over_sp(),
            state < 0x1_0000_0000,
        ensures
            final(self).wf(),
            *final(env) == *old(env),
            final(env).avail_sp(r as int),
            // The pick avoids forbidden actions whenever any available
            // action is admissible at all.
            !final(env).forbidden_sp(r as int) || (forall|a2: int|
                0 <= a2 < final(env).n_actions() && final(env).avail_sp(a2) ==> final(
                    env).forbidden_sp(a2)),
            final(self).epsilon == old(self).epsilon,
            final(self).gamma == old(self).gamma,
    {
        let available_actions = env.available_actions();
        proof {
            env.space_properties();
        }
        if !self.derived_policy.contains_key(state as u64) {
            proof {
                crate::learning::lemma_increasing_bounded(available_actions@, old(env).n_actions());
            }
            let n = available_actions.len();
            let share = Fixed { v: FX_SCALE }.div_count(n as u64);
            proof {
                crate::fixed::lemma_tdiv_ordered(0, FX_SCALE as int, n as int);
                assert(fx_tdiv(FX_SCALE as int, n as int) <= FX_SCALE as int) by (nonlinear_arith)
                    requires n >= 1;
            }
            let mut actions: Vec<(u64, Fixed)> = Vec::new();
            let mut i: usize = 0;
            while i < n
                invariant
                    n == available_actions@.len(),
                    i <= n,
                    self.q_values.wf(),
                    self.c_values.wf(),
                    forall|x: int|
                        0 <= x < self.c_values.entries@.len() ==> (
                        #[trigger] self.c_values.entries@[x]).1.v >= 0,
                    self.derived_policy == old(self).derived_policy,
                    self.policy == old(self).policy,
                    self.epsilon == old(self).epsilon,
                    self.gamma == old(self).gamma,
                    soft_ok(self.derived_policy),
                    env.inv(),
                    0 <= share.v <= FX_SCALE,
                    forall|j: int|
                        0 <= j < available_actions@.len() ==> ((
                        #[trigger] available_actions@[j]) as int) < env.n_actions(),
                    env.n_actions() <= 0x1_0000_0000,
                    state < 0x1_0000_0000,
                    actions@.len() <= i,
                    forall|j: int|
                        0 <= j < actions@.len() ==> {
                            let pr = (#[trigger] actions@[j]);
                            pr.0 < 0x1_0000_0000 && 0 <= pr.1.v <= FX_SCALE
                        },
                decreases n - i,
            {
                let a = available_actions[i];
                actions.push((a as u64, share));
                let k = pair_key(state, a);
                self.q_values.insert(k, Fixed { v: 0 });
                let ghost pre_c = self.c_values;
                self.c_values.insert(k, Fixed { v: 0 });
                proof {
                    assert forall|x: int|
                        0 <= x < self.c_values.entries@.len() implies (
                    #[trigger] self.c_values.entries@[x]).1.v >= 0 by {
                        if pre_c.contains_sp(k) {
                            if x != pre_c.idx_of(k) {
                                assert(self.c_values.entries@[x] == pre_c.entries@[x]);
                            }
                        } else {
                            if x < self.c_values.entries@.len() - 1 {
                                assert(self.c_values.entries@[x] == pre_c.entries@[x]);
                            }
                        }
                    }
                }
                i += 1;
            }
            let ghost pre_policy = self.derived_policy;
            self.derived_policy.insert(state as u64, actions);
            proof {
                assert forall|i2: int|
                    0 <= i2 < self.derived_policy.entries@.len() implies {
                    let en = (#[trigger] self.derived_policy.entries@[i2]);
                    en.1@.len() <= 0x1_0000_0000 && forall|j: int|
                        0 <= j < en.1@.len() ==> (#[trigger] en.1@[j]).0 < 0x1_0000_0000 && 0
                            <= en.1@[j].1.v <= FX_SCALE
                } by {
                    if pre_policy.contains_sp(state as u64) {
                        if i2 != pre_policy.idx_of(state as u64) {
                            assert(self.derived_policy.entries@[i2] == pre_policy.entries@[i2]);
                        }
                    } else {
                        if i2 < self.derived_policy.entries@.len() - 1 {
                            assert(self.derived_policy.entries@[i2] == pre_policy.entries@[i2]);
                        }
                    }
                }
            }
        }
        let entry_idx = self.derived_policy.find(state as u64);
        let mut acts: Vec<usize> = Vec::new();
        let mut weights: Vec<u64> = Vec::new();
        match entry_idx {
            Some(pi) => {
                let m = self.derived_policy.entries[pi].1.len();
                let mut j: usize = 0;
                while j < m
                    invariant
                        pi < self.derived_policy.entries@.len(),
                        m == self.derived_policy.entries@[pi as int].1@.len(),
                        j <= m,
                        self.wf(),
                        env.inv(),
                        acts@.len() == weights@.len(),
                        weights@.len() <= j,
                        forall|x: int|
                            0 <= x < acts@.len() ==> env.avail_sp((#[trigger] acts@[x]) as int)
                                && !env.forbidden_sp(acts@[x] as int),
                        forall|x: int|
                            0 <= x < weights@.len() ==> (#[trigger] weights@[x]) <= FX_SCALE,
                        forall|x: int|
                            0 <= x < available_actions@.len() ==> env.avail_sp((
                            #[trigger] available_actions@[x]) as int),
                    decreases m - j,
                {
                    let (a64, prob) = self.derived_policy.entries[pi].1[j];
                    let a = a64 as usize;
                    let mut present = false;
                    let alen = available_actions.len();
                    let mut x: usize = 0;
                    while x < alen
                        invariant
                            alen == available_actions@.len(),
                            x <= alen,
                            forall|y: int|
                                0 <= y < available_actions@.len() ==> env.avail_sp((
                                #[trigger] available_actions@[y]) as int),
                            present ==> env.avail_sp(a as int),
                        decreases alen - x,
                    {
                        if available_actions[x] == a {
                            present = true;
                        }
                        x += 1;
                    }
                    if present && !env.is_forbidden(a) && prob.v >= 0 {
                        acts.push(a);
                        weights.push(prob.v as u64);
                    }
                    j += 1;
                }
            },
            None => {},
        }
        let wlen = weights.len();
        let mut any_positive = false;
        let mut x: usize = 0;
        while x < wlen
            invariant
                wlen == weights@.len(),
                x <= wlen,
                any_positive ==> exists|y: int|
                    0 <= y < weights@.len() && (#[trigger] weights@[y]) > 0,
            decreases wlen - x,
        {
            if weights[x] > 0 {
                any_positive = true;
            }
            x += 1;
        }
        if wlen == 0 || !any_positive {
            return pick_available_admissible(env);
        }
        proof {
            lemma_u64_sum_bound(weights@, FX_SCALE as int);
            assert(weights@.len() * (FX_SCALE as int) <= 0xFFFF_FFFF_FFFF_FFFF)
                by (nonlinear_arith)
                requires weights@.len() <= 0x1_0000_0001;
        }
        let idx = pick_weighted(&weights);
        acts[idx]
    }

    /// Runs `num_episodes` rollouts of at most `max_steps` steps under
    /// the behavior policy, with the importance-sampling backward pass
    /// and a greedy re-derivation after each.
    pub fn off_policy_mc_control<E: Environment>(
        &mut self,
        env: &mut E,
        num_episodes: usize,
        max_steps: usize,
    )
        requires
            old(self).wf(),
            old(env).inv(),
        ensures
            final(self).wf(),
            final(env).inv(),
            final(self).epsilon == old(self).epsilon,
            final(self).gamma == old(self).gamma,
            num_episodes > 0 ==> collapsed_from(
                final(self).derived_policy,
                final(self).policy,
            ),
    {
        let mut e: usize = 0;
        while e < num_episodes
            invariant
                self.wf(),
                env.inv(),
                self.epsilon == old(self).epsilon,
                self.gamma == old(self).gamma,
                e > 0 ==> collapsed_from(self.derived_policy, self.policy),
            decreases num_episodes - e,
        {
            let mut episode: Vec<EpisodeStep> = Vec::new();
            let mut state = env.reset();
            let mut done = env.is_game_over();
            let mut steps: usize = 0;
            while !done && steps < max_steps
                invariant
                    self.wf(),
                    env.inv(),
                    episode_ok(episode@),
                    self.epsilon == old(self).epsilon,
                    self.gamma == old(self).gamma,
                    state as int == env.state_sp(),
                    done == env.over_sp(),
                decreases max_steps - steps,
            {
                proof {
                    env.space_properties();
                }
                let action = self.choose_action_soft(env, state);
                let (next_state, reward, is_done) = env.step(action);
                proof {
                    env.space_properties();
                }
                episode.push(EpisodeStep { state, action, reward });
                state = next_state;
                done = is_done;
                steps += 1;
            }
            let _ = self.process_episode_off_policy(episode);
            self.derive_and_assign_policy();
            e += 1;
        }
    }

    /// One importance-sampling backup on the pair `k`: `w` is added to
    /// its cumulative weight (an absent entry starts at 0), and its
    /// Q-estimate (an absent entry starts at 0) moves by `(w / C') *
    /// (g - Q)` for the updated weight `C'`. Every other pair is
    /// untouched.
    pub fn is_backup(&mut self, k: u64, g: Fixed, w: Fixed)
        requires
            old(self).wf(),
            w.v > 0,
        ensures
            final(self).wf(),
            *final(self) == (MonteCarloControlOff {
                q_values: final(self).q_values,
                c_values: final(self).c_values,
                ..*old(self)
            }),
            ({
                let c0 = if old(self).c_values.contains_sp(k) {
                    old(self).c_values.val_of(k).v as int
                } else {
                    0
                };
                let q0 = if old(self).q_values.contains_sp(k) {
                    old(self).q_values.val_of(k).v as int
                } else {
                    0
                };
                let c1 = fx_add_sp(c0, w.v as int);
                &&& final(self).c_values.contains_sp(k)
                &&& final(self).c_values.val_of(k).v as int == c1
                &&& final(self).q_values.contains_sp(k)
                &&& final(self).q_values.val_of(k).v as int == fx_add_sp(
                    q0,
                    fx_mul_sp(fx_div_sp(w.v as int, c1), fx_sub_sp(g.v as int, q0)),
                )
            }),
            forall|k2: u64|
                k2 != k ==> (#[trigger] final(self).q_values.contains_sp(k2)) == old(
                    self).q_values.contains_sp(k2) && (old(self).q_values.contains_sp(k2)
                    ==> final(self).q_values.val_of(k2) == old(self).q_values.val_of(k2)),
            forall|k2: u64|
                k2 != k ==> (#[trigger] final(self).c_values.contains_sp(k2)) == old(
                    self).c_values.contains_sp(k2) && (old(self).c_values.contains_sp(k2)
                    ==> final(self).c_values.val_of(k2) == old(self).c_values.val_of(k2)),
    {
        proof {
            if self.c_values.contains_sp(k) {
                let ci = self.c_values.idx_of(k);
                assert(self.c_values.entries@[ci].1.v >= 0);
            }
        }
        let c0 = self.c_values.get_or(k, Fixed { v: 0 });
        let c1 = c0.add(w);
        let ghost pre_c = self.c_values;
        self.c_values.insert(k, c1);
        proof {
            assert forall|x: int|
                0 <= x < self.c_values.entries@.len() implies (
            #[trigger] self.c_values.entries@[x]).1.v >= 0 by {
                if pre_c.contains_sp(k) {
                    if x != pre_c.idx_of(k) {
                        assert(self.c_values.entries@[x] == pre_c.entries@[x]);
                    }
                } else {
                    if x < pre_c.entries@.len() {
                        assert(self.c_values.entries@[x] == pre_c.entries@[x]);
                    } else {
                        assert(self.c_values.entries@[x] == (k, c1));
                    }
                }
            }
        }
        let q0 = self.q_values.get_or(k, Fixed { v: 0 });
        let ratio = w.div(c1);
        let updated = q0.add(ratio.mul(g.sub(q0)));
        self.q_values.insert(k, updated);
    }

    /// The weighted importance-sampling backward pass. The result is
    /// the cut index: only steps at indices at or after it were
    /// processed, so a pair taken solely before the cut keeps its
    /// Q-estimate and cumulative weight — the pass stopped there
    /// because the taken action differed from the greedy target action
    /// (or its behavior probability vanished).
    #[verifier::rlimit(100)]
    pub fn process_episode_off_policy(&mut self, episode: Vec<EpisodeStep>) -> (cut: usize)
        requires
            old(self).wf(),
            episode_ok(episode@),
        ensures
            final(self).wf(),
            final(self).epsilon == old(self).epsilon,
            final(self).gamma == old(self).gamma,
            cut <= episode@.len(),
            episode@.len() > 0 ==> (cut as int) < episode@.len(),
            tbl_preserved(old(self).q_values, final(self).q_values, episode@, cut as int),
            tbl_preserved(old(self).c_values, final(self).c_values, episode@, cut as int),
            // No behavior-policy update reaches a state visited only
            // before the cut.
            soft_preserved(
                old(self).derived_policy,
                final(self).derived_policy,
                episode@,
                cut as int,
            ),
            cut > 0 ==> ({
                let st = episode@[cut as int];
                best_of(final(self).q_values, st.state as int) != Some(st.action as u64) || (
                soft_prob_lookup(
                    final(self).derived_policy,
                    st.state as int,
                    st.action as int,
                ) matches Some(p) && p.v <= 0)
            }),
    {
        let len = episode.len();
        let mut g = Fixed { v: 0 };
        let mut w = Fixed { v: FX_SCALE };
        let mut i: usize = len;
        #[verifier::loop_isolation(false)]
        while i > 0
            invariant
                len == episode@.len(),
                i <= len,
                episode_ok(episode@),
                self.wf(),
                self.epsilon == old(self).epsilon,
                self.gamma == old(self).gamma,
                w.v > 0,
                tbl_preserved(old(self).q_values, self.q_values, episode@, i as int),
                tbl_preserved(old(self).c_values, self.c_values, episode@, i as int),
                soft_preserved(old(self).derived_policy, self.derived_policy, episode@, i as int),
            decreases i,
        {
            i = i - 1;
            let st = episode[i];
            g = self.gamma.mul(g).add(st.reward);
            let k = pair_key(st.state, st.action);
            proof {
                crate::learning::lemma_key_parts(st.state as int, st.action as int);
                assert(crate::learning::step_key(episode@[i as int]) == k);
                assert(in_suffix(episode@, i as int, k));
            }
            let ghost pre = *self;
            proof {
                assert(tbl_preserved(old(self).q_values, pre.q_values, episode@, i as int + 1));
                assert(tbl_preserved(old(self).c_values, pre.c_values, episode@, i as int + 1));
            }
            self.is_backup(k, g, w);
            proof {
                assert forall|k2: u64| !in_suffix(episode@, i as int, k2) implies (
                #[trigger] self.q_values.contains_sp(k2)) == old(self).q_values.contains_sp(k2)
                    && (old(self).q_values.contains_sp(k2) ==> self.q_values.val_of(k2) == old(
                    self).q_values.val_of(k2)) by {
                    if in_suffix(episode@, i as int + 1, k2) {
                        assert(in_suffix(episode@, i as int, k2));
                    }
                    assert(k2 != k);
                    assert(self.q_values.contains_sp(k2) == pre.q_values.contains_sp(k2));
                    assert(pre.q_values.contains_sp(k2) == old(self).q_values.contains_sp(k2));
                    if old(self).q_values.contains_sp(k2) {
                        assert(self.q_values.val_of(k2) == pre.q_values.val_of(k2));
                        assert(pre.q_values.val_of(k2) == old(self).q_values.val_of(k2));
                    }
                }
                assert forall|k2: u64| !in_suffix(episode@, i as int, k2) implies (
                #[trigger] self.c_values.contains_sp(k2)) == old(self).c_values.contains_sp(k2)
                    && (old(self).c_values.contains_sp(k2) ==> self.c_values.val_of(k2) == old(
                    self).c_values.val_of(k2)) by {
                    if in_suffix(episode@, i as int + 1, k2) {
                        assert(in_suffix(episode@, i as int, k2));
                    }
                    assert(k2 != k);
                    assert(self.c_values.contains_sp(k2) == pre.c_values.contains_sp(k2));
                    assert(pre.c_values.contains_sp(k2) == old(self).c_values.contains_sp(k2));
                    if old(self).c_values.contains_sp(k2) {
                        assert(self.c_values.val_of(k2) == pre.c_values.val_of(k2));
                        assert(pre.c_values.val_of(k2) == old(self).c_values.val_of(k2));
                    }
                }
                assert(tbl_preserved(old(self).q_values, self.q_values, episode@, i as int));
                assert(tbl_preserved(old(self).c_values, self.c_values, episode@, i as int));
            }
            let ghost pre2 = *self;
            proof {
                assert(tbl_preserved(old(self).q_values, pre2.q_values, episode@, i as int));
                assert(tbl_preserved(old(self).c_values, pre2.c_values, episode@, i as int));
            }
            let best = best_action_for_state(&self.q_values, st.state);
            let best_action: usize = match best {
                Some(a) => {
                    self.update_policy(st.state, a as usize);
                    a as usize
                },
                None => 0,
            };
            proof {
                assert(self.q_values == pre2.q_values);
                assert(self.c_values == pre2.c_values);
                assert(tbl_preserved(old(self).q_values, self.q_values, episode@, i as int));
                assert(tbl_preserved(old(self).c_values, self.c_values, episode@, i as int));
                assert forall|s2: u64|
                    !state_in_suffix(episode@, i as int, s2 as int) implies (
                #[trigger] self.derived_policy.contains_sp(s2)) == old(
                    self).derived_policy.contains_sp(s2) && (old(self).derived_policy.contains_sp(
                    s2,
                ) ==> self.derived_policy.val_of(s2) == old(self).derived_policy.val_of(s2)) by {
                    if state_in_suffix(episode@, i as int + 1, s2 as int) {
                        assert(state_in_suffix(episode@, i as int, s2 as int));
                    }
                    assert(episode@[i as int].state == st.state);
                    if s2 == st.state as u64 {
                        assert(state_in_suffix(episode@, i as int, s2 as int));
                    }
                    assert(s2 != st.state as u64);
                    assert(self.derived_policy.contains_sp(s2) == pre.derived_policy.contains_sp(
                        s2,
                    ));
                    assert(pre.derived_policy.contains_sp(s2) == old(
                        self).derived_policy.contains_sp(s2));
                    if old(self).derived_policy.contains_sp(s2) {
                        assert(self.derived_policy.val_of(s2) == pre.derived_policy.val_of(s2));
                        assert(pre.derived_policy.val_of(s2) == old(self).derived_policy.val_of(
                            s2,
                        ));
                    }
                }
                assert(soft_preserved(
                    old(self).derived_policy,
                    self.derived_policy,
                    episode@,
                    i as int,
                ));
            }
            if st.action != best_action {
                proof {
                    assert(best_of(self.q_values, st.state as int) != Some(st.action as u64));
                }
                break ;
            }
            let prob = self.behavior_probability(st.state, st.action);
            let mut cut_here = false;
            match prob {
                Some(p) => {
                    if p.v <= 0 {
                        cut_here = true;
                    } else {
                        // The importance weight stays positive: the grown
                        // weight w / p is at least w for a probability
                        // at most 1.
                        let grown = w.div(p);
                        proof {
                            vstd::arithmetic::div_mod::lemma_div_multiples_vanish(
                                1,
                                p.v as int,
                            );
                            assert((w.v as int * 1_000_000) / (p.v as int) >= 1) by {
                                assert(w.v as int * 1_000_000 >= p.v as int * 1)
                                    by (nonlinear_arith)
                                    requires w.v >= 1 && 1 <= p.v <= 1_000_000;
                                vstd::arithmetic::div_mod::lemma_div_is_ordered(
                                    p.v as int,
                                    w.v as int * 1_000_000,
                                    p.v as int,
                                );
                                assert((p.v as int * 1) / (p.v as int) == 1);
                            }
                            assert(grown.v >= 1);
                        }
                        w = grown;
                    }
                },
                None => {},
            }
            if cut_here {
                break ;
            }
        }
        i
    }

    /// The probability the behavior policy gives an action in a state,
    /// where its distribution lists it.
    fn behavior_probability(&self, state: State, action: Action) -> (r: Option<Fixed>)
        requires
            self.wf(),
            state < 0x1_0000_0000,
        ensures
            r == soft_prob_lookup(self.derived_policy, state as int, action as int),
            r matches Some(p) ==> 0 <= p.v <= FX_SCALE,
    {
        let found = self.derived_policy.find(state as u64);
        match found {
            Some(pi) => {
                let ghost entry = self.derived_policy.val_of(state as u64)@;
                let m = self.derived_policy.entries[pi].1.len();
                proof {
                    assert(entry.skip(0) =~= entry);
                }
                let mut j: usize = 0;
                while j < m
                    invariant
                        pi < self.derived_policy.entries@.len(),
                        self.derived_policy.entries@[pi as int].0 == state as u64,
                        self.derived_policy.idx_of(state as u64) == pi as int,
                        self.derived_policy.contains_sp(state as u64),
                        entry == self.derived_policy.entries@[pi as int].1@,
                        m == entry.len(),
                        j <= m,
                        self.wf(),
                        first_prob(entry, action as int) == first_prob(
                            entry.skip(j as int),
                            action as int,
                        ),
                    decreases m - j,
                {
                    let (a64, prob) = self.derived_policy.entries[pi].1[j];
                    proof {
                        assert(entry.skip(j as int)[0] == entry[j as int]);
                        assert(entry.skip(j as int).drop_first() =~= entry.skip(j + 1));
                    }
                    if a64 as usize == action {
                        proof {
                            assert(entry[j as int].0 < 0x1_0000_0000);
                            assert(first_prob(entry, action as int) == Some(prob));
                        }
                        return Some(prob);
                    }
                    proof {
                        assert(entry[j as int].0 as int != action as int);
                    }
                    j += 1;
                }
                proof {
                    assert(entry.skip(m as int) =~= Seq::<(u64, Fixed)>::empty());
                }
                None
            },
            None => None,
        }
    }

    /// The epsilon-soft re-centring of a state's behavior
    /// distribution: the greedy action gets `1 - epsilon + epsilon/|A|`
    /// and every other one `epsilon/|A|`. A state with no distribution
    /// is left alone.
    pub fn update_policy(&mut self, state: State, best_action: Action)
        requires
            old(self).wf(),
            state < 0x1_0000_0000,
            best_action < 0x1_0000_0000,
        ensures
            final(self).wf(),
            *final(self) == (MonteCarloControlOff {
                derived_policy: final(self).derived_policy,
                ..*old(self)
            }),
            !old(self).derived_policy.contains_sp(state as u64) ==> final(self).derived_policy
                == old(self).derived_policy,
            old(self).derived_policy.contains_sp(state as u64) && old(self).derived_policy.val_of(
                state as u64,
            )@.len() == 0 ==> final(self).derived_policy == old(self).derived_policy,
            old(self).derived_policy.contains_sp(state as u64) && old(self).derived_policy.val_of(
                state as u64,
            )@.len() > 0 ==> {
                &&& final(self).derived_policy.contains_sp(state as u64)
                &&& final(self).derived_policy.val_of(state as u64)@ =~= recentred(
                    old(self).derived_policy.val_of(state as u64)@,
                    best_action as int,
                    old(self).epsilon.v as int,
                )
            },
            forall|s2: u64|
                s2 != state ==> (#[trigger] final(self).derived_policy.contains_sp(s2)) == old(
                    self).derived_policy.contains_sp(s2) && (old(self).derived_policy.contains_sp(
                    s2,
                ) ==> final(self).derived_policy.val_of(s2) == old(self).derived_policy.val_of(
                    s2,
                )),
    {
        let eps = self.epsilon;
        recentre_soft(&mut self.derived_policy, state, best_action, eps);
    }

    /// Collapses the behavior policy: per state with a non-empty
    /// distribution, the first action of maximal probability.
    pub fn derive_and_assign_policy(&mut self)
        requires
            old(self).wf(),
        ensures
            final(self).wf(),
            *final(self) == (MonteCarloControlOff { policy: final(self).policy, ..*old(self) }),
            collapsed_from(final(self).derived_policy, final(self).policy),
    {
        self.policy = collapse_soft(&self.derived_policy);
    }
}

} // verus!
