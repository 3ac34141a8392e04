use vstd::prelude::*;
use crate::environment::{Action, State};
use crate::fixed::{Fixed, FX_SCALE, fx_add_sp, fx_mul_sp};
use crate::rng::rand_below;
use crate::table::Table;

verus! {

/// Cap on the convergence sweeps of the dynamic-programming solvers,
/// so their evaluation loops always end.
pub const MAX_DP_SWEEPS: usize = 100_000;

/// The Bellman-style fold `sum_{n < upto} P[n] * (R[n] + gamma * vals[n])`,
/// accumulated left to right in fixed-point arithmetic.
pub open spec fn dp_sum(
    probs: Seq<Fixed>,
    rews: Seq<Fixed>,
    vals: Seq<Fixed>,
    gamma: int,
    upto: int,
) -> int
    decreases upto,
{
    if upto <= 0 {
        0
    } else {
        fx_add_sp(
            dp_sum(probs, rews, vals, gamma, upto - 1),
            fx_mul_sp(
                probs[upto - 1].v as int,
                fx_add_sp(rews[upto - 1].v as int, fx_mul_sp(gamma, vals[upto - 1].v as int)),
            ),
        )
    }
}

/// One Bellman-style fold over the next states.
pub fn dp_cell(
    probs: &Vec<Fixed>,
    rews: &Vec<Fixed>,
    vals: &Vec<Fixed>,
    gamma: Fixed,
    upto: usize,
) -> (r: Fixed)
    requires
        upto <= probs@.len(),
        upto <= rews@.len(),
        upto <= vals@.len(),
    ensures
        r.v as int == dp_sum(probs@, rews@, vals@, gamma.v as int, upto as int),
{
    let mut acc = Fixed { v: 0 };
    let mut n: usize = 0;
    while n < upto
        invariant
            upto <= probs@.len(),
            upto <= rews@.len(),
            upto <= vals@.len(),
            n <= upto,
            acc.v as int == dp_sum(probs@, rews@, vals@, gamma.v as int, n as int),
        decreases upto - n,
    {
        let target = rews[n].add(gamma.mul(vals[n]));
        acc = acc.add(probs[n].mul(target));
        n += 1;
    }
    acc
}

/// The dense policy read as scaled values: each action index stands
/// in for a value, exactly as the evaluation target folds it.
pub open spec fn policy_vals_sp(policy: Seq<usize>) -> Seq<Fixed> {
    policy.map_values(|a: usize| Fixed { v: ((a as int) * 1_000_000) as i64 })
}

/// Policy iteration over explicit transition and reward tensors,
/// alternating evaluation sweeps and greedy improvement until a sweep
/// leaves every action unchanged.
pub struct PolicyIterationModel {
    pub states: Vec<State>,
    pub actions: Vec<Action>,
    pub rewards: Vec<Vec<Vec<Fixed>>>,
    pub probabilities: Vec<Vec<Vec<Fixed>>>,
    pub gamma: Fixed,
    pub is_policy_stable: bool,
    pub policy: Vec<Action>,
    pub value_function: Vec<Fixed>,
}

/// The evaluation target of `state`: the Bellman-style fold summed over
/// the first `upto` actions, with the next-state policy entries as
/// values and the last next state left out of each inner sum (the
/// sweep's bound).
pub open spec fn pi_eval_fold(m: PolicyIterationModel, state: int, upto: int) -> int
    decreases upto,
{
    if upto <= 0 {
        0
    } else {
        fx_add_sp(
            pi_eval_fold(m, state, upto - 1),
            dp_sum(
                m.probabilities@[state]@[upto - 1]@,
                m.rewards@[state]@[upto - 1]@,
                policy_vals_sp(m.policy@),
                m.gamma.v as int,
                m.states@.len() - 1,
            ),
        )
    }
}

/// The improvement score of one (state, action) pair: the Bellman-style
/// fold over every next state, with `m`'s policy entries as values.
pub open spec fn pi_improve_sp(m: PolicyIterationModel, state: int, action: int) -> int {
    dp_sum(
        m.probabilities@[state]@[action]@,
        m.rewards@[state]@[action]@,
        policy_vals_sp(m.policy@),
        m.gamma.v as int,
        m.states@.len() as int,
    )
}

/// Every state's policy entry carries the first-maximal improvement
/// score of `m`'s own policy: the greedy fixed point.
pub open spec fn pi_fixed_point(m: PolicyIterationModel) -> bool {
    forall|s: int|
        0 <= s < m.states@.len() ==> {
            let chosen = (#[trigger] m.policy@[s]) as int;
            &&& forall|a: int|
                0 <= a < m.actions@.len() ==> #[trigger] pi_improve_sp(m, s, a) <= pi_improve_sp(
                    m,
                    s,
                    chosen,
                )
            &&& forall|a: int|
                0 <= a < chosen ==> #[trigger] pi_improve_sp(m, s, a) < pi_improve_sp(m, s, chosen)
        }
}

/// The model stands exactly one greedy sweep after `pre`: same
/// tensors, every policy entry a first-maximal improvement action
/// scored against `pre`, and the stability flag recording whether
/// that sweep changed nothing.
pub open spec fn pi_swept_from(m: PolicyIterationModel, pre: PolicyIterationModel) -> bool {
    &&& pre.states == m.states
    &&& pre.actions == m.actions
    &&& pre.rewards == m.rewards
    &&& pre.probabilities == m.probabilities
    &&& pre.gamma == m.gamma
    &&& m.is_policy_stable == (m.policy@ =~= pre.policy@)
    &&& forall|s: int|
        0 <= s < m.states@.len() ==> {
            let chosen = (#[trigger] m.policy@[s]) as int;
            &&& forall|a: int|
                0 <= a < pre.actions@.len() ==> #[trigger] pi_improve_sp(pre, s, a)
                    <= pi_improve_sp(pre, s, chosen)
            &&& forall|a: int|
                0 <= a < chosen ==> #[trigger] pi_improve_sp(pre, s, a) < pi_improve_sp(
                    pre,
                    s,
                    chosen,
                )
        }
}

/// The evaluation fold reads the policy and the tensors, never the
/// value function, so models differing only there fold alike.
proof fn lemma_eval_fold_congruence(
    m1: PolicyIterationModel,
    m2: PolicyIterationModel,
    state: int,
    upto: int,
)
    requires
        m1.policy == m2.policy,
        m1.probabilities == m2.probabilities,
        m1.rewards == m2.rewards,
        m1.gamma == m2.gamma,
        m1.states@.len() == m2.states@.len(),
    ensures
        pi_eval_fold(m1, state, upto) == pi_eval_fold(m2, state, upto),
    decreases upto,
{
    if upto > 0 {
        lemma_eval_fold_congruence(m1, m2, state, upto - 1);
    }
}

impl PolicyIterationModel {
    pub open spec fn wf(&self) -> bool {
        let ns = self.states@.len() as int;
        let na = self.actions@.len() as int;
        &&& 1 <= ns <= 0x1_0000_0000
        &&& 1 <= na <= 0x1_0000_0000
        &&& self.rewards@.len() == ns
        &&& forall|s: int| 0 <= s < ns ==> (#[trigger] self.rewards@[s])@.len() == na
        &&& forall|s: int, a: int|
            0 <= s < ns && 0 <= a < na ==> (#[trigger] self.rewards@[s]@[a])@.len() == ns
        &&& self.probabilities@.len() == ns
        &&& forall|s: int| 0 <= s < ns ==> (#[trigger] self.probabilities@[s])@.len() == na
        &&& forall|s: int, a: int|
            0 <= s < ns && 0 <= a < na ==> (#[trigger] self.probabilities@[s]@[a])@.len() == ns
        &&& self.policy@.len() == ns
        &&& forall|s: int| 0 <= s < ns ==> ((#[trigger] self.policy@[s]) as int) < na
        &&& self.value_function@.len() == ns
    }

    /// Builds the solver: the policy starts at action 0 everywhere, the
    /// tensors are stored verbatim, and the value function starts at
    /// uniform-random values in [0, 1), pinned to 0.0 on the terminal
    /// states.
    pub fn new(
        states: Vec<State>,
        actions: Vec<Action>,
        rewards: Vec<Vec<Vec<Fixed>>>,
        probabilities: Vec<Vec<Vec<Fixed>>>,
        gamma: Fixed,
        terminal_state: Vec<State>,
    ) -> (r: PolicyIterationModel)
        requires
            1 <= states@.len() <= 0x1_0000_0000,
            1 <= actions@.len() <= 0x1_0000_0000,
            rewards@.len() == states@.len(),
            forall|s: int|
                0 <= s < states@.len() ==> (#[trigger] rewards@[s])@.len() == actions@.len(),
            forall|s: int, a: int|
                0 <= s < states@.len() && 0 <= a < actions@.len() ==> (
                #[trigger] rewards@[s]@[a])@.len() == states@.len(),
            probabilities@.len() == states@.len(),
            forall|s: int|
                0 <= s < states@.len() ==> (#[trigger] probabilities@[s])@.len() == actions@.len(),
            forall|s: int, a: int|
                0 <= s < states@.len() && 0 <= a < actions@.len() ==> (
                #[trigger] probabilities@[s]@[a])@.len() == states@.len(),
            forall|t: int|
                0 <= t < terminal_state@.len() ==> ((#[trigger] terminal_state@[t]) as int)
                    < states@.len(),
        ensures
            r.wf(),
            r.states == states,
            r.actions == actions,
            r.rewards == rewards,
            r.probabilities == probabilities,
            r.gamma == gamma,
            r.is_policy_stable == false,
            forall|s: int| 0 <= s < r.policy@.len() ==> (#[trigger] r.policy@[s]) == 0,
            forall|s: int|
                0 <= s < r.value_function@.len() ==> 0 <= (#[trigger] r.value_function@[s]).v
                    < FX_SCALE,
            forall|t: int|
                0 <= t < terminal_state@.len() ==> (#[trigger] r.value_function@[terminal_state@[t] as int]).v
                    == 0,
    {
        let ns = states.len();
        let mut policy: Vec<usize> = Vec::new();
        let mut value_function: Vec<Fixed> = Vec::new();
        let mut s: usize = 0;
        while s < ns
            invariant
                s <= ns,
                policy@.len() == s,
                value_function@.len() == s,
                forall|x: int| 0 <= x < s ==> (#[trigger] policy@[x]) == 0,
                forall|x: int| 0 <= x < s ==> 0 <= (#[trigger] value_function@[x]).v < FX_SCALE,
            decreases ns - s,
        {
            policy.push(0);
            value_function.push(Fixed { v: rand_below(FX_SCALE as u64) as i64 });
            s += 1;
        }
        let mut t: usize = 0;
        while t < terminal_state.len()
            invariant
                t <= terminal_state@.len(),
                value_function@.len() == ns,
                forall|x: int|
                    0 <= x < terminal_state@.len() ==> ((#[trigger] terminal_state@[x]) as int)
                        < ns,
                forall|x: int| 0 <= x < ns ==> 0 <= (#[trigger] value_function@[x]).v < FX_SCALE,
                forall|x: int|
                    0 <= x < t ==> (#[trigger] value_function@[terminal_state@[x] as int]).v == 0,
            decreases terminal_state@.len() - t,
        {
            let ghost pre = value_function@;
            value_function[terminal_state[t]] = Fixed { v: 0 };
            proof {
                assert forall|x: int|
                    0 <= x < t + 1 implies (
                #[trigger] value_function@[terminal_state@[x] as int]).v == 0 by {
                    if terminal_state@[x] as int != terminal_state@[t as int] as int {
                        assert(value_function@[terminal_state@[x] as int] == pre[terminal_state@[x] as int]);
                    }
                }
            }
            t += 1;
        }
        PolicyIterationModel {
            states,
            actions,
            rewards,
            probabilities,
            gamma,
            is_policy_stable: false,
            policy,
            value_function,
        }
    }

    /// The current policy as its scaled value row.
    fn policy_scaled(&self) -> (r: Vec<Fixed>)
        requires
            self.wf(),
        ensures
            r@ =~= policy_vals_sp(self.policy@),
    {
        let n = self.policy.len();
        let mut out: Vec<Fixed> = Vec::new();
        let mut i: usize = 0;
        while i < n
            invariant
                self.wf(),
                n == self.policy@.len(),
                i <= n,
                out@.len() == i,
                forall|j: int|
                    0 <= j < i ==> (#[trigger] out@[j]).v as int == (self.policy@[j] as int)
                        * 1_000_000,
            decreases n - i,
        {
            let a = self.policy[i];
            proof {
                assert(a as int * 1_000_000 <= 0x1_0000_0000 * 1_000_000) by (nonlinear_arith)
                    requires a as int <= 0x1_0000_0000;
            }
            out.push(Fixed { v: (a as i64) * FX_SCALE });
            i += 1;
        }
        out
    }

    /// The evaluation target of a state under the current policy: the
    /// Bellman-style fold with the next-state policy entry (as a
    /// number) in place of a value estimate, summed over all actions
    /// and over all next states but the last one.
    pub fn evaluation_total(&self, state: State) -> (r: Fixed)
        requires
            self.wf(),
            (state as int) < self.states@.len(),
        ensures
            r.v as int == pi_eval_fold(*self, state as int, self.actions@.len() as int),
    {
        let ns = self.states.len();
        let na = self.actions.len();
        let policy_vals = self.policy_scaled();
        let mut value = Fixed { v: 0 };
        let mut a: usize = 0;
        while a < na
            invariant
                self.wf(),
                ns == self.states@.len(),
                na == self.actions@.len(),
                (state as int) < ns,
                policy_vals@ =~= policy_vals_sp(self.policy@),
                a <= na,
                value.v as int == pi_eval_fold(*self, state as int, a as int),
            decreases na - a,
        {
            let part = dp_cell(
                &self.probabilities[state][a],
                &self.rewards[state][a],
                &policy_vals,
                self.gamma,
                ns - 1,
            );
            value = value.add(part);
            a += 1;
        }
        value
    }

    /// One evaluation sweep: every state but the last takes its
    /// evaluation target (which reads the policy, never the value
    /// function, so a sweep's result does not depend on sweep order);
    /// the result is the largest per-state change.
    fn evaluation_sweep(&mut self) -> (delta: Fixed)
        requires
            old(self).wf(),
        ensures
            final(self).wf(),
            *final(self) == (PolicyIterationModel {
                value_function: final(self).value_function,
                ..*old(self)
            }),
            forall|s: int|
                0 <= s < final(self).states@.len() - 1 ==> (
                #[trigger] final(self).value_function@[s]).v as int == pi_eval_fold(
                    *final(self),
                    s,
                    final(self).actions@.len() as int,
                ),
            final(self).value_function@[final(self).states@.len() - 1] == old(
                self,
            ).value_function@[old(self).states@.len() - 1],
    {
        let ns = self.states.len();
        let mut delta = Fixed { v: 0 };
        let mut s: usize = 0;
        while s < ns - 1
            invariant
                self.wf(),
                old(self).wf(),
                ns == self.states@.len(),
                s <= ns,
                *self == (PolicyIterationModel {
                    value_function: self.value_function,
                    ..*old(self)
                }),
                forall|x: int|
                    0 <= x < s ==> (#[trigger] self.value_function@[x]).v as int == pi_eval_fold(
                        *self,
                        x,
                        self.actions@.len() as int,
                    ),
                self.value_function@[ns - 1] == old(self).value_function@[ns - 1],
            decreases ns - s,
        {
            let old_value = self.value_function[s];
            let value = self.evaluation_total(s);
            let ghost pre = *self;
            let mut vf = crate::nn_struct::copy_fixed_row(&self.value_function);
            vf[s] = value;
            self.value_function = vf;
            proof {
                assert forall|x: int|
                    0 <= x < s + 1 implies (#[trigger] self.value_function@[x]).v as int
                    == pi_eval_fold(*self, x, self.actions@.len() as int) by {
                    lemma_eval_fold_congruence(pre, *self, x, self.actions@.len() as int);
                }
            }
            let change = old_value.sub(value).abs();
            delta = delta.max(change);
            s += 1;
        }
        delta
    }

    /// Repeats evaluation sweeps until the largest per-state change of
    /// a sweep falls below `theta` (or the sweep cap is hit). On
    /// return every state but the last holds its evaluation target;
    /// the last-indexed state is never updated by evaluation.
    pub fn policy_evaluation(&mut self, theta: Fixed)
        requires
            old(self).wf(),
        ensures
            final(self).wf(),
            *final(self) == (PolicyIterationModel {
                value_function: final(self).value_function,
                ..*old(self)
            }),
            forall|s: int|
                0 <= s < final(self).states@.len() - 1 ==> (
                #[trigger] final(self).value_function@[s]).v as int == pi_eval_fold(
                    *final(self),
                    s,
                    final(self).actions@.len() as int,
                ),
            final(self).value_function@[final(self).states@.len() - 1] == old(
                self,
            ).value_function@[old(self).states@.len() - 1],
    {
        let mut delta = self.evaluation_sweep();
        let mut sweeps: usize = 1;
        while sweeps < MAX_DP_SWEEPS
            invariant
                self.wf(),
                *self == (PolicyIterationModel {
                    value_function: self.value_function,
                    ..*old(self)
                }),
                forall|s: int|
                    0 <= s < self.states@.len() - 1 ==> (
                    #[trigger] self.value_function@[s]).v as int == pi_eval_fold(
                        *self,
                        s,
                        self.actions@.len() as int,
                    ),
                self.value_function@[self.states@.len() - 1] == old(
                    self,
                ).value_function@[old(self).states@.len() - 1],
            decreases MAX_DP_SWEEPS - sweeps,
        {
            if delta.v < theta.v {
                break ;
            }
            delta = self.evaluation_sweep();
            sweeps += 1;
        }
    }

    /// The improvement score of one (state, action) pair against the
    /// current policy: the Bellman-style fold with the next-state
    /// policy entries as values, over every next state.
    pub fn improvement_total(&self, state: State, action: Action) -> (r: Fixed)
        requires
            self.wf(),
            (state as int) < self.states@.len(),
            (action as int) < self.actions@.len(),
        ensures
            r.v as int == pi_improve_sp(*self, state as int, action as int),
    {
        let ns = self.states.len();
        let policy_vals = self.policy_scaled();
        dp_cell(
            &self.probabilities[state][action],
            &self.rewards[state][action],
            &policy_vals,
            self.gamma,
            ns,
        )
    }

    /// One greedy sweep: every state takes the first action of maximal
    /// improvement score, all scores taken against the policy as it
    /// stood when the sweep began; the result says whether no action
    /// changed.
    pub fn policy_improvement(&mut self) -> (r: bool)
        requires
            old(self).wf(),
        ensures
            final(self).wf(),
            *final(self) == (PolicyIterationModel {
                policy: final(self).policy,
                is_policy_stable: final(self).is_policy_stable,
                ..*old(self)
            }),
            r == final(self).is_policy_stable,
            r == (final(self).policy@ =~= old(self).policy@),
            forall|s: int|
                0 <= s < final(self).states@.len() ==> {
                    let chosen = (#[trigger] final(self).policy@[s]) as int;
                    &&& forall|a: int|
                        0 <= a < old(self).actions@.len() ==> #[trigger] pi_improve_sp(
                            *old(self),
                            s,
                            a,
                        ) <= pi_improve_sp(*old(self), s, chosen)
                    &&& forall|a: int|
                        0 <= a < chosen ==> #[trigger] pi_improve_sp(*old(self), s, a)
                            < pi_improve_sp(*old(self), s, chosen)
                },
    {
        self.is_policy_stable = true;
        let ns = self.states.len();
        let na = self.actions.len();
        let base_vals = self.policy_scaled();
        let mut s: usize = 0;
        while s < ns
            invariant
                self.wf(),
                ns == self.states@.len(),
                na == self.actions@.len(),
                s <= ns,
                old(self).wf(),
                base_vals@ =~= policy_vals_sp(old(self).policy@),
                *self == (PolicyIterationModel {
                    policy: self.policy,
                    is_policy_stable: self.is_policy_stable,
                    ..*old(self)
                }),
                self.policy@.len() == ns,
                forall|x: int| s <= x < ns ==> self.policy@[x] == old(self).policy@[x],
                self.is_policy_stable == (forall|x: int|
                    0 <= x < s ==> self.policy@[x] == old(self).policy@[x]),
                forall|x: int|
                    0 <= x < s ==> {
                        let chosen = (#[trigger] self.policy@[x]) as int;
                        &&& forall|a: int|
                            0 <= a < na ==> #[trigger] pi_improve_sp(*old(self), x, a)
                                <= pi_improve_sp(*old(self), x, chosen)
                        &&& forall|a: int|
                            0 <= a < chosen ==> #[trigger] pi_improve_sp(*old(self), x, a)
                                < pi_improve_sp(*old(self), x, chosen)
                    },
            decreases ns - s,
        {
            let old_action = self.policy[s];
            let mut best_action: usize = 0;
            let mut best_score = dp_cell(
                &self.probabilities[s][0],
                &self.rewards[s][0],
                &base_vals,
                self.gamma,
                ns,
            );
            let mut a: usize = 1;
            while a < na
                invariant
                    self.wf(),
                    ns == self.states@.len(),
                    na == self.actions@.len(),
                    s < ns,
                    1 <= a <= na,
                    old(self).wf(),
                    base_vals@ =~= policy_vals_sp(old(self).policy@),
                    *self == (PolicyIterationModel {
                        policy: self.policy,
                        is_policy_stable: self.is_policy_stable,
                        ..*old(self)
                    }),
                    (best_action as int) < a,
                    best_score.v as int == pi_improve_sp(*old(self), s as int, best_action as int),
                    forall|x: int|
                        0 <= x < a ==> #[trigger] pi_improve_sp(*old(self), s as int, x)
                            <= best_score.v as int,
                    forall|x: int|
                        0 <= x < best_action ==> #[trigger] pi_improve_sp(*old(self), s as int, x)
                            < best_score.v as int,
                decreases na - a,
            {
                let total = dp_cell(
                    &self.probabilities[s][a],
                    &self.rewards[s][a],
                    &base_vals,
                    self.gamma,
                    ns,
                );
                if total.v > best_score.v {
                    best_action = a;
                    best_score = total;
                }
                a += 1;
            }
            let mut p = crate::nn_struct::copy_usize_vec(&self.policy);
            p[s] = best_action;
            self.policy = p;
            if best_action != old_action {
                self.is_policy_stable = false;
            }
            s += 1;
        }
        proof {
            if self.is_policy_stable {
                assert(self.policy@ =~= old(self).policy@);
            }
            if self.policy@ =~= old(self).policy@ {
                assert(forall|x: int|
                    0 <= x < ns ==> self.policy@[x] == old(self).policy@[x]);
            }
        }
        self.is_policy_stable
    }

    /// Alternates evaluation (theta 0.001) and improvement until a
    /// sweep changes nothing (or the sweep cap is hit); the result is
    /// the final dense policy, and a stable exit is a greedy fixed
    /// point: one more improvement sweep would change no entry.
    pub fn policy_iteration(&mut self) -> (r: Vec<Action>)
        requires
            old(self).wf(),
        ensures
            final(self).wf(),
            r@ =~= final(self).policy@,
            final(self).is_policy_stable ==> pi_fixed_point(*final(self)),
            // On every exit the policy is the greedy sweep of some
            // predecessor, and the stability flag says whether that
            // last sweep changed anything: a capped exit is visible as
            // a false flag.
            exists|pre: PolicyIterationModel| #[trigger] pi_swept_from(*final(self), pre),
    {
        let theta = Fixed { v: 1_000 };
        self.is_policy_stable = false;
        self.policy_evaluation(theta);
        let ghost mut last_pre = *self;
        let mut stable = self.policy_improvement();
        proof {
            self.lemma_stable_sweep_fixed_point(last_pre);
            assert(pi_swept_from(*self, last_pre));
        }
        let mut rounds: usize = 1;
        while rounds < MAX_DP_SWEEPS
            invariant
                self.wf(),
                stable == self.is_policy_stable,
                self.is_policy_stable ==> pi_fixed_point(*self),
                pi_swept_from(*self, last_pre),
            decreases MAX_DP_SWEEPS - rounds,
        {
            if stable {
                break ;
            }
            self.policy_evaluation(theta);
            proof {
                last_pre = *self;
            }
            stable = self.policy_improvement();
            proof {
                self.lemma_stable_sweep_fixed_point(last_pre);
                assert(pi_swept_from(*self, last_pre));
            }
            rounds += 1;
        }
        crate::nn_struct::copy_usize_vec(&self.policy)
    }

    /// A sweep that changed nothing scored every entry against the
    /// final policy itself: the greedy fixed point.
    proof fn lemma_stable_sweep_fixed_point(&self, before: PolicyIterationModel)
        requires
            self.wf(),
            self.is_policy_stable ==> self.policy@ =~= before.policy@,
            before.states == self.states,
            before.actions == self.actions,
            before.rewards == self.rewards,
            before.probabilities == self.probabilities,
            before.gamma == self.gamma,
            forall|s: int|
                0 <= s < self.states@.len() ==> {
                    let chosen = (#[trigger] self.policy@[s]) as int;
                    &&& forall|a: int|
                        0 <= a < before.actions@.len() ==> #[trigger] pi_improve_sp(before, s, a)
                            <= pi_improve_sp(before, s, chosen)
                    &&& forall|a: int|
                        0 <= a < chosen ==> #[trigger] pi_improve_sp(before, s, a) < pi_improve_sp(
                            before,
                            s,
                            chosen,
                        )
                },
        ensures
            self.is_policy_stable ==> pi_fixed_point(*self),
    {
        if self.is_policy_stable {
            assert(self.policy@ =~= before.policy@);
            assert(policy_vals_sp(self.policy@) =~= policy_vals_sp(before.policy@));
            assert forall|s: int, a: int|
                0 <= s < self.states@.len() && 0 <= a
                    < self.actions@.len() implies #[trigger] pi_improve_sp(*self, s, a)
                == pi_improve_sp(before, s, a) by {
                assert(self.probabilities == before.probabilities);
                assert(self.rewards == before.rewards);
                assert(policy_vals_sp(self.policy@) == policy_vals_sp(before.policy@));
            }
            assert(pi_fixed_point(*self));
        }
    }

    /// The dense policy as a state-keyed map.
    pub fn policy_to_hashmap(&self) -> (r: Table<u64>)
        requires
            self.wf(),
        ensures
            r.wf(),
            r.len_sp() == self.policy@.len(),
            forall|i: int|
                0 <= i < self.policy@.len() ==> (#[trigger] r.entries@[i]) == (
                i as u64,
                self.policy@[i] as u64,
            ),
    {
        let n = self.policy.len();
        let mut out: Table<u64> = Table::new();
        let mut i: usize = 0;
        while i < n
            invariant
                n == self.policy@.len(),
                n <= 0x1_0000_0000,
                i <= n,
                out.entries@.len() == i,
                out.wf(),
                forall|x: int|
                    0 <= x < i ==> (#[trigger] out.entries@[x]) == (
                    x as u64,
                    self.policy@[x] as u64,
                ),
            decreases n - i,
        {
            proof {
                assert(forall|x: int|
                    0 <= x < out.entries@.len() ==> (#[trigger] out.entries@[x]).0 == x as u64);
                if out.contains_sp(i as u64) {
                    let w = choose|w: int|
                        0 <= w < out.entries@.len() && (#[trigger] out.entries@[w]).0 == i as u64;
                    assert(false);
                }
            }
            out.insert(i as u64, self.policy[i] as u64);
            i += 1;
        }
        out
    }
}

} // verus!
