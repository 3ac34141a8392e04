use vstd::prelude::*;
use vstd::assert_seqs_equal;
use crate::environment::{Action, State};
use crate::fixed::{fx_clamp, fx_sub_sp, sp_abs, Fixed, FX_SCALE};
use crate::policy_iteration::{dp_cell, dp_sum, MAX_DP_SWEEPS};
use crate::rng::rand_below;
use crate::table::Table;

verus! {

/// The Bellman-style fold of one (state, action) pair against the
/// value row `vals`, over every next state.
pub open spec fn vi_cell(m: ValueIterationModel, vals: Seq<Fixed>, state: int, action: int) -> int {
    dp_sum(
        m.probabilities@[state]@[action]@,
        m.rewards@[state]@[action]@,
        vals,
        m.gamma.v as int,
        m.states@.len() as int,
    )
}

/// The value row a sweep sees while processing state `s`: states
/// already swept carry their new values, the rest still the sweep's
/// starting values (the in-place update order).
pub open spec fn vi_hybrid(base: Seq<Fixed>, newv: Seq<Fixed>, s: int) -> Seq<Fixed> {
    Seq::new(
        base.len(),
        |n: int|
            if n < s {
                newv[n]
            } else {
                base[n]
            },
    )
}

/// What one full in-place sweep from the value row `base` leaves: per
/// state, `value_function[s]` is the maximal fold over actions against
/// the hybrid row at `s`, and `policy[s]` is the first action
/// reaching it.
pub open spec fn vi_sweep_rel(m: ValueIterationModel, base: Seq<Fixed>) -> bool {
    let ns = m.states@.len() as int;
    &&& base.len() == ns
    &&& forall|s: int|
        0 <= s < ns ==> {
            let vals = vi_hybrid(base, m.value_function@, s);
            let chosen = (#[trigger] m.policy@[s]) as int;
            &&& m.value_function@[s].v as int == vi_cell(m, vals, s, chosen)
            &&& forall|a: int|
                0 <= a < m.actions@.len() ==> #[trigger] vi_cell(m, vals, s, a) <= vi_cell(
                    m,
                    vals,
                    s,
                    chosen,
                )
            &&& forall|a: int|
                0 <= a < chosen ==> #[trigger] vi_cell(m, vals, s, a) < vi_cell(m, vals, s, chosen)
        }
}

/// Value iteration over explicit transition and reward tensors: each
/// sweep replaces a state's value with the best action's Bellman-style
/// fold and records that action, until the largest change of a sweep
/// falls below `theta`.
pub struct ValueIterationModel {
    pub states: Vec<State>,
    pub actions: Vec<Action>,
    pub rewards: Vec<Vec<Vec<Fixed>>>,
    pub probabilities: Vec<Vec<Vec<Fixed>>>,
    pub gamma: Fixed,
    pub policy: Vec<Action>,
    pub value_function: Vec<Fixed>,
}

impl ValueIterationModel {
    pub open spec fn wf(&self) -> bool {
        let ns = self.states@.len() as int;
        let na = self.actions@.len() as int;
        &&& 1 <= ns <= 0x1_0000_0000
        &&& 1 <= na <= 0x1_0000_0000
        &&& self.rewards@.len() == ns
        &&& forall|s: int| 0 <= s < ns ==> (#[trigger] self.rewards@[s])@.len() == na
        &&& forall|s: int, a: int|
            0 <= s < ns && 0 <= a < na ==> (#[trigger] self.rewards@[s]@[a])@.len() == ns
        &&& self.probabilities@.len() == ns
        &&& forall|s: int| 0 <= s < ns ==> (#[trigger] self.probabilities@[s])@.len() == na
        &&& forall|s: int, a: int|
            0 <= s < ns && 0 <= a < na ==> (#[trigger] self.probabilities@[s]@[a])@.len() == ns
        &&& self.policy@.len() == ns
        &&& forall|s: int| 0 <= s < ns ==> ((#[trigger] self.policy@[s]) as int) < na
        &&& self.value_function@.len() == ns
    }

    /// Builds the solver: the policy starts at action 0 everywhere, the
    /// tensors are stored verbatim, and the value function starts at
    /// uniform-random values in [0, 1), pinned to 0.0 on the terminal
    /// states.
    pub fn new(
        s: Vec<State>,
        a: Vec<Action>,
        r: Vec<Vec<Vec<Fixed>>>,
        p: Vec<Vec<Vec<Fixed>>>,
        g: Fixed,
        terminal_state: Vec<State>,
    ) -> (out: ValueIterationModel)
        requires
            1 <= s@.len() <= 0x1_0000_0000,
            1 <= a@.len() <= 0x1_0000_0000,
            r@.len() == s@.len(),
            forall|x: int| 0 <= x < s@.len() ==> (#[trigger] r@[x])@.len() == a@.len(),
            forall|x: int, y: int|
                0 <= x < s@.len() && 0 <= y < a@.len() ==> (#[trigger] r@[x]@[y])@.len()
                    == s@.len(),
            p@.len() == s@.len(),
            forall|x: int| 0 <= x < s@.len() ==> (#[trigger] p@[x])@.len() == a@.len(),
            forall|x: int, y: int|
                0 <= x < s@.len() && 0 <= y < a@.len() ==> (#[trigger] p@[x]@[y])@.len()
                    == s@.len(),
            forall|t: int|
                0 <= t < terminal_state@.len() ==> ((#[trigger] terminal_state@[t]) as int)
                    < s@.len(),
        ensures
            out.wf(),
            out.states == s,
            out.actions == a,
            out.rewards == r,
            out.probabilities == p,
            out.gamma == g,
            forall|x: int| 0 <= x < out.policy@.len() ==> (#[trigger] out.policy@[x]) == 0,
            forall|x: int|
                0 <= x < out.value_function@.len() ==> 0 <= (#[trigger] out.value_function@[x]).v
                    < FX_SCALE,
            forall|t: int|
                0 <= t < terminal_state@.len() ==> (
                #[trigger] out.value_function@[terminal_state@[t] as int]).v == 0,
    {
        let ns = s.len();
        let mut policy: Vec<usize> = Vec::new();
        let mut value_function: Vec<Fixed> = Vec::new();
        let mut i: usize = 0;
        while i < ns
            invariant
                i <= ns,
                policy@.len() == i,
                value_function@.len() == i,
                forall|x: int| 0 <= x < i ==> (#[trigger] policy@[x]) == 0,
                forall|x: int| 0 <= x < i ==> 0 <= (#[trigger] value_function@[x]).v < FX_SCALE,
            decreases ns - i,
        {
            policy.push(0);
            value_function.push(Fixed { v: rand_below(FX_SCALE as u64) as i64 });
            i += 1;
        }
        let mut t: usize = 0;
        while t < terminal_state.len()
            invariant
                t <= terminal_state@.len(),
                value_function@.len() == ns,
                forall|x: int|
                    0 <= x < terminal_state@.len() ==> ((#[trigger] terminal_state@[x]) as int)
                        < ns,
                forall|x: int| 0 <= x < ns ==> 0 <= (#[trigger] value_function@[x]).v < FX_SCALE,
                forall|x: int|
                    0 <= x < t ==> (#[trigger] value_function@[terminal_state@[x] as int]).v == 0,
            decreases terminal_state@.len() - t,
        {
            let ghost pre = value_function@;
            value_function[terminal_state[t]] = Fixed { v: 0 };
            proof {
                assert forall|x: int|
                    0 <= x < t + 1 implies (
                #[trigger] value_function@[terminal_state@[x] as int]).v == 0 by {
                    if terminal_state@[x] as int != terminal_state@[t as int] as int {
                        assert(value_function@[terminal_state@[x] as int]
                            == pre[terminal_state@[x] as int]);
                    }
                }
            }
            t += 1;
        }
        ValueIterationModel {
            states: s,
            actions: a,
            rewards: r,
            probabilities: p,
            gamma: g,
            policy,
            value_function,
        }
    }

    /// The best action of a state against the current value row: the
    /// returned score is that action's fold, maximal over every
    /// action, with the first strict maximum winning.
    pub fn best_value(&self, state: State) -> (r: (Action, Fixed))
        requires
            self.wf(),
            (state as int) < self.states@.len(),
        ensures
            (r.0 as int) < self.actions@.len(),
            r.1.v as int == vi_cell(*self, self.value_function@, state as int, r.0 as int),
            forall|a: int|
                0 <= a < self.actions@.len() ==> #[trigger] vi_cell(
                    *self,
                    self.value_function@,
                    state as int,
                    a,
                ) <= r.1.v as int,
            forall|a: int|
                0 <= a < r.0 ==> #[trigger] vi_cell(*self, self.value_function@, state as int, a)
                    < r.1.v as int,
    {
        let ns = self.states.len();
        let na = self.actions.len();
        let mut best_action: usize = 0;
        let mut max_value = dp_cell(
            &self.probabilities[state][0],
            &self.rewards[state][0],
            &self.value_function,
            self.gamma,
            ns,
        );
        let mut a: usize = 1;
        while a < na
            invariant
                self.wf(),
                ns == self.states@.len(),
                na == self.actions@.len(),
                (state as int) < ns,
                1 <= a <= na,
                (best_action as int) < a,
                max_value.v as int == vi_cell(
                    *self,
                    self.value_function@,
                    state as int,
                    best_action as int,
                ),
                forall|x: int|
                    0 <= x < a ==> #[trigger] vi_cell(*self, self.value_function@, state as int, x)
                        <= max_value.v as int,
                forall|x: int|
                    0 <= x < best_action ==> #[trigger] vi_cell(
                        *self,
                        self.value_function@,
                        state as int,
                        x,
                    ) < max_value.v as int,
            decreases na - a,
        {
            let total = dp_cell(
                &self.probabilities[state][a],
                &self.rewards[state][a],
                &self.value_function,
                self.gamma,
                ns,
            );
            if total.v > max_value.v {
                max_value = total;
                best_action = a;
            }
            a += 1;
        }
        (best_action, max_value)
    }

    /// One in-place sweep from the current value row: every state takes
    /// its best action and that action's fold; the result is the
    /// largest per-state change.
    fn value_sweep(&mut self) -> (delta: Fixed)
        requires
            old(self).wf(),
        ensures
            final(self).wf(),
            *final(self) == (ValueIterationModel {
                policy: final(self).policy,
                value_function: final(self).value_function,
                ..*old(self)
            }),
            vi_sweep_rel(*final(self), old(self).value_function@),
            delta.v >= 0,
            forall|n: int|
                0 <= n < old(self).value_function@.len() ==> fx_clamp(
                    sp_abs(
                        fx_sub_sp(
                            old(self).value_function@[n].v as int,
                            final(self).value_function@[n].v as int,
                        ),
                    ),
                ) <= delta.v,
    {
        let ns = self.states.len();
        let ghost base = self.value_function@;
        let mut delta = Fixed { v: 0 };
        let mut s: usize = 0;
        while s < ns
            invariant
                self.wf(),
                old(self).wf(),
                ns == self.states@.len(),
                s <= ns,
                base == old(self).value_function@,
                base.len() == ns,
                *self == (ValueIterationModel {
                    policy: self.policy,
                    value_function: self.value_function,
                    ..*old(self)
                }),
                forall|n: int| s <= n < ns ==> self.value_function@[n] == base[n],
                delta.v >= 0,
                forall|n: int|
                    0 <= n < s ==> fx_clamp(
                        sp_abs(
                            fx_sub_sp(base[n].v as int, self.value_function@[n].v as int),
                        ),
                    ) <= delta.v,
                forall|x: int|
                    0 <= x < s ==> {
                        let vals = vi_hybrid(base, self.value_function@, x);
                        let chosen = (#[trigger] self.policy@[x]) as int;
                        &&& self.value_function@[x].v as int == vi_cell(*self, vals, x, chosen)
                        &&& forall|a: int|
                            0 <= a < self.actions@.len() ==> #[trigger] vi_cell(*self, vals, x, a)
                                <= vi_cell(*self, vals, x, chosen)
                        &&& forall|a: int|
                            0 <= a < chosen ==> #[trigger] vi_cell(*self, vals, x, a) < vi_cell(
                                *self,
                                vals,
                                x,
                                chosen,
                            )
                    },
            decreases ns - s,
        {
            let old_value = self.value_function[s];
            let (best_action, max_value) = self.best_value(s);
            let ghost pre = *self;
            proof {
                assert forall|n: int| s <= n < ns implies #[trigger] pre.value_function@[n]
                    == base[n] by {
                    assert(self.value_function@[n] == base[n]);
                }
                assert forall|x: int|
                    0 <= x < s implies {
                    let vals = vi_hybrid(base, pre.value_function@, x);
                    let chosen = (#[trigger] pre.policy@[x]) as int;
                    &&& pre.value_function@[x].v as int == vi_cell(pre, vals, x, chosen)
                    &&& forall|a: int|
                        0 <= a < pre.actions@.len() ==> #[trigger] vi_cell(pre, vals, x, a)
                            <= vi_cell(pre, vals, x, chosen)
                    &&& forall|a: int|
                        0 <= a < chosen ==> #[trigger] vi_cell(pre, vals, x, a) < vi_cell(
                            pre,
                            vals,
                            x,
                            chosen,
                        )
                } by {
                    assert(self.policy@[x] == pre.policy@[x]);
                    assert(self.value_function@ == pre.value_function@);
                }
            }
            let mut p = crate::nn_struct::copy_usize_vec(&self.policy);
            p[s] = best_action;
            self.policy = p;
            let mut vf = crate::nn_struct::copy_fixed_row(&self.value_function);
            vf[s] = max_value;
            self.value_function = vf;
            proof {
                // At state s the row best_value read is exactly the hybrid row.
                assert(pre.value_function@.len() == ns);
                assert(vi_hybrid(base, self.value_function@, s as int).len() == ns);
                assert_seqs_equal!(
                    pre.value_function@ == vi_hybrid(base, self.value_function@, s as int),
                    n => {
                        if n < s {
                            assert(self.value_function@[n] == pre.value_function@[n]);
                        } else {
                            assert(pre.value_function@[n] == base[n]);
                        }
                    }
                );
                assert(self.probabilities == pre.probabilities);
                assert(self.rewards == pre.rewards);
                assert(self.gamma == pre.gamma);
                assert(self.states == pre.states);
                assert(self.actions == pre.actions);
                assert forall|x: int|
                    0 <= x < s + 1 implies {
                    let vals = vi_hybrid(base, self.value_function@, x);
                    let chosen = (#[trigger] self.policy@[x]) as int;
                    &&& self.value_function@[x].v as int == vi_cell(*self, vals, x, chosen)
                    &&& forall|a: int|
                        0 <= a < self.actions@.len() ==> #[trigger] vi_cell(*self, vals, x, a)
                            <= vi_cell(*self, vals, x, chosen)
                    &&& forall|a: int|
                        0 <= a < chosen ==> #[trigger] vi_cell(*self, vals, x, a) < vi_cell(
                            *self,
                            vals,
                            x,
                            chosen,
                        )
                } by {
                    if x < s {
                        assert(vi_hybrid(base, self.value_function@, x) =~= vi_hybrid(
                            base,
                            pre.value_function@,
                            x,
                        ));
                        assert(self.policy@[x] == pre.policy@[x]);
                        let vals = vi_hybrid(base, pre.value_function@, x);
                        let chosen = pre.policy@[x] as int;
                        assert(pre.value_function@[x].v as int == vi_cell(pre, vals, x, chosen));
                        assert forall|a: int|
                            0 <= a < self.actions@.len() implies #[trigger] vi_cell(
                            *self,
                            vals,
                            x,
                            a,
                        ) == vi_cell(pre, vals, x, a) by {
                            assert(self.probabilities@[x] == pre.probabilities@[x]);
                        }
                    } else {
                        assert(vi_hybrid(base, self.value_function@, x) =~= pre.value_function@);
                        assert(self.policy@[x] == best_action);
                        assert(self.value_function@[x] == max_value);
                        let vals = pre.value_function@;
                        assert(max_value.v as int == vi_cell(pre, vals, x, best_action as int));
                        assert forall|a: int|
                            0 <= a < self.actions@.len() implies #[trigger] vi_cell(
                            *self,
                            vals,
                            x,
                            a,
                        ) == vi_cell(pre, vals, x, a) by {
                            assert(self.probabilities@[x] == pre.probabilities@[x]);
                        }
                    }
                }
            }
            let change = old_value.sub(max_value).abs();
            proof {
                assert(old_value == base[s as int]);
                assert(self.value_function@[s as int] == max_value);
            }
            delta = delta.max(change);
            s += 1;
        }
        delta
    }

    /// Sweeps every state, storing its best action and best score,
    /// until the largest per-state change of a sweep falls below
    /// `theta` (or the sweep cap is hit; a capped exit returns false).
    /// On return the stored values and actions are exactly what the
    /// last sweep computed from its starting value row, and a true
    /// result says that sweep moved every value by less than `theta`.
    pub fn iteration(&mut self, theta: Fixed) -> (converged: bool)
        requires
            old(self).wf(),
        ensures
            final(self).wf(),
            *final(self) == (ValueIterationModel {
                policy: final(self).policy,
                value_function: final(self).value_function,
                ..*old(self)
            }),
            exists|base: Seq<Fixed>|
                #[trigger] vi_sweep_rel(*final(self), base) && base.len() == final(
                    self).value_function@.len() && (converged ==> forall|n: int|
                    0 <= n < base.len() ==> sp_abs(
                        fx_sub_sp(base[n].v as int, final(self).value_function@[n].v as int),
                    ) < theta.v),
    {
        let ghost mut last_base = self.value_function@;
        let mut delta = self.value_sweep();
        let mut sweeps: usize = 1;
        while sweeps < MAX_DP_SWEEPS
            invariant
                self.wf(),
                *self == (ValueIterationModel {
                    policy: self.policy,
                    value_function: self.value_function,
                    ..*old(self)
                }),
                vi_sweep_rel(*self, last_base),
                last_base.len() == self.value_function@.len(),
                delta.v >= 0,
                forall|n: int|
                    0 <= n < last_base.len() ==> fx_clamp(
                        sp_abs(
                            fx_sub_sp(last_base[n].v as int, self.value_function@[n].v as int),
                        ),
                    ) <= delta.v,
            decreases MAX_DP_SWEEPS - sweeps,
        {
            if delta.v < theta.v {
                break ;
            }
            proof {
                last_base = self.value_function@;
            }
            delta = self.value_sweep();
            sweeps += 1;
        }
        let converged = delta.v < theta.v;
        proof {
            assert(vi_sweep_rel(*self, last_base));
            if converged {
                assert forall|n: int| 0 <= n < last_base.len() implies sp_abs(
                    fx_sub_sp(last_base[n].v as int, self.value_function@[n].v as int),
                ) < theta.v by {
                    let a = sp_abs(
                        fx_sub_sp(last_base[n].v as int, self.value_function@[n].v as int),
                    );
                    if a > i64::MAX as int {
                        assert(fx_clamp(a) == i64::MAX as int);
                    } else {
                        assert(fx_clamp(a) == a);
                    }
                }
            }
        }
        converged
    }

    /// The dense policy as a state-keyed map.
    pub fn policy_to_hashmap(&self) -> (r: Table<u64>)
        requires
            self.wf(),
        ensures
            r.wf(),
            r.len_sp() == self.policy@.len(),
            forall|i: int|
                0 <= i < self.policy@.len() ==> (#[trigger] r.entries@[i]) == (
                i as u64,
                self.policy@[i] as u64,
            ),
    {
        let n = self.policy.len();
        let mut out: Table<u64> = Table::new();
        let mut i: usize = 0;
        while i < n
            invariant
                n == self.policy@.len(),
                n <= 0x1_0000_0000,
                i <= n,
                out.entries@.len() == i,
                out.wf(),
                forall|x: int|
                    0 <= x < i ==> (#[trigger] out.entries@[x]) == (
                    x as u64,
                    self.policy@[x] as u64,
                ),
            decreases n - i,
        {
            proof {
                assert(forall|x: int|
                    0 <= x < out.entries@.len() ==> (#[trigger] out.entries@[x]).0 == x as u64);
                if out.contains_sp(i as u64) {
                    let w = choose|w: int|
                        0 <= w < out.entries@.len() && (#[trigger] out.entries@[w]).0 == i as u64;
                    assert(false);
                }
            }
            out.insert(i as u64, self.policy[i] as u64);
            i += 1;
        }
        out
    }
}

} // verus!
