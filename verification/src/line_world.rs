use vstd::prelude::*;
use crate::environment::{Action, Environment, Reward, State};
use crate::fixed::{Fixed, FX_SCALE};
use crate::rng::rand_below;
use crate::tools::{fx_one_hot, fx_zeros};

verus! {

/// Raw score of position `s` in a corridor of length `len`: -1.0 at the
/// left end, +1.0 at the right end, 0.0 elsewhere.
pub open spec fn lw_score(len: int, s: int) -> int {
    if s == 0 {
        -(FX_SCALE as int)
    } else if s == len - 1 {
        FX_SCALE as int
    } else {
        0
    }
}

/// Whether action `a` is admissible at position `s`: 0 stands anywhere,
/// 1 moves left off the left boundary, 2 moves right off the right one.
pub open spec fn lw_avail(len: int, s: int, a: int) -> bool {
    a == 0 || (a == 1 && s > 0) || (a == 2 && s < len - 1)
}

/// The position reached from `s` by action `a` (inadmissible moves stand).
pub open spec fn lw_next(len: int, s: int, a: int) -> int {
    if a == 1 && s > 0 {
        s - 1
    } else if a == 2 && s < len - 1 {
        s + 1
    } else {
        s
    }
}

/// Expected immediate reward of the (s, a, n) triple in the eager tensor.
pub open spec fn lw_reward_cell(len: int, s: int, a: int, n: int) -> int {
    if n == lw_next(len, s, a) {
        lw_score(len, n)
    } else {
        0
    }
}

/// Transition probability of the (s, a, n) triple: one-hot on the single
/// deterministic outcome of an admissible action.
pub open spec fn lw_prob_cell(len: int, s: int, a: int, n: int) -> int {
    if lw_avail(len, s, a) && n == lw_next(len, s, a) {
        FX_SCALE as int
    } else {
        0
    }
}

/// A 1-D corridor of `len` positions whose two endpoints are terminal.
pub struct LineWorld {
    pub agent_position: State,
    pub all_position: Vec<State>,
    pub terminal_position: Vec<State>,
    pub all_actions: Vec<Action>,
    pub rewards: Vec<Vec<Vec<Fixed>>>,
    pub probabilities: Vec<Vec<Vec<Fixed>>>,
}

impl LineWorld {
    pub open spec fn len_sp(&self) -> int {
        self.all_position@.len() as int
    }

    pub open spec fn tensor_shape_ok(t: Vec<Vec<Vec<Fixed>>>, len: int) -> bool {
        &&& t@.len() == len
        &&& forall|s: int| 0 <= s < len ==> (#[trigger] t@[s])@.len() == 3
        &&& forall|s: int, a: int|
            0 <= s < len && 0 <= a < 3 ==> (#[trigger] t@[s]@[a])@.len() == len
    }

    pub open spec fn wf(&self) -> bool {
        &&& 2 <= self.len_sp() <= 0x1_0000_0000
        &&& forall|i: int|
            0 <= i < self.len_sp() ==> (#[trigger] self.all_position@[i]) as int == i
        &&& self.terminal_position@.len() == 2
        &&& self.terminal_position@[0] == 0
        &&& self.terminal_position@[1] as int == self.len_sp() - 1
        &&& self.all_actions@.len() == 3
        &&& forall|i: int| 0 <= i < 3 ==> (#[trigger] self.all_actions@[i]) as int == i
        &&& (self.agent_position as int) < self.len_sp()
        &&& Self::tensor_shape_ok(self.rewards, self.len_sp())
        &&& Self::tensor_shape_ok(self.probabilities, self.len_sp())
        &&& forall|s: int, a: int, n: int|
            0 <= s < self.len_sp() && 0 <= a < 3 && 0 <= n < self.len_sp() ==> (
            #[trigger] self.rewards@[s]@[a]@[n]).v == lw_reward_cell(
                self.len_sp(),
                s,
                a,
                n,
            )
        &&& forall|s: int, a: int, n: int|
            0 <= s < self.len_sp() && 0 <= a < 3 && 0 <= n < self.len_sp() ==> (
            #[trigger] self.probabilities@[s]@[a]@[n]).v == lw_prob_cell(
                self.len_sp(),
                s,
                a,
                n,
            )
    }

    /// Builds the corridor, eagerly filling the one-hot transition and
    /// reward tensors over every (state, action) pair.
    pub fn new(len: usize, is_rand: bool, pos: usize) -> (r: LineWorld)
        requires
            2 <= len <= 0x1_0000_0000,
            !is_rand ==> pos < len,
        ensures
            r.wf(),
            r.len_sp() == len,
            !is_rand ==> r.agent_position == pos,
            is_rand ==> 1 <= r.agent_position < len,
    {
        let agent_position: usize = if !is_rand {
            pos
        } else {
            1 + rand_below((len - 1) as u64) as usize
        };
        let mut all_position: Vec<usize> = Vec::new();
        let mut i: usize = 0;
        while i < len
            invariant
                i <= len,
                all_position@.len() == i,
                forall|j: int| 0 <= j < i ==> (#[trigger] all_position@[j]) as int == j,
            decreases len - i,
        {
            all_position.push(i);
            i += 1;
        }
        let terminal_position: Vec<usize> = vec![0, len - 1];
        let all_actions: Vec<usize> = vec![0, 1, 2];
        let rewards = Self::build_rewards(len);
        let probabilities = Self::build_probabilities(len);
        LineWorld {
            agent_position,
            all_position,
            terminal_position,
            all_actions,
            rewards,
            probabilities,
        }
    }

    fn score_at(len: usize, n: usize) -> (r: Fixed)
        requires
            2 <= len,
            n < len,
        ensures
            r.v as int == lw_score(len as int, n as int),
    {
        if n == 0 {
            Fixed { v: -FX_SCALE }
        } else if n == len - 1 {
            Fixed { v: FX_SCALE }
        } else {
            Fixed { v: 0 }
        }
    }

    fn next_at(len: usize, s: usize, a: usize) -> (r: usize)
        requires
            2 <= len,
            s < len,
        ensures
            r as int == lw_next(len as int, s as int, a as int),
            r < len,
    {
        if a == 1 && s > 0 {
            s - 1
        } else if a == 2 && s < len - 1 {
            s + 1
        } else {
            s
        }
    }

    fn build_rewards(len: usize) -> (t: Vec<Vec<Vec<Fixed>>>)
        requires
            2 <= len <= 0x1_0000_0000,
        ensures
            Self::tensor_shape_ok(t, len as int),
            forall|s: int, a: int, n: int|
                0 <= s < len && 0 <= a < 3 && 0 <= n < len ==> (
                #[trigger] t@[s]@[a]@[n]).v == lw_reward_cell(len as int, s, a, n),
    {
        let mut t: Vec<Vec<Vec<Fixed>>> = Vec::new();
        let mut s: usize = 0;
        while s < len
            invariant
                s <= len,
                2 <= len <= 0x1_0000_0000,
                t@.len() == s,
                forall|s2: int| 0 <= s2 < s ==> (#[trigger] t@[s2])@.len() == 3,
                forall|s2: int, a: int|
                    0 <= s2 < s && 0 <= a < 3 ==> (#[trigger] t@[s2]@[a])@.len() == len,
                forall|s2: int, a: int, n: int|
                    0 <= s2 < s && 0 <= a < 3 && 0 <= n < len ==> (
                    #[trigger] t@[s2]@[a]@[n]).v == lw_reward_cell(len as int, s2, a, n),
            decreases len - s,
        {
            let mut row: Vec<Vec<Fixed>> = Vec::new();
            let mut a: usize = 0;
            while a < 3
                invariant
                    a <= 3,
                    s < len,
                    2 <= len <= 0x1_0000_0000,
                    row@.len() == a,
                    forall|a2: int|
                        0 <= a2 < a ==> (#[trigger] row@[a2])@.len() == len,
                    forall|a2: int, n: int|
                        0 <= a2 < a && 0 <= n < len ==> (#[trigger] row@[a2]@[n]).v
                            == lw_reward_cell(len as int, s as int, a2, n),
                decreases 3 - a,
            {
                let next = Self::next_at(len, s, a);
                let val = Self::score_at(len, next);
                let cells = fx_one_hot(len, next, val);
                proof {
                    assert(forall|n: int|
                        0 <= n < len ==> (#[trigger] cells@[n]).v == lw_reward_cell(
                            len as int,
                            s as int,
                            a as int,
                            n,
                        ));
                }
                row.push(cells);
                a += 1;
            }
            t.push(row);
            s += 1;
        }
        t
    }

    fn build_probabilities(len: usize) -> (t: Vec<Vec<Vec<Fixed>>>)
        requires
            2 <= len <= 0x1_0000_0000,
        ensures
            Self::tensor_shape_ok(t, len as int),
            forall|s: int, a: int, n: int|
                0 <= s < len && 0 <= a < 3 && 0 <= n < len ==> (
                #[trigger] t@[s]@[a]@[n]).v == lw_prob_cell(len as int, s, a, n),
    {
        let mut t: Vec<Vec<Vec<Fixed>>> = Vec::new();
        let mut s: usize = 0;
        while s < len
            invariant
                s <= len,
                2 <= len <= 0x1_0000_0000,
                t@.len() == s,
                forall|s2: int| 0 <= s2 < s ==> (#[trigger] t@[s2])@.len() == 3,
                forall|s2: int, a: int|
                    0 <= s2 < s && 0 <= a < 3 ==> (#[trigger] t@[s2]@[a])@.len() == len,
                forall|s2: int, a: int, n: int|
                    0 <= s2 < s && 0 <= a < 3 && 0 <= n < len ==> (
                    #[trigger] t@[s2]@[a]@[n]).v == lw_prob_cell(len as int, s2, a, n),
            decreases len - s,
        {
            let mut row: Vec<Vec<Fixed>> = Vec::new();
            let mut a: usize = 0;
            while a < 3
                invariant
                    a <= 3,
                    s < len,
                    2 <= len <= 0x1_0000_0000,
                    row@.len() == a,
                    forall|a2: int|
                        0 <= a2 < a ==> (#[trigger] row@[a2])@.len() == len,
                    forall|a2: int, n: int|
                        0 <= a2 < a && 0 <= n < len ==> (#[trigger] row@[a2]@[n]).v
                            == lw_prob_cell(len as int, s as int, a2, n),
                decreases 3 - a,
            {
                let avail: bool = a == 0 || (a == 1 && s > 0) || (a == 2 && s < len - 1);
                let cells = if avail {
                    let next = Self::next_at(len, s, a);
                    fx_one_hot(len, next, Fixed { v: FX_SCALE })
                } else {
                    fx_zeros(len)
                };
                proof {
                    assert(forall|n: int|
                        0 <= n < len ==> (#[trigger] cells@[n]).v == lw_prob_cell(
                            len as int,
                            s as int,
                            a as int,
                            n,
                        ));
                }
                row.push(cells);
                a += 1;
            }
            t.push(row);
            s += 1;
        }
        t
    }

    /// True at the two terminal endpoints.
    pub fn is_game_over(&self) -> (r: bool)
        requires
            self.wf(),
        ensures
            r == (self.agent_position == 0 || self.agent_position as int == self.len_sp() - 1),
    {
        self.agent_position == 0 || self.agent_position == self.all_position.len() - 1
    }

    /// Re-initializes the position: fixed when `is_rand` is false, else
    /// a uniformly random interior position, strictly between the two
    /// terminal endpoints.
    pub fn reset(&mut self, is_rand: bool, pos: usize) -> (r: State)
        requires
            old(self).wf(),
            !is_rand ==> pos < old(self).len_sp(),
            is_rand ==> old(self).len_sp() >= 3,
        ensures
            final(self).wf(),
            *final(self) == (LineWorld { agent_position: final(self).agent_position, ..*old(self) }),
            !is_rand ==> final(self).agent_position == pos,
            is_rand ==> 1 <= final(self).agent_position && (final(self).agent_position as int) < final(self).len_sp() - 1,
            r == final(self).agent_position,
    {
        if !is_rand {
            self.agent_position = pos;
        } else {
            let len = self.all_position.len();
            self.agent_position = 1 + rand_below((len - 2) as u64) as usize;
        }
        self.agent_position
    }

    /// One character per position, `X` at the agent.
    pub fn get_display_array(&self) -> (r: Vec<char>)
        requires
            self.wf(),
        ensures
            r@.len() == self.len_sp(),
            forall|i: int|
                0 <= i < r@.len() ==> #[trigger] r@[i] == if i == self.agent_position as int {
                    'X'
                } else {
                    '_'
                },
    {
        let len = self.all_position.len();
        let mut out: Vec<char> = Vec::new();
        let mut i: usize = 0;
        while i < len
            invariant
                i <= len,
                out@.len() == i,
                forall|j: int|
                    0 <= j < i ==> #[trigger] out@[j] == if j == self.agent_position as int {
                        'X'
                    } else {
                        '_'
                    },
            decreases len - i,
        {
            out.push(if i == self.agent_position { 'X' } else { '_' });
            i += 1;
        }
        out
    }
}

impl Environment for LineWorld {
    open spec fn inv(&self) -> bool {
        self.wf()
    }

    open spec fn n_states(&self) -> int {
        self.len_sp()
    }

    open spec fn n_actions(&self) -> int {
        3
    }

    open spec fn state_sp(&self) -> int {
        self.agent_position as int
    }

    open spec fn over_sp(&self) -> bool {
        self.agent_position == 0 || self.agent_position as int == self.len_sp() - 1
    }

    open spec fn avail_sp(&self, a: int) -> bool {
        lw_avail(self.len_sp(), self.agent_position as int, a)
    }

    open spec fn score_sp(&self) -> int {
        lw_score(self.len_sp(), self.agent_position as int)
    }

    open spec fn step_rel(pre: Self, a: int, post: Self, rew: int) -> bool {
        &&& post == (LineWorld {
            agent_position: lw_next(pre.len_sp(), pre.agent_position as int, a) as usize,
            ..pre
        })
        &&& rew == lw_score(pre.len_sp(), post.agent_position as int)
    }

    proof fn space_properties(&self) {
    }

    fn reset(&mut self) -> (r: State) {
        let len = self.all_position.len();
        self.agent_position = rand_below(len as u64) as usize;
        self.agent_position
    }

    fn step(&mut self, action: Action) -> (r: (State, Reward, bool)) {
        let len = self.all_position.len();
        if action == 1 && self.agent_position > 0 {
            self.agent_position = self.agent_position - 1;
        } else if action == 2 && self.agent_position < len - 1 {
            self.agent_position = self.agent_position + 1;
        }
        let reward = Self::score_at(len, self.agent_position);
        let done = self.agent_position == 0 || self.agent_position == len - 1;
        (self.agent_position, reward, done)
    }

    fn available_actions(&self) -> (r: Vec<Action>) {
        let len = self.all_position.len();
        let mut actions: Vec<usize> = Vec::new();
        actions.push(0);
        if self.agent_position > 0 {
            actions.push(1);
        }
        if self.agent_position < len - 1 {
            actions.push(2);
        }
        proof {
            assert forall|aa: int| 0 <= aa < 3 && self.avail_sp(aa) implies exists|i: int|
                0 <= i < actions@.len() && (#[trigger] actions@[i]) as int == aa by {
                if aa == 0 {
                    assert(actions@[0] as int == 0);
                } else if aa == 1 {
                    assert(actions@[1] as int == 1);
                } else {
                    if self.agent_position > 0 {
                        assert(actions@[2] as int == 2);
                    } else {
                        assert(actions@[1] as int == 2);
                    }
                }
            }
        }
        actions
    }

    fn all_states(&self) -> (r: Vec<State>) {
        let len = self.all_position.len();
        let mut out: Vec<usize> = Vec::new();
        let mut i: usize = 0;
        while i < len
            invariant
                i <= len,
                out@.len() == i,
                forall|j: int| 0 <= j < i ==> (#[trigger] out@[j]) as int == j,
            decreases len - i,
        {
            out.push(i);
            i += 1;
        }
        out
    }

    fn all_action(&self) -> (r: Vec<Action>) {
        let mut out: Vec<usize> = Vec::new();
        out.push(0);
        out.push(1);
        out.push(2);
        out
    }

    fn terminal_states(&self) -> (r: Vec<State>) {
        let len = self.all_position.len();
        let mut out: Vec<usize> = Vec::new();
        out.push(0);
        out.push(len - 1);
        out
    }

    fn set_state(&mut self, state: State) {
        self.agent_position = state;
    }

    fn random_state(&mut self) {
        let len = self.all_position.len();
        self.agent_position = rand_below(len as u64) as usize;
    }

    fn state_id(&self) -> (r: State) {
        self.agent_position
    }

    fn score(&self) -> (r: Reward) {
        Self::score_at(self.all_position.len(), self.agent_position)
    }

    fn is_game_over(&self) -> (r: bool) {
        self.agent_position == 0 || self.agent_position == self.all_position.len() - 1
    }

    open spec fn forbidden_sp(&self, idx: int) -> bool {
        false
    }

    fn is_forbidden(&self, state_or_action: usize) -> (r: bool) {
        false
    }
}

} // verus!
