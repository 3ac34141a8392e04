use vstd::prelude::*;
use crate::environment::{Action, Environment, Reward, State};
use crate::fixed::{Fixed, FX_SCALE, fx_tdiv};
use crate::rng::rand_below;
use crate::tools::fx_zeros;

verus! {

/// The door-switching game: a winning door is drawn at construction,
/// the agent picks a door, the host opens a non-winning, non-chosen
/// door while the agent re-selects, and the episode ends with reward
/// 1.0 exactly when the finally chosen door wins.
///
/// The state identifier is the chosen door, or `nb_portes` while no
/// door is chosen, so the state space has `nb_portes + 1` states.
pub struct MontyHall {
    pub winning_door: usize,
    pub chosen_door: Option<usize>,
    pub opened_door: Option<usize>,
    pub nb_portes: usize,
    pub rewards: Vec<Fixed>,
    pub probabilities: Vec<Fixed>,
    pub all_actions: Vec<Action>,
}

impl MontyHall {
    pub open spec fn wf(&self) -> bool {
        &&& 3 <= self.nb_portes < 0xFFFF_FFFF
        &&& self.winning_door < self.nb_portes
        &&& match self.chosen_door {
            Some(c) => c < self.nb_portes,
            None => true,
        }
        &&& match self.opened_door {
            Some(o) => o < self.nb_portes && o != self.winning_door && self.chosen_door is Some,
            None => true,
        }
        &&& self.rewards@.len() == self.nb_portes
        &&& forall|i: int|
            0 <= i < self.nb_portes ==> (#[trigger] self.rewards@[i]).v == if i
                == self.winning_door {
                FX_SCALE as int
            } else {
                0
            }
        &&& self.probabilities@.len() == self.nb_portes
        &&& forall|i: int|
            0 <= i < self.nb_portes ==> (#[trigger] self.probabilities@[i]).v == fx_tdiv(
                FX_SCALE as int,
                self.nb_portes as int,
            )
        &&& self.all_actions@.len() == self.nb_portes
    }

    /// Builds the game with a uniformly random winning door.
    pub fn new(nb_portes: usize) -> (r: MontyHall)
        requires
            3 <= nb_portes < 0xFFFF_FFFF,
        ensures
            r.wf(),
            r.nb_portes == nb_portes,
            r.chosen_door is None,
            r.opened_door is None,
    {
        let winning_door = rand_below(nb_portes as u64) as usize;
        let mut monty_hall = MontyHall {
            winning_door,
            chosen_door: None,
            opened_door: None,
            nb_portes,
            rewards: Vec::new(),
            probabilities: Vec::new(),
            all_actions: Vec::new(),
        };
        let mut k: usize = 0;
        while k < nb_portes
            invariant
                k <= nb_portes,
                monty_hall.all_actions@.len() == k,
                monty_hall.nb_portes == nb_portes,
                monty_hall.winning_door < nb_portes,
                monty_hall.chosen_door is None,
                monty_hall.opened_door is None,
            decreases nb_portes - k,
        {
            monty_hall.all_actions.push(0);
            k += 1;
        }
        monty_hall.init_rewards();
        monty_hall.init_probabilities();
        monty_hall
    }

    /// One slot per door: 1.0 on the winning door, 0.0 elsewhere.
    pub fn init_rewards(&mut self)
        requires
            old(self).winning_door < old(self).nb_portes,
        ensures
            *final(self) == (MontyHall { rewards: final(self).rewards, ..*old(self) }),
            final(self).rewards@.len() == old(self).nb_portes,
            forall|i: int|
                0 <= i < final(self).rewards@.len() ==> (#[trigger] final(self).rewards@[i]).v
                    == if i == old(self).winning_door {
                    FX_SCALE as int
                } else {
                    0
                },
    {
        let nb = self.nb_portes;
        let w = self.winning_door;
        let mut rewards = fx_zeros(nb);
        rewards[w] = Fixed { v: FX_SCALE };
        self.rewards = rewards;
    }

    /// A uniform prior over the doors.
    pub fn init_probabilities(&mut self)
        requires
            old(self).nb_portes >= 1,
        ensures
            *final(self) == (MontyHall { probabilities: final(self).probabilities, ..*old(self) }),
            final(self).probabilities@.len() == old(self).nb_portes,
            forall|i: int|
                0 <= i < final(self).probabilities@.len() ==> (
                #[trigger] final(self).probabilities@[i]).v == fx_tdiv(
                    FX_SCALE as int,
                    old(self).nb_portes as int,
                ),
    {
        let nb = self.nb_portes;
        let share = Fixed { v: FX_SCALE }.div_count(nb as u64);
        let mut probabilities: Vec<Fixed> = Vec::new();
        let mut i: usize = 0;
        while i < nb
            invariant
                i <= nb,
                probabilities@.len() == i,
                share.v as int == fx_tdiv(FX_SCALE as int, nb as int),
                forall|j: int|
                    0 <= j < i ==> (#[trigger] probabilities@[j]).v == fx_tdiv(
                        FX_SCALE as int,
                        nb as int,
                    ),
            decreases nb - i,
        {
            probabilities.push(share);
            i += 1;
        }
        self.probabilities = probabilities;
    }

    /// Any door index may be (re)selected.
    pub fn valid_action(&self, action: usize) -> (r: bool)
        ensures
            r == (action < self.nb_portes),
    {
        action < self.nb_portes
    }

    /// Whether the host may open door `x`: in range, not winning, not chosen.
    pub open spec fn host_ok(&self, x: int) -> bool {
        &&& 0 <= x < self.nb_portes
        &&& x != self.winning_door
        &&& (self.chosen_door matches Some(c) ==> x != c)
    }

    /// A door the host may open: neither winning nor currently chosen.
    fn pick_host_door(&self) -> (r: usize)
        requires
            self.wf(),
        ensures
            r < self.nb_portes,
            r != self.winning_door,
            self.chosen_door matches Some(c) ==> r != c,
    {
        let nb = self.nb_portes;
        let mut candidates: Vec<usize> = Vec::new();
        let mut d: usize = 0;
        while d < nb
            invariant
                self.wf(),
                nb == self.nb_portes,
                d <= nb,
                forall|i: int|
                    0 <= i < candidates@.len() ==> {
                        let c = #[trigger] candidates@[i];
                        c < nb && c != self.winning_door && (self.chosen_door matches Some(ch)
                            ==> c != ch)
                    },
                forall|x: int|
                    x < d && #[trigger] self.host_ok(x) ==> exists|i: int|
                        0 <= i < candidates@.len() && (#[trigger] candidates@[i]) as int == x,
            decreases nb - d,
        {
            let excluded = d == self.winning_door || (match self.chosen_door {
                Some(c) => d == c,
                None => false,
            });
            let ghost pre = candidates@;
            if !excluded {
                candidates.push(d);
            }
            proof {
                assert forall|x: int| x < d + 1 && #[trigger] self.host_ok(x) implies exists|i: int|
                    0 <= i < candidates@.len() && (#[trigger] candidates@[i]) as int == x by {
                    if x == d {
                        assert(!excluded);
                        assert(candidates@[candidates@.len() - 1] as int == x);
                    } else {
                        let i = choose|i: int| 0 <= i < pre.len() && (#[trigger] pre[i]) as int == x;
                        assert(candidates@[i] as int == x);
                    }
                }
            }
            d += 1;
        }
        proof {
            let w = self.winning_door as int;
            let ch: int = match self.chosen_door {
                Some(c) => c as int,
                None => -1,
            };
            let free: int = if w != 0 && ch != 0 {
                0
            } else if w != 1 && ch != 1 {
                1
            } else {
                2
            };
            assert(self.host_ok(free));
            assert(exists|i: int|
                0 <= i < candidates@.len() && (#[trigger] candidates@[i]) as int == free);
        }
        let idx = rand_below(candidates.len() as u64) as usize;
        candidates[idx]
    }
}

impl Environment for MontyHall {
    open spec fn inv(&self) -> bool {
        self.wf()
    }

    open spec fn n_states(&self) -> int {
        self.nb_portes as int + 1
    }

    open spec fn n_actions(&self) -> int {
        self.nb_portes as int
    }

    open spec fn state_sp(&self) -> int {
        match self.chosen_door {
            Some(c) => c as int,
            None => self.nb_portes as int,
        }
    }

    open spec fn over_sp(&self) -> bool {
        self.chosen_door is Some && self.opened_door is Some
    }

    open spec fn avail_sp(&self, a: int) -> bool {
        match self.opened_door {
            None => 0 <= a < self.nb_portes,
            Some(o) => 0 <= a < self.nb_portes && a != o,
        }
    }

    open spec fn score_sp(&self) -> int {
        if self.chosen_door is Some && self.opened_door is Some {
            if self.chosen_door.unwrap() == self.winning_door {
                FX_SCALE as int
            } else {
                0
            }
        } else {
            0
        }
    }

    /// First step records the chosen door; the second lets the host
    /// open a non-winning, non-chosen door while the agent re-selects,
    /// and ends the episode with the final score as its reward.
    open spec fn step_rel(pre: Self, a: int, post: Self, rew: int) -> bool {
        if pre.chosen_door is None {
            &&& post == (MontyHall { chosen_door: Some(a as usize), ..pre })
            &&& rew == 0
        } else {
            &&& post.chosen_door == Some(a as usize)
            &&& post.opened_door matches Some(o) && o < pre.nb_portes && o != pre.winning_door
            &&& post == (MontyHall {
                chosen_door: post.chosen_door,
                opened_door: post.opened_door,
                ..pre
            })
            &&& rew == if a == pre.winning_door {
                FX_SCALE as int
            } else {
                0
            }
        }
    }

    proof fn space_properties(&self) {
    }

    fn reset(&mut self) -> (r: State) {
        let nb = self.nb_portes;
        self.winning_door = rand_below(nb as u64) as usize;
        self.chosen_door = None;
        self.opened_door = None;
        self.init_rewards();
        self.init_probabilities();
        nb
    }

    fn step(&mut self, action: Action) -> (r: (State, Reward, bool)) {
        match self.chosen_door {
            None => {
                self.chosen_door = Some(action);
                (action, Fixed { v: 0 }, false)
            },
            Some(_) => {
                let opened = self.pick_host_door();
                self.opened_door = Some(opened);
                self.chosen_door = Some(action);
                let reward = if action == self.winning_door {
                    Fixed { v: FX_SCALE }
                } else {
                    Fixed { v: 0 }
                };
                (action, reward, true)
            },
        }
    }

    fn available_actions(&self) -> (r: Vec<Action>) {
        let nb = self.nb_portes;
        let mut actions: Vec<usize> = Vec::new();
        let mut d: usize = 0;
        let opened: Option<usize> = self.opened_door;
        while d < nb
            invariant
                self.wf(),
                nb == self.nb_portes,
                opened == self.opened_door,
                d <= nb,
                forall|i: int, j: int| 0 <= i < j < actions@.len() ==> actions@[i] < actions@[j],
                forall|i: int|
                    0 <= i < actions@.len() ==> ((#[trigger] actions@[i]) as int) < d
                        && self.avail_sp(actions@[i] as int),
                forall|x: int|
                    0 <= x < d && self.avail_sp(x) ==> exists|i: int|
                        0 <= i < actions@.len() && (#[trigger] actions@[i]) as int == x,
            decreases nb - d,
        {
            let skip = match opened {
                Some(o) => d == o,
                None => false,
            };
            let ghost pre = actions@;
            if !skip {
                actions.push(d);
            }
            proof {
                assert forall|x: int| 0 <= x < d + 1 && self.avail_sp(x) implies exists|i: int|
                    0 <= i < actions@.len() && (#[trigger] actions@[i]) as int == x by {
                    if x == d {
                        assert(!skip);
                        assert(actions@[actions@.len() - 1] as int == x);
                    } else {
                        let i = choose|i: int| 0 <= i < pre.len() && (#[trigger] pre[i]) as int == x;
                        assert(actions@[i] as int == x);
                    }
                }
            }
            d += 1;
        }
        proof {
            if !self.over_sp() {
                assert(self.avail_sp(0) || self.avail_sp(1));
                if self.avail_sp(0) {
                    assert(exists|i: int|
                        0 <= i < actions@.len() && (#[trigger] actions@[i]) as int == 0);
                } else {
                    assert(exists|i: int|
                        0 <= i < actions@.len() && (#[trigger] actions@[i]) as int == 1);
                }
            }
        }
        actions
    }

    fn all_states(&self) -> (r: Vec<State>) {
        let n = self.nb_portes + 1;
        let mut out: Vec<usize> = Vec::new();
        let mut i: usize = 0;
        while i < n
            invariant
                i <= n,
                out@.len() == i,
                forall|j: int| 0 <= j < i ==> (#[trigger] out@[j]) as int == j,
            decreases n - i,
        {
            out.push(i);
            i += 1;
        }
        out
    }

    fn all_action(&self) -> (r: Vec<Action>) {
        let n = self.nb_portes;
        let mut out: Vec<usize> = Vec::new();
        let mut i: usize = 0;
        while i < n
            invariant
                i <= n,
                out@.len() == i,
                forall|j: int| 0 <= j < i ==> (#[trigger] out@[j]) as int == j,
            decreases n - i,
        {
            out.push(i);
            i += 1;
        }
        out
    }

    fn terminal_states(&self) -> (r: Vec<State>) {
        let mut out: Vec<usize> = Vec::new();
        let mut i: usize = 0;
        let n = self.nb_portes;
        while i < n
            invariant
                i <= n,
                n == self.nb_portes,
                self.wf(),
                out@.len() == i,
                forall|j: int| 0 <= j < i ==> ((#[trigger] out@[j]) as int) < n,
            decreases n - i,
        {
            out.push(i);
            i += 1;
        }
        out
    }

    fn set_state(&mut self, state: State) {
        if state < self.nb_portes {
            self.chosen_door = Some(state);
        } else {
            self.chosen_door = None;
            self.opened_door = None;
        }
    }

    fn random_state(&mut self) {
        let s = rand_below((self.nb_portes + 1) as u64) as usize;
        if s < self.nb_portes {
            self.chosen_door = Some(s);
        } else {
            self.chosen_door = None;
            self.opened_door = None;
        }
    }

    fn state_id(&self) -> (r: State) {
        match self.chosen_door {
            Some(c) => c,
            None => self.nb_portes,
        }
    }

    fn score(&self) -> (r: Reward) {
        match (self.chosen_door, self.opened_door) {
            (Some(chosen), Some(_)) => {
                if chosen == self.winning_door {
                    Fixed { v: FX_SCALE }
                } else {
                    Fixed { v: 0 }
                }
            },
            _ => Fixed { v: 0 },
        }
    }

    fn is_game_over(&self) -> (r: bool) {
        self.chosen_door.is_some() && self.opened_door.is_some()
    }

    open spec fn forbidden_sp(&self, idx: int) -> bool {
        false
    }

    fn is_forbidden(&self, state_or_action: usize) -> (r: bool) {
        false
    }
}

} // verus!
