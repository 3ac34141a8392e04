use vstd::prelude::*;
use crate::environment::{Action as ActionId, Environment, Reward, State};
use crate::fixed::{Fixed, FX_SCALE, fx_tdiv};
use crate::rng::rand_below;

verus! {

/// The three moves of the two-round duel environment.
#[allow(non_camel_case_types)]
#[derive(Debug, Clone, Copy, PartialEq, Eq, Structural)]
pub enum Action_game {
    Rock,
    Paper,
    Scissors,
}

/// +1 / -1 / 0 for win / loss / tie of `a` against `b`.
pub open spec fn ag_beats(a: Action_game, b: Action_game) -> int {
    match (a, b) {
        (Action_game::Rock, Action_game::Scissors) => 1,
        (Action_game::Scissors, Action_game::Paper) => 1,
        (Action_game::Paper, Action_game::Rock) => 1,
        (Action_game::Scissors, Action_game::Rock) => -1,
        (Action_game::Paper, Action_game::Scissors) => -1,
        (Action_game::Rock, Action_game::Paper) => -1,
        _ => 0,
    }
}

/// The move standing for action index `a`.
pub open spec fn ag_of(a: int) -> Action_game {
    if a == 0 {
        Action_game::Rock
    } else if a == 1 {
        Action_game::Paper
    } else {
        Action_game::Scissors
    }
}

/// Scores clamp to the +-2 a two-round game can reach.
pub open spec fn rps_clamp(x: int) -> int {
    if x > 2 {
        2
    } else if x < -2 {
        -2
    } else {
        x
    }
}

impl Action_game {
    pub fn beats(&self, other: Action_game) -> (r: i32)
        ensures
            r as int == ag_beats(*self, other),
    {
        match (self, other) {
            (Action_game::Rock, Action_game::Scissors) => 1,
            (Action_game::Scissors, Action_game::Paper) => 1,
            (Action_game::Paper, Action_game::Rock) => 1,
            (Action_game::Scissors, Action_game::Rock) => -1,
            (Action_game::Paper, Action_game::Scissors) => -1,
            (Action_game::Rock, Action_game::Paper) => -1,
            _ => 0,
        }
    }
}

fn ag_at(a: usize) -> (r: Action_game)
    requires
        a < 3,
    ensures
        r == ag_of(a as int),
{
    if a == 0 {
        Action_game::Rock
    } else if a == 1 {
        Action_game::Paper
    } else {
        Action_game::Scissors
    }
}

/// The two-round duel as an environment: the state is the round
/// counter (0, 1, terminal 2), the score the agent's cumulative round
/// results, and the adversary is random in round 0 and replays the
/// agent's first move in round 1.
pub struct RPSGame {
    pub agent_action: Option<Action_game>,
    pub adversary_action: Option<Action_game>,
    pub first_agent_action: Option<Action_game>,
    pub round: usize,
    pub agent_score: i32,
    pub adversary_score: i32,
    pub rewards: Vec<Vec<Vec<Fixed>>>,
    pub probabilities: Vec<Vec<Vec<Fixed>>>,
    pub all_position: Vec<State>,
    pub all_actions: Vec<ActionId>,
    pub terminal_position: Vec<State>,
}

impl RPSGame {
    pub open spec fn wf(&self) -> bool {
        &&& self.round <= 2
        &&& -2 <= self.agent_score <= 2
        &&& self.all_position@ =~= seq![0usize, 1usize, 2usize]
        &&& self.all_actions@ =~= seq![0usize, 1usize, 2usize]
        &&& self.terminal_position@ =~= seq![2usize]
        &&& self.rewards@.len() == 3
        &&& forall|s: int| 0 <= s < 3 ==> (#[trigger] self.rewards@[s])@.len() == 3
        &&& forall|s: int, a: int|
            0 <= s < 3 && 0 <= a < 3 ==> (#[trigger] self.rewards@[s]@[a])@.len() == 3
        &&& forall|s: int, a: int, n: int|
            0 <= s < 3 && 0 <= a < 3 && 0 <= n < 3 ==> (#[trigger] self.rewards@[s]@[a]@[n]).v
                == ag_beats(ag_of(a), ag_of(n)) * FX_SCALE
        &&& self.probabilities@.len() == 3
        &&& forall|s: int| 0 <= s < 3 ==> (#[trigger] self.probabilities@[s])@.len() == 3
        &&& forall|s: int, a: int|
            0 <= s < 3 && 0 <= a < 3 ==> (#[trigger] self.probabilities@[s]@[a])@.len() == 3
        &&& forall|s: int, a: int, n: int|
            0 <= s < 3 && 0 <= a < 3 && 0 <= n < 3 ==> (
            #[trigger] self.probabilities@[s]@[a]@[n]).v == fx_tdiv(FX_SCALE as int, 3)
    }

    /// Builds the duel with its 3x3x3 reward tensor (the round result
    /// for each move pair, under a uniform-adversary assumption) and
    /// the uniform probability tensor.
    pub fn new() -> (r: RPSGame)
        ensures
            r.wf(),
            r.round == 0,
            r.agent_score == 0,
            r.agent_action is None,
            r.first_agent_action is None,
    {
        let all_position: Vec<usize> = vec![0, 1, 2];
        let all_actions: Vec<usize> = vec![0, 1, 2];
        let terminal_position: Vec<usize> = vec![2];
        let third = Fixed { v: FX_SCALE }.div_count(3);
        let mut rewards: Vec<Vec<Vec<Fixed>>> = Vec::new();
        let mut probabilities: Vec<Vec<Vec<Fixed>>> = Vec::new();
        let mut s: usize = 0;
        while s < 3
            invariant
                s <= 3,
                third.v as int == fx_tdiv(FX_SCALE as int, 3),
                rewards@.len() == s,
                probabilities@.len() == s,
                forall|s2: int| 0 <= s2 < s ==> (#[trigger] rewards@[s2])@.len() == 3,
                forall|s2: int, a: int|
                    0 <= s2 < s && 0 <= a < 3 ==> (#[trigger] rewards@[s2]@[a])@.len() == 3,
                forall|s2: int, a: int, n: int|
                    0 <= s2 < s && 0 <= a < 3 && 0 <= n < 3 ==> (
                    #[trigger] rewards@[s2]@[a]@[n]).v == ag_beats(ag_of(a), ag_of(n)) * FX_SCALE,
                forall|s2: int| 0 <= s2 < s ==> (#[trigger] probabilities@[s2])@.len() == 3,
                forall|s2: int, a: int|
                    0 <= s2 < s && 0 <= a < 3 ==> (#[trigger] probabilities@[s2]@[a])@.len() == 3,
                forall|s2: int, a: int, n: int|
                    0 <= s2 < s && 0 <= a < 3 && 0 <= n < 3 ==> (
                    #[trigger] probabilities@[s2]@[a]@[n]).v == fx_tdiv(FX_SCALE as int, 3),
            decreases 3 - s,
        {
            let mut r_row: Vec<Vec<Fixed>> = Vec::new();
            let mut p_row: Vec<Vec<Fixed>> = Vec::new();
            let mut a: usize = 0;
            while a < 3
                invariant
                    a <= 3,
                    third.v as int == fx_tdiv(FX_SCALE as int, 3),
                    r_row@.len() == a,
                    p_row@.len() == a,
                    forall|a2: int| 0 <= a2 < a ==> (#[trigger] r_row@[a2])@.len() == 3,
                    forall|a2: int, n: int|
                        0 <= a2 < a && 0 <= n < 3 ==> (#[trigger] r_row@[a2]@[n]).v == ag_beats(
                            ag_of(a2),
                            ag_of(n),
                        ) * FX_SCALE,
                    forall|a2: int| 0 <= a2 < a ==> (#[trigger] p_row@[a2])@.len() == 3,
                    forall|a2: int, n: int|
                        0 <= a2 < a && 0 <= n < 3 ==> (#[trigger] p_row@[a2]@[n]).v == fx_tdiv(
                            FX_SCALE as int,
                            3,
                        ),
                decreases 3 - a,
            {
                let agent_move = ag_at(a);
                let mut r_cells: Vec<Fixed> = Vec::new();
                let mut p_cells: Vec<Fixed> = Vec::new();
                let mut n: usize = 0;
                while n < 3
                    invariant
                        n <= 3,
                        a < 3,
                        agent_move == ag_of(a as int),
                        third.v as int == fx_tdiv(FX_SCALE as int, 3),
                        r_cells@.len() == n,
                        p_cells@.len() == n,
                        forall|n2: int|
                            0 <= n2 < n ==> (#[trigger] r_cells@[n2]).v == ag_beats(
                                ag_of(a as int),
                                ag_of(n2),
                            ) * FX_SCALE,
                        forall|n2: int|
                            0 <= n2 < n ==> (#[trigger] p_cells@[n2]).v == fx_tdiv(
                                FX_SCALE as int,
                                3,
                            ),
                    decreases 3 - n,
                {
                    let adversary_move = ag_at(n);
                    let result = agent_move.beats(adversary_move);
                    r_cells.push(Fixed { v: (result as i64) * FX_SCALE });
                    p_cells.push(third);
                    n += 1;
                }
                r_row.push(r_cells);
                p_row.push(p_cells);
                a += 1;
            }
            rewards.push(r_row);
            probabilities.push(p_row);
            s += 1;
        }
        RPSGame {
            agent_action: None,
            adversary_action: None,
            first_agent_action: None,
            round: 0,
            agent_score: 0,
            adversary_score: 0,
            rewards,
            probabilities,
            all_position,
            all_actions,
            terminal_position,
        }
    }

    /// The adversary's reply: uniformly random in round 0, else the
    /// agent's remembered first move (or, where none was recorded, the
    /// current one).
    pub fn choose_adversary_action(&self, current: Action_game) -> (r: Action_game)
        ensures
            self.round != 0 ==> r == match self.first_agent_action {
                Some(f) => f,
                None => current,
            },
    {
        if self.round == 0 {
            let k = rand_below(3);
            if k == 0 {
                Action_game::Rock
            } else if k == 1 {
                Action_game::Paper
            } else {
                Action_game::Scissors
            }
        } else {
            match self.first_agent_action {
                Some(f) => f,
                None => current,
            }
        }
    }

    /// Plays the whole two-round game with the same move each round.
    pub fn play_two_rounds(&mut self, action: ActionId)
        requires
            old(self).wf(),
            old(self).round == 0,
            action < 3,
        ensures
            final(self).wf(),
            final(self).round == 2,
            final(self).over_sp(),
    {
        let _ = self.step(action);
        let _ = self.step(action);
    }
}

impl Environment for RPSGame {
    open spec fn inv(&self) -> bool {
        self.wf()
    }

    open spec fn n_states(&self) -> int {
        3
    }

    open spec fn n_actions(&self) -> int {
        3
    }

    open spec fn state_sp(&self) -> int {
        self.round as int
    }

    open spec fn over_sp(&self) -> bool {
        self.round >= 2
    }

    open spec fn avail_sp(&self, a: int) -> bool {
        0 <= a < 3
    }

    open spec fn score_sp(&self) -> int {
        self.agent_score as int * FX_SCALE as int
    }

    open spec fn step_rel(pre: Self, a: int, post: Self, rew: int) -> bool {
        &&& post.agent_action == Some(ag_of(a))
        &&& post.first_agent_action == if pre.round == 0 {
            Some(ag_of(a))
        } else {
            pre.first_agent_action
        }
        &&& post.adversary_action matches Some(adv) && (pre.round != 0 ==> adv == (
        match pre.first_agent_action {
            Some(f) => f,
            None => ag_of(a),
        }))
        &&& post.round == pre.round + 1
        &&& rew == ag_beats(ag_of(a), post.adversary_action.unwrap()) * FX_SCALE
        &&& post.agent_score as int == rps_clamp(
            pre.agent_score + ag_beats(ag_of(a), post.adversary_action.unwrap()),
        )
        &&& post == (RPSGame {
            agent_action: post.agent_action,
            adversary_action: post.adversary_action,
            first_agent_action: post.first_agent_action,
            round: post.round,
            agent_score: post.agent_score,
            ..pre
        })
    }

    proof fn space_properties(&self) {
    }

    fn reset(&mut self) -> (r: State) {
        self.agent_action = None;
        self.adversary_action = None;
        self.first_agent_action = None;
        self.round = 0;
        self.agent_score = 0;
        self.adversary_score = 0;
        0
    }

    fn step(&mut self, action: ActionId) -> (r: (State, Reward, bool)) {
        let agent_action = ag_at(action);
        self.agent_action = Some(agent_action);
        if self.round == 0 {
            self.first_agent_action = Some(agent_action);
        }
        let adversary = self.choose_adversary_action(agent_action);
        self.adversary_action = Some(adversary);
        let result = agent_action.beats(adversary);
        let bumped = self.agent_score + result;
        self.agent_score = if bumped > 2 {
            2
        } else if bumped < -2 {
            -2
        } else {
            bumped
        };
        self.round = self.round + 1;
        let done = self.round >= 2;
        (self.round, Fixed { v: (result as i64) * FX_SCALE }, done)
    }

    fn available_actions(&self) -> (r: Vec<ActionId>) {
        let mut actions: Vec<usize> = Vec::new();
        actions.push(0);
        actions.push(1);
        actions.push(2);
        proof {
            assert forall|aa: int| 0 <= aa < 3 && self.avail_sp(aa) implies exists|i: int|
                0 <= i < actions@.len() && (#[trigger] actions@[i]) as int == aa by {
                assert(actions@[aa] as int == aa);
            }
        }
        actions
    }

    fn all_states(&self) -> (r: Vec<State>) {
        let mut out: Vec<usize> = Vec::new();
        out.push(0);
        out.push(1);
        out.push(2);
        out
    }

    fn all_action(&self) -> (r: Vec<ActionId>) {
        let mut out: Vec<usize> = Vec::new();
        out.push(0);
        out.push(1);
        out.push(2);
        out
    }

    fn terminal_states(&self) -> (r: Vec<State>) {
        let mut out: Vec<usize> = Vec::new();
        out.push(2);
        out
    }

    fn set_state(&mut self, state: State) {
        self.round = state;
        if self.agent_score > 2 {
            self.agent_score = 2;
        }
        if self.agent_score < -2 {
            self.agent_score = -2;
        }
    }

    fn random_state(&mut self) {
        self.round = rand_below(3) as usize;
    }

    fn state_id(&self) -> (r: State) {
        self.round
    }

    fn score(&self) -> (r: Reward) {
        Fixed { v: (self.agent_score as i64) * FX_SCALE }
    }

    fn is_game_over(&self) -> (r: bool) {
        self.round >= 2
    }

    open spec fn forbidden_sp(&self, idx: int) -> bool {
        false
    }

    fn is_forbidden(&self, state_or_action: usize) -> (r: bool) {
        false
    }
}

} // verus!
