use vstd::prelude::*;
use crate::rng::rand_below;

verus! {

/// The three moves of rock-paper-scissors.
#[derive(Debug, Clone, Copy, PartialEq, Eq, Structural)]
pub enum Action {
    Rock,
    Paper,
    Scissors,
}

/// The beats relation: +1 when `a` beats `b`, -1 when `b` beats `a`,
/// 0 on a tie.
pub open spec fn beats_sp(a: Action, b: Action) -> int {
    match (a, b) {
        (Action::Rock, Action::Scissors) => 1,
        (Action::Scissors, Action::Paper) => 1,
        (Action::Paper, Action::Rock) => 1,
        (Action::Scissors, Action::Rock) => -1,
        (Action::Paper, Action::Scissors) => -1,
        (Action::Rock, Action::Paper) => -1,
        _ => 0,
    }
}

impl Action {
    /// +1 / -1 / 0 for win / loss / tie of `self` against `other`.
    pub fn beats(&self, other: Action) -> (r: i32)
        ensures
            r as int == beats_sp(*self, other),
    {
        match (self, other) {
            (Action::Rock, Action::Scissors) => 1,
            (Action::Scissors, Action::Paper) => 1,
            (Action::Paper, Action::Rock) => 1,
            (Action::Scissors, Action::Rock) => -1,
            (Action::Paper, Action::Scissors) => -1,
            (Action::Rock, Action::Paper) => -1,
            _ => 0,
        }
    }
}

/// The player: draws a uniformly random move.
pub struct Agent;

impl Agent {
    pub fn new() -> Agent {
        Agent
    }

    /// A uniformly random move.
    pub fn choose_action(&self) -> Action {
        let k = rand_below(3);
        if k == 0 {
            Action::Rock
        } else if k == 1 {
            Action::Paper
        } else {
            Action::Scissors
        }
    }
}

/// The fixed-strategy opponent: random in the first round, then it
/// replays the agent's first-round move.
pub struct Adversary {
    pub first_action: Action,
}

impl Adversary {
    pub fn new() -> (r: Adversary)
        ensures
            r.first_action == Action::Rock,
    {
        Adversary { first_action: Action::Rock }
    }

    /// Round 0: remembers the agent's move and replies at random.
    /// Later rounds: replays the remembered first move.
    pub fn choose_action(&mut self, round: usize, agent_first_action: Action) -> (r: Action)
        ensures
            round == 0 ==> final(self).first_action == agent_first_action,
            round != 0 ==> r == old(self).first_action && *final(self) == *old(self),
    {
        if round == 0 {
            let k = rand_below(3);
            let action = if k == 0 {
                Action::Rock
            } else if k == 1 {
                Action::Paper
            } else {
                Action::Scissors
            };
            self.first_action = agent_first_action;
            action
        } else {
            self.first_action
        }
    }
}

/// A two-round duel against the fixed-strategy adversary.
pub struct Environment {
    pub agent: Agent,
    pub adversary: Adversary,
    pub round: usize,
    pub agent_score: i32,
    pub adversary_score: i32,
}

impl Environment {
    pub open spec fn wf(&self) -> bool {
        &&& self.round <= 2
        &&& -(self.round as int) <= self.agent_score as int <= self.round as int
    }

    pub fn new() -> (r: Environment)
        ensures
            r.wf(),
            r.round == 0,
            r.agent_score == 0,
            r.adversary_score == 0,
    {
        Environment {
            agent: Agent::new(),
            adversary: Adversary::new(),
            round: 0,
            agent_score: 0,
            adversary_score: 0,
        }
    }

    /// Plays one round: the adversary answers (randomly in round 0,
    /// with the agent's remembered first move in round 1), the round
    /// result is added to the score, and the game ends after 2 rounds.
    pub fn step(&mut self, agent_action: Action) -> (r: (i32, bool))
        requires
            old(self).wf(),
            old(self).round < 2,
        ensures
            final(self).wf(),
            final(self).round == old(self).round + 1,
            r.1 == (final(self).round >= 2),
            -1 <= r.0 <= 1,
            old(self).round == 1 ==> r.0 as int == beats_sp(
                agent_action,
                old(self).adversary.first_action,
            ),
            old(self).round == 0 ==> final(self).adversary.first_action == agent_action,
            final(self).agent_score == old(self).agent_score + r.0,
            final(self).adversary_score == old(self).adversary_score,
    {
        let round = self.round;
        let adversary_action = self.adversary.choose_action(round, agent_action);
        let result = agent_action.beats(adversary_action);
        self.agent_score = self.agent_score + result;
        self.round = round + 1;
        let done = self.round >= 2;
        (result, done)
    }
}

} // verus!
