use vstd::prelude::*;
use crate::environment::{Action, Reward, State};
use crate::fixed::{Fixed, FX_SCALE};
use crate::rng::rand_below;

verus! {

/// The interactive corridor variant: positions are numbered 1..=len,
/// with 1 and len terminal. Behaviourally the same MDP as `LineWorld`,
/// kept for driving by hand.
#[allow(non_camel_case_types)]
pub struct playable_line_world {
    pub agent_pos: State,
    pub all_pos: Vec<State>,
    pub go_pos: Vec<State>,
}

impl playable_line_world {
    pub open spec fn len_sp(&self) -> int {
        self.all_pos@.len() as int
    }

    pub open spec fn wf(&self) -> bool {
        &&& 2 <= self.len_sp() <= 0xFFFF_FFFF
        &&& forall|i: int| 0 <= i < self.len_sp() ==> (#[trigger] self.all_pos@[i]) as int == i + 1
        &&& self.go_pos@.len() == 2
        &&& self.go_pos@[0] == 1
        &&& self.go_pos@[1] as int == self.len_sp()
        &&& 1 <= self.agent_pos as int <= self.len_sp()
    }

    pub fn new(len: usize, is_rand: bool, pos: usize) -> (r: playable_line_world)
        requires
            2 <= len <= 0xFFFF_FFFF,
            !is_rand ==> 1 <= pos <= len,
        ensures
            r.wf(),
            r.len_sp() == len,
            !is_rand ==> r.agent_pos == pos,
    {
        let agent_pos = if !is_rand {
            pos
        } else {
            1 + rand_below(len as u64) as usize
        };
        let mut all_pos: Vec<usize> = Vec::new();
        let mut i: usize = 0;
        while i < len
            invariant
                i <= len,
                len <= 0xFFFF_FFFF,
                all_pos@.len() == i,
                forall|j: int| 0 <= j < i ==> (#[trigger] all_pos@[j]) as int == j + 1,
            decreases len - i,
        {
            all_pos.push(i + 1);
            i += 1;
        }
        let go_pos: Vec<usize> = vec![1, len];
        playable_line_world { agent_pos, all_pos, go_pos }
    }

    /// True at the two terminal endpoints.
    pub fn is_game_over(&self) -> (r: bool)
        requires
            self.wf(),
        ensures
            r == (self.agent_pos == 1 || self.agent_pos as int == self.len_sp()),
    {
        self.agent_pos == 1 || self.agent_pos == self.all_pos.len()
    }

    /// -1.0 at the left end, +1.0 at the right end, 0.0 elsewhere.
    pub fn score(&self) -> (r: Reward)
        requires
            self.wf(),
        ensures
            r.v as int == if self.agent_pos == 1 {
                -(FX_SCALE as int)
            } else if self.agent_pos as int == self.len_sp() {
                FX_SCALE as int
            } else {
                0
            },
    {
        if self.agent_pos == 1 {
            Fixed { v: -FX_SCALE }
        } else if self.agent_pos == self.all_pos.len() {
            Fixed { v: FX_SCALE }
        } else {
            Fixed { v: 0 }
        }
    }

    /// Action 1 moves left off the left end, 2 right off the right end,
    /// anything else stands.
    pub fn step(&mut self, action: Action) -> (r: (State, Reward, bool))
        requires
            old(self).wf(),
        ensures
            final(self).wf(),
            *final(self) == (playable_line_world {
                agent_pos: final(self).agent_pos,
                ..*old(self)
            }),
            final(self).agent_pos as int == if action == 1 && old(self).agent_pos > 1 {
                old(self).agent_pos - 1
            } else if action == 2 && (old(self).agent_pos as int) < old(self).len_sp() {
                old(self).agent_pos + 1
            } else {
                old(self).agent_pos as int
            },
            r.0 == final(self).agent_pos,
    {
        let len = self.all_pos.len();
        if action == 1 && self.agent_pos > 1 {
            self.agent_pos = self.agent_pos - 1;
        } else if action == 2 && self.agent_pos < len {
            self.agent_pos = self.agent_pos + 1;
        }
        let reward = self.score();
        let done = self.is_game_over();
        (self.agent_pos, reward, done)
    }

    /// 0 always; 1 off the left end; 2 off the right end.
    pub fn available_actions(&self) -> (r: Vec<Action>)
        requires
            self.wf(),
        ensures
            r@.len() > 0,
            r@[0] == 0,
    {
        let len = self.all_pos.len();
        let mut actions: Vec<usize> = Vec::new();
        actions.push(0);
        if self.agent_pos > 1 {
            actions.push(1);
        }
        if self.agent_pos < len {
            actions.push(2);
        }
        actions
    }

    pub fn state_id(&self) -> (r: State)
        ensures
            r == self.agent_pos,
    {
        self.agent_pos
    }
}

} // verus!
