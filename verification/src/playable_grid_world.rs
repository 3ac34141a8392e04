use vstd::prelude::*;
use crate::environment::{Action, Reward, State};
use crate::fixed::{Fixed, FX_SCALE};
use crate::grid_world::{GridWorld, gw_move, gw_score};
use crate::rng::rand_below;

verus! {

/// The interactive grid variant: the same MDP as `GridWorld` without
/// the eager tensors, kept for driving by hand.
#[allow(non_camel_case_types)]
pub struct playable_GridWorld {
    pub agent_pos: i64,
    pub lines: usize,
    pub col: usize,
    pub all_pos: Vec<i64>,
    pub go_pos: Vec<i64>,
}

impl playable_GridWorld {
    pub open spec fn len_sp(&self) -> int {
        self.lines as int * self.col as int
    }

    pub open spec fn wf(&self) -> bool {
        &&& 1 <= self.lines
        &&& 1 <= self.col
        &&& 2 <= self.len_sp() <= 0xFFFF_FFFF
        &&& self.all_pos@.len() == self.len_sp()
        &&& forall|i: int| 0 <= i < self.len_sp() ==> (#[trigger] self.all_pos@[i]) as int == i
        &&& self.go_pos@.len() == 2
        &&& self.go_pos@[0] == 0
        &&& self.go_pos@[1] as int == self.len_sp() - 1
        &&& 0 <= self.agent_pos && (self.agent_pos as int) < self.len_sp()
    }

    pub fn new(lines: i64, cols: i64, pos: i64) -> (r: playable_GridWorld)
        requires
            1 <= lines,
            1 <= cols,
            2 <= lines * cols <= 0xFFFF_FFFF,
            0 <= pos < lines * cols,
        ensures
            r.wf(),
            r.agent_pos == pos,
            r.lines == lines,
            r.col == cols,
    {
        proof {
            assert(lines <= lines * cols && cols <= lines * cols) by (nonlinear_arith)
                requires 1 <= lines && 1 <= cols;
            assert(lines as int * cols as int == (lines as usize) as int * (cols as usize) as int)
                by (nonlinear_arith)
                requires 1 <= lines <= 0xFFFF_FFFF && 1 <= cols <= 0xFFFF_FFFF;
        }
        let lines_u = lines as usize;
        let cols_u = cols as usize;
        let len: usize = lines_u * cols_u;
        let mut all_pos: Vec<i64> = Vec::new();
        let mut i: usize = 0;
        while i < len
            invariant
                i <= len,
                len <= 0xFFFF_FFFF,
                all_pos@.len() == i,
                forall|j: int| 0 <= j < i ==> (#[trigger] all_pos@[j]) as int == j,
            decreases len - i,
        {
            all_pos.push(i as i64);
            i += 1;
        }
        let go_pos: Vec<i64> = vec![0, (len - 1) as i64];
        playable_GridWorld { agent_pos: pos, lines: lines_u, col: cols_u, all_pos, go_pos }
    }

    /// Rows of the flattened grid (see `GridWorld::get_grid`).
    pub fn get_grid(flat_vec: Vec<i64>, col: usize) -> (r: Vec<Vec<i64>>)
        requires
            col >= 1,
            (flat_vec@.len() as int) % (col as int) == 0,
        ensures
            r@.len() * col == flat_vec@.len(),
            forall|i: int| 0 <= i < r@.len() ==> (#[trigger] r@[i])@.len() == col,
            forall|i: int, j: int|
                0 <= i < r@.len() && 0 <= j < col ==> (#[trigger] r@[i]@[j]) == flat_vec@[
                    i * col + j
                ],
    {
        GridWorld::get_grid(flat_vec, col)
    }

    /// First (row, column) pair of the grid holding `val` (see
    /// `GridWorld::find_index`).
    pub fn find_index(grid: &Vec<Vec<i64>>, val: usize) -> (r: (usize, usize))
        requires
            exists|i: int, j: int|
                0 <= i < grid@.len() && 0 <= j < grid@[i]@.len() && (#[trigger] grid@[i]@[j])
                    == val as i64,
        ensures
            r.0 < grid@.len(),
            r.1 < grid@[r.0 as int]@.len(),
            grid@[r.0 as int]@[r.1 as int] == val as i64,
    {
        GridWorld::find_index(grid, val)
    }

    /// True at the two terminal corners.
    pub fn is_game_over(&self) -> (r: bool)
        requires
            self.wf(),
        ensures
            r == (self.agent_pos == 0 || self.agent_pos as int == self.len_sp() - 1),
    {
        let len = self.lines * self.col;
        self.agent_pos == 0 || self.agent_pos == (len - 1) as i64
    }

    /// -1.0 at corner 0, +1.0 at the opposite corner, 0.0 elsewhere.
    pub fn score(&self) -> (r: Reward)
        requires
            self.wf(),
        ensures
            r.v as int == gw_score(self.len_sp(), self.agent_pos as int),
    {
        let len = self.lines * self.col;
        if self.agent_pos == 0 {
            Fixed { v: -FX_SCALE }
        } else if self.agent_pos == (len - 1) as i64 {
            Fixed { v: FX_SCALE }
        } else {
            Fixed { v: 0 }
        }
    }

    /// The same guarded moves as `GridWorld::step`.
    pub fn step(&mut self, action: Action) -> (r: (State, Reward, bool))
        requires
            old(self).wf(),
        ensures
            final(self).wf(),
            *final(self) == (playable_GridWorld {
                agent_pos: final(self).agent_pos,
                ..*old(self)
            }),
            old(self).is_over_sp() ==> final(self).agent_pos == old(self).agent_pos,
            !old(self).is_over_sp() ==> final(self).agent_pos as int == gw_move(
                old(self).lines as int,
                old(self).col as int,
                old(self).agent_pos as int,
                action as int,
            ),
            r.0 as int == final(self).agent_pos as int,
    {
        let len = self.lines * self.col;
        if self.agent_pos == 0 || self.agent_pos == (len - 1) as i64 {
            let reward = self.score();
            return (self.agent_pos as usize, reward, true);
        }
        let s = self.agent_pos as usize;
        proof {
            assert(self.col <= self.lines * self.col) by (nonlinear_arith)
                requires 1 <= self.lines && 1 <= self.col;
        }
        let next: usize = if action == 1 && s % self.col != 0 {
            s - 1
        } else if action == 2 && s % self.col != self.col - 1 {
            proof {
                assert((s as int + 1) % (self.col as int) == (s as int) % (self.col as int) + 1
                    && s as int + 1 < self.lines as int * self.col as int) by (nonlinear_arith)
                    requires
                        1 <= self.col && 1 <= self.lines && s < self.lines * self.col && 0 <= s
                            && (s as int) % (self.col as int) != self.col - 1;
            }
            s + 1
        } else if action == 3 && s < len - self.col {
            s + self.col
        } else if action == 4 && s >= self.col {
            s - self.col
        } else {
            s
        };
        self.agent_pos = next as i64;
        let reward = self.score();
        let done = self.is_game_over();
        (next, reward, done)
    }

    pub open spec fn is_over_sp(&self) -> bool {
        self.agent_pos == 0 || self.agent_pos as int == self.len_sp() - 1
    }

    /// 0 always; 1/2/3/4 where the matching edge is not hit.
    pub fn available_actions(&self) -> (r: Vec<Action>)
        requires
            self.wf(),
        ensures
            r@.len() > 0,
            r@[0] == 0,
    {
        proof {
            assert(self.col <= self.lines * self.col) by (nonlinear_arith)
                requires 1 <= self.lines && 1 <= self.col;
        }
        let len = self.lines * self.col;
        let s = self.agent_pos as usize;
        let mut actions: Vec<usize> = Vec::new();
        actions.push(0);
        if s % self.col != 0 {
            actions.push(1);
        }
        if s % self.col != self.col - 1 {
            actions.push(2);
        }
        if s < len - self.col {
            actions.push(3);
        }
        if s >= self.col {
            actions.push(4);
        }
        actions
    }

    pub fn state_id(&self) -> (r: State)
        requires
            self.wf(),
        ensures
            r as int == self.agent_pos as int,
    {
        self.agent_pos as usize
    }

    pub fn reset(&mut self) -> (r: State)
        requires
            old(self).wf(),
        ensures
            final(self).wf(),
            *final(self) == (playable_GridWorld {
                agent_pos: final(self).agent_pos,
                ..*old(self)
            }),
            r as int == final(self).agent_pos as int,
    {
        let len = self.lines * self.col;
        let p = rand_below(len as u64) as usize;
        self.agent_pos = p as i64;
        p
    }
}

} // verus!
