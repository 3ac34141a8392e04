use vstd::prelude::*;
use crate::environment::{Action, Environment, Reward, State};
use crate::fixed::{Fixed, FX_SCALE};
use crate::rng::rand_below;
use crate::tools::{fx_one_hot, fx_zeros};

verus! {

/// Raw score of cell `s` in a grid of `len` cells: -1.0 at cell 0,
/// +1.0 at the opposite corner, 0.0 elsewhere.
pub open spec fn gw_score(len: int, s: int) -> int {
    if s == 0 {
        -(FX_SCALE as int)
    } else if s == len - 1 {
        FX_SCALE as int
    } else {
        0
    }
}

pub open spec fn gw_terminal(len: int, s: int) -> bool {
    s == 0 || s == len - 1
}

/// Whether action `a` is admissible at cell `s` of a `lines x cols`
/// grid: 0 stands; 1/2 move left/right inside the row; 3/4 move
/// down/up inside the column; a terminal cell only offers 0.
pub open spec fn gw_avail(lines: int, cols: int, s: int, a: int) -> bool {
    if gw_terminal(lines * cols, s) {
        a == 0
    } else {
        ||| a == 0
        ||| (a == 1 && s % cols != 0)
        ||| (a == 2 && s % cols != cols - 1)
        ||| (a == 3 && s < lines * cols - cols)
        ||| (a == 4 && s >= cols)
    }
}

/// The cell reached from `s` by the raw move `a` (guarded at the edges).
pub open spec fn gw_move(lines: int, cols: int, s: int, a: int) -> int {
    if a == 1 && s % cols != 0 {
        s - 1
    } else if a == 2 && s % cols != cols - 1 {
        s + 1
    } else if a == 3 && s < lines * cols - cols {
        s + cols
    } else if a == 4 && s >= cols {
        s - cols
    } else {
        s
    }
}

/// The next cell recorded by the eager tensor sweep: an inadmissible
/// action (including any action probed from a terminal cell) stands.
pub open spec fn gw_tnext(lines: int, cols: int, s: int, a: int) -> int {
    if gw_avail(lines, cols, s, a) {
        gw_move(lines, cols, s, a)
    } else {
        s
    }
}

pub open spec fn gw_reward_cell(lines: int, cols: int, s: int, a: int, n: int) -> int {
    if n == gw_tnext(lines, cols, s, a) {
        gw_score(lines * cols, n)
    } else {
        0
    }
}

pub open spec fn gw_prob_cell(lines: int, cols: int, s: int, a: int, n: int) -> int {
    if gw_avail(lines, cols, s, a) && n == gw_tnext(lines, cols, s, a) {
        FX_SCALE as int
    } else {
        0
    }
}

/// A `lines x cols` grid flattened to cells `0..lines*cols`, with the
/// two opposite corners terminal.
pub struct GridWorld {
    pub agent_position: State,
    pub lines: usize,
    pub col: usize,
    pub all_position: Vec<i64>,
    pub terminal_position: Vec<State>,
    pub all_actions: Vec<i64>,
    pub probabilities: Vec<Vec<Vec<Fixed>>>,
    pub rewards: Vec<Vec<Vec<Fixed>>>,
}

impl GridWorld {
    pub open spec fn len_sp(&self) -> int {
        self.lines as int * self.col as int
    }

    pub open spec fn tensor_shape_ok(t: Vec<Vec<Vec<Fixed>>>, len: int) -> bool {
        &&& t@.len() == len
        &&& forall|s: int| 0 <= s < len ==> (#[trigger] t@[s])@.len() == 5
        &&& forall|s: int, a: int|
            0 <= s < len && 0 <= a < 5 ==> (#[trigger] t@[s]@[a])@.len() == len
    }

    pub open spec fn wf(&self) -> bool {
        &&& 1 <= self.lines
        &&& 1 <= self.col
        &&& 2 <= self.len_sp() <= 0xFFFF_FFFF
        &&& self.all_position@.len() == self.len_sp()
        &&& forall|i: int|
            0 <= i < self.len_sp() ==> (#[trigger] self.all_position@[i]) as int == i
        &&& self.terminal_position@.len() == 2
        &&& self.terminal_position@[0] == 0
        &&& self.terminal_position@[1] as int == self.len_sp() - 1
        &&& self.all_actions@.len() == 5
        &&& forall|i: int| 0 <= i < 5 ==> (#[trigger] self.all_actions@[i]) as int == i
        &&& (self.agent_position as int) < self.len_sp()
        &&& Self::tensor_shape_ok(self.rewards, self.len_sp())
        &&& Self::tensor_shape_ok(self.probabilities, self.len_sp())
        &&& forall|s: int, a: int, n: int|
            0 <= s < self.len_sp() && 0 <= a < 5 && 0 <= n < self.len_sp() ==> (
            #[trigger] self.rewards@[s]@[a]@[n]).v == gw_reward_cell(
                self.lines as int,
                self.col as int,
                s,
                a,
                n,
            )
        &&& forall|s: int, a: int, n: int|
            0 <= s < self.len_sp() && 0 <= a < 5 && 0 <= n < self.len_sp() ==> (
            #[trigger] self.probabilities@[s]@[a]@[n]).v == gw_prob_cell(
                self.lines as int,
                self.col as int,
                s,
                a,
                n,
            )
    }

    /// Builds the grid, eagerly filling the one-hot transition and
    /// reward tensors over every (state, action) pair.
    pub fn new(lines: i64, cols: i64, pos: State) -> (r: GridWorld)
        requires
            1 <= lines,
            1 <= cols,
            2 <= lines * cols <= 0xFFFF_FFFF,
            (pos as int) < lines * cols,
        ensures
            r.wf(),
            r.lines == lines,
            r.col == cols,
            r.agent_position == pos,
    {
        proof {
            assert(lines <= lines * cols && cols <= lines * cols) by (nonlinear_arith)
                requires 1 <= lines && 1 <= cols;
        }
        let lines_u: usize = lines as usize;
        let cols_u: usize = cols as usize;
        proof {
            assert(lines_u as int * cols_u as int == lines as int * cols as int)
                by (nonlinear_arith)
                requires lines_u as int == lines as int && cols_u as int == cols as int;
        }
        let len: usize = lines_u * cols_u;
        let mut all_position: Vec<i64> = Vec::new();
        let mut i: usize = 0;
        while i < len
            invariant
                i <= len,
                len <= 0xFFFF_FFFF,
                all_position@.len() == i,
                forall|j: int| 0 <= j < i ==> (#[trigger] all_position@[j]) as int == j,
            decreases len - i,
        {
            all_position.push(i as i64);
            i += 1;
        }
        let terminal_position: Vec<usize> = vec![0, len - 1];
        let all_actions: Vec<i64> = vec![0, 1, 2, 3, 4];
        let rewards = Self::build_tensor(lines_u, cols_u, true);
        let probabilities = Self::build_tensor(lines_u, cols_u, false);
        GridWorld {
            agent_position: pos,
            lines: lines_u,
            col: cols_u,
            all_position,
            terminal_position,
            all_actions,
            probabilities,
            rewards,
        }
    }

    fn score_at(len: usize, n: usize) -> (r: Fixed)
        requires
            2 <= len,
            n < len,
        ensures
            r.v as int == gw_score(len as int, n as int),
    {
        if n == 0 {
            Fixed { v: -FX_SCALE }
        } else if n == len - 1 {
            Fixed { v: FX_SCALE }
        } else {
            Fixed { v: 0 }
        }
    }

    fn avail_at(lines: usize, cols: usize, s: usize, a: usize) -> (r: bool)
        requires
            1 <= lines,
            1 <= cols,
            lines * cols <= 0xFFFF_FFFF,
            s < lines * cols,
        ensures
            r == gw_avail(lines as int, cols as int, s as int, a as int),
    {
        proof {
            assert(cols <= lines * cols) by (nonlinear_arith)
                requires 1 <= lines && 1 <= cols;
        }
        let len = lines * cols;
        if s == 0 || s == len - 1 {
            a == 0
        } else {
            a == 0 || (a == 1 && s % cols != 0) || (a == 2 && s % cols != cols - 1) || (a == 3 && s
                < len - cols) || (a == 4 && s >= cols)
        }
    }

    fn move_at(lines: usize, cols: usize, s: usize, a: usize) -> (r: usize)
        requires
            1 <= lines,
            1 <= cols,
            lines * cols <= 0xFFFF_FFFF,
            s < lines * cols,
        ensures
            r as int == gw_move(lines as int, cols as int, s as int, a as int),
            r < lines * cols,
    {
        proof {
            assert((s as int) % (cols as int) <= s as int) by (nonlinear_arith)
                requires cols >= 1 && s >= 0;
        }
        if a == 1 && s % cols != 0 {
            s - 1
        } else if a == 2 && s % cols != cols - 1 {
            proof {
                assert((s as int + 1) % (cols as int) == (s as int) % (cols as int) + 1 && s as int + 1 < lines as int * cols as int)
                    by (nonlinear_arith)
                    requires
                        1 <= cols && 1 <= lines && s < lines * cols && 0 <= s
                            && (s as int) % (cols as int) != cols - 1;
            }
            s + 1
        } else if a == 3 && {
            proof {
                assert(cols <= lines * cols) by (nonlinear_arith)
                    requires 1 <= lines && 1 <= cols;
            }
            s < lines * cols - cols
        } {
            s + cols
        } else if a == 4 && s >= cols {
            s - cols
        } else {
            s
        }
    }

    fn build_tensor(lines: usize, cols: usize, is_rewards: bool) -> (t: Vec<Vec<Vec<Fixed>>>)
        requires
            1 <= lines,
            1 <= cols,
            2 <= lines * cols <= 0xFFFF_FFFF,
        ensures
            Self::tensor_shape_ok(t, lines as int * cols as int),
            is_rewards ==> forall|s: int, a: int, n: int|
                0 <= s < lines * cols && 0 <= a < 5 && 0 <= n < lines * cols ==> (
                #[trigger] t@[s]@[a]@[n]).v == gw_reward_cell(lines as int, cols as int, s, a, n),
            !is_rewards ==> forall|s: int, a: int, n: int|
                0 <= s < lines * cols && 0 <= a < 5 && 0 <= n < lines * cols ==> (
                #[trigger] t@[s]@[a]@[n]).v == gw_prob_cell(lines as int, cols as int, s, a, n),
    {
        let len: usize = lines * cols;
        let mut t: Vec<Vec<Vec<Fixed>>> = Vec::new();
        let mut s: usize = 0;
        while s < len
            invariant
                s <= len,
                len == lines * cols,
                1 <= lines,
                1 <= cols,
                2 <= len <= 0xFFFF_FFFF,
                t@.len() == s,
                forall|s2: int| 0 <= s2 < s ==> (#[trigger] t@[s2])@.len() == 5,
                forall|s2: int, a: int|
                    0 <= s2 < s && 0 <= a < 5 ==> (#[trigger] t@[s2]@[a])@.len() == len,
                is_rewards ==> forall|s2: int, a: int, n: int|
                    0 <= s2 < s && 0 <= a < 5 && 0 <= n < len ==> (#[trigger] t@[s2]@[a]@[n]).v
                        == gw_reward_cell(lines as int, cols as int, s2, a, n),
                !is_rewards ==> forall|s2: int, a: int, n: int|
                    0 <= s2 < s && 0 <= a < 5 && 0 <= n < len ==> (#[trigger] t@[s2]@[a]@[n]).v
                        == gw_prob_cell(lines as int, cols as int, s2, a, n),
            decreases len - s,
        {
            let mut row: Vec<Vec<Fixed>> = Vec::new();
            let mut a: usize = 0;
            while a < 5
                invariant
                    a <= 5,
                    s < len,
                    len == lines * cols,
                    1 <= lines,
                    1 <= cols,
                    2 <= len <= 0xFFFF_FFFF,
                    row@.len() == a,
                    forall|a2: int| 0 <= a2 < a ==> (#[trigger] row@[a2])@.len() == len,
                    is_rewards ==> forall|a2: int, n: int|
                        0 <= a2 < a && 0 <= n < len ==> (#[trigger] row@[a2]@[n]).v
                            == gw_reward_cell(lines as int, cols as int, s as int, a2, n),
                    !is_rewards ==> forall|a2: int, n: int|
                        0 <= a2 < a && 0 <= n < len ==> (#[trigger] row@[a2]@[n]).v
                            == gw_prob_cell(lines as int, cols as int, s as int, a2, n),
                decreases 5 - a,
            {
                let avail = Self::avail_at(lines, cols, s, a);
                let next: usize = if avail {
                    Self::move_at(lines, cols, s, a)
                } else {
                    s
                };
                let cells = if is_rewards {
                    fx_one_hot(len, next, Self::score_at(len, next))
                } else {
                    if avail {
                        fx_one_hot(len, next, Fixed { v: FX_SCALE })
                    } else {
                        fx_zeros(len)
                    }
                };
                proof {
                    if is_rewards {
                        assert(forall|n: int|
                            0 <= n < len ==> (#[trigger] cells@[n]).v == gw_reward_cell(
                                lines as int,
                                cols as int,
                                s as int,
                                a as int,
                                n,
                            ));
                    } else {
                        assert(forall|n: int|
                            0 <= n < len ==> (#[trigger] cells@[n]).v == gw_prob_cell(
                                lines as int,
                                cols as int,
                                s as int,
                                a as int,
                                n,
                            ));
                    }
                }
                row.push(cells);
                a += 1;
            }
            t.push(row);
            s += 1;
        }
        t
    }

    /// Splits a flat vector into consecutive rows of `col` cells.
    pub fn get_grid(flat_vec: Vec<i64>, col: usize) -> (r: Vec<Vec<i64>>)
        requires
            col >= 1,
            (flat_vec@.len() as int) % (col as int) == 0,
        ensures
            r@.len() * col == flat_vec@.len(),
            forall|i: int| 0 <= i < r@.len() ==> (#[trigger] r@[i])@.len() == col,
            forall|i: int, j: int|
                0 <= i < r@.len() && 0 <= j < col ==> (#[trigger] r@[i]@[j]) == flat_vec@[
                    i * col + j
                ],
    {
        let n = flat_vec.len();
        let mut out: Vec<Vec<i64>> = Vec::new();
        let mut start: usize = 0;
        proof {
            assert(0int * (col as int) == 0) by (nonlinear_arith);
        }
        while start < n
            invariant
                col >= 1,
                n == flat_vec@.len(),
                (n as int) % (col as int) == 0,
                start <= n,
                start == out@.len() * col,
                forall|i: int| 0 <= i < out@.len() ==> (#[trigger] out@[i])@.len() == col,
                forall|i: int, j: int|
                    0 <= i < out@.len() && 0 <= j < col ==> (#[trigger] out@[i]@[j]) == flat_vec@[
                        i * col + j
                    ],
            decreases n - start,
        {
            proof {
                assert(start + col <= n) by (nonlinear_arith)
                    requires
                        col >= 1 && start < n && (n as int) % (col as int) == 0 && start
                            == out@.len() * (col as int) && n >= 0 && out@.len() >= 0;
            }
            let mut chunk: Vec<i64> = Vec::new();
            let mut k: usize = start;
            while k < start + col
                invariant
                    start <= k <= start + col <= n,
                    n == flat_vec@.len(),
                    chunk@.len() == k - start,
                    forall|j: int|
                        0 <= j < chunk@.len() ==> #[trigger] chunk@[j] == flat_vec@[start + j],
                decreases start + col - k,
            {
                chunk.push(flat_vec[k]);
                k += 1;
            }
            proof {
                assert((out@.len() + 1) * (col as int) == start + col) by (nonlinear_arith)
                    requires start == out@.len() * (col as int);
            }
            out.push(chunk);
            start = start + col;
        }
        out
    }

    /// Position of `val` in the grid: the first (row, column) pair
    /// holding it.
    pub fn find_index(grid: &Vec<Vec<i64>>, val: usize) -> (r: (usize, usize))
        requires
            exists|i: int, j: int|
                0 <= i < grid@.len() && 0 <= j < grid@[i]@.len() && (#[trigger] grid@[i]@[j])
                    == val as i64,
        ensures
            r.0 < grid@.len(),
            r.1 < grid@[r.0 as int]@.len(),
            grid@[r.0 as int]@[r.1 as int] == val as i64,
    {
        let rows = grid.len();
        let mut i: usize = 0;
        while i < rows
            invariant
                rows == grid@.len(),
                i <= rows,
                exists|i2: int, j2: int|
                    0 <= i2 < grid@.len() && 0 <= j2 < grid@[i2]@.len() && (
                    #[trigger] grid@[i2]@[j2]) == val as i64,
                forall|i2: int, j2: int|
                    0 <= i2 < i && 0 <= j2 < grid@[i2]@.len() ==> (#[trigger] grid@[i2]@[j2])
                        != val as i64,
            decreases rows - i,
        {
            let cols_here = grid[i].len();
            let mut j: usize = 0;
            while j < cols_here
                invariant
                    i < rows,
                    rows == grid@.len(),
                    cols_here == grid@[i as int]@.len(),
                    j <= cols_here,
                    forall|j2: int| 0 <= j2 < j ==> grid@[i as int]@[j2] != val as i64,
                decreases cols_here - j,
            {
                if grid[i][j] == val as i64 {
                    return (i, j);
                }
                j += 1;
            }
            i += 1;
        }
        proof {
            assert(false);
        }
        (0, 0)
    }

    /// One character per cell, row by row, `X` at the agent.
    pub fn get_display_array(&self) -> (r: Vec<Vec<char>>)
        requires
            self.wf(),
        ensures
            r@.len() == self.lines,
            forall|i: int| 0 <= i < r@.len() ==> (#[trigger] r@[i])@.len() == self.col,
            forall|i: int, j: int|
                0 <= i < r@.len() && 0 <= j < self.col ==> (#[trigger] r@[i]@[j]) == (
                if i * self.col + j == self.agent_position as int {
                    'X'
                } else {
                    '_'
                }),
    {
        let mut out: Vec<Vec<char>> = Vec::new();
        let mut i: usize = 0;
        while i < self.lines
            invariant
                self.wf(),
                i <= self.lines,
                out@.len() == i,
                forall|i2: int| 0 <= i2 < i ==> (#[trigger] out@[i2])@.len() == self.col,
                forall|i2: int, j: int|
                    0 <= i2 < i && 0 <= j < self.col ==> (#[trigger] out@[i2]@[j]) == (
                    if i2 * self.col + j == self.agent_position as int {
                        'X'
                    } else {
                        '_'
                    }),
            decreases self.lines - i,
        {
            let mut line: Vec<char> = Vec::new();
            let mut j: usize = 0;
            proof {
                assert(i * self.col + self.col <= self.lines as int * self.col as int)
                    by (nonlinear_arith)
                    requires i < self.lines && self.col >= 1 && i >= 0;
            }
            while j < self.col
                invariant
                    self.wf(),
                    i < self.lines,
                    j <= self.col,
                    i * self.col + self.col <= 0xFFFF_FFFF,
                    line@.len() == j,
                    forall|j2: int|
                        0 <= j2 < j ==> (#[trigger] line@[j2]) == (
                        if i * self.col + j2 == self.agent_position as int {
                            'X'
                        } else {
                            '_'
                        }),
                decreases self.col - j,
            {
                line.push(
                    if i * self.col + j == self.agent_position {
                        'X'
                    } else {
                        '_'
                    },
                );
                j += 1;
            }
            out.push(line);
            i += 1;
        }
        out
    }
}

impl Environment for GridWorld {
    open spec fn inv(&self) -> bool {
        self.wf()
    }

    open spec fn n_states(&self) -> int {
        self.len_sp()
    }

    open spec fn n_actions(&self) -> int {
        5
    }

    open spec fn state_sp(&self) -> int {
        self.agent_position as int
    }

    open spec fn over_sp(&self) -> bool {
        gw_terminal(self.len_sp(), self.agent_position as int)
    }

    open spec fn avail_sp(&self, a: int) -> bool {
        gw_avail(self.lines as int, self.col as int, self.agent_position as int, a)
    }

    open spec fn score_sp(&self) -> int {
        gw_score(self.len_sp(), self.agent_position as int)
    }

    open spec fn step_rel(pre: Self, a: int, post: Self, rew: int) -> bool {
        &&& post == (GridWorld {
            agent_position: gw_move(
                pre.lines as int,
                pre.col as int,
                pre.agent_position as int,
                a,
            ) as usize,
            ..pre
        })
        &&& rew == gw_score(pre.len_sp(), post.agent_position as int)
    }

    proof fn space_properties(&self) {
    }

    fn reset(&mut self) -> (r: State) {
        let len = self.lines * self.col;
        self.agent_position = rand_below(len as u64) as usize;
        self.agent_position
    }

    fn step(&mut self, action: Action) -> (r: (State, Reward, bool)) {
        let len = self.lines * self.col;
        self.agent_position = Self::move_at(self.lines, self.col, self.agent_position, action);
        let reward = Self::score_at(len, self.agent_position);
        let done = self.agent_position == 0 || self.agent_position == len - 1;
        (self.agent_position, reward, done)
    }

    fn available_actions(&self) -> (r: Vec<Action>) {
        proof {
            assert(self.col <= self.lines * self.col) by (nonlinear_arith)
                requires 1 <= self.lines && 1 <= self.col;
        }
        let len = self.lines * self.col;
        let s = self.agent_position;
        let mut actions: Vec<usize> = Vec::new();
        if s == 0 || s == len - 1 {
            actions.push(0);
        } else {
            actions.push(0);
            if s % self.col != 0 {
                actions.push(1);
            }
            if s % self.col != self.col - 1 {
                actions.push(2);
            }
            if s < len - self.col {
                actions.push(3);
            }
            if s >= self.col {
                actions.push(4);
            }
        }
        proof {
            let sp = self.agent_position as int;
            let cols = self.col as int;
            let b1 = sp % cols != 0;
            let b2 = sp % cols != cols - 1;
            let b3 = sp < self.len_sp() - cols;
            assert forall|aa: int| 0 <= aa < 5 && self.avail_sp(aa) implies exists|i: int|
                0 <= i < actions@.len() && (#[trigger] actions@[i]) as int == aa by {
                if aa == 0 {
                    assert(actions@[0] as int == 0);
                } else if aa == 1 {
                    assert(actions@[1] as int == 1);
                } else if aa == 2 {
                    if b1 {
                        assert(actions@[2] as int == 2);
                    } else {
                        assert(actions@[1] as int == 2);
                    }
                } else if aa == 3 {
                    if b1 && b2 {
                        assert(actions@[3] as int == 3);
                    } else if b1 || b2 {
                        assert(actions@[2] as int == 3);
                    } else {
                        assert(actions@[1] as int == 3);
                    }
                } else {
                    if b1 && b2 && b3 {
                        assert(actions@[4] as int == 4);
                    } else if (b1 && b2) || (b1 && b3) || (b2 && b3) {
                        assert(actions@[3] as int == 4);
                    } else if b1 || b2 || b3 {
                        assert(actions@[2] as int == 4);
                    } else {
                        assert(actions@[1] as int == 4);
                    }
                }
            }
        }
        actions
    }

    fn all_states(&self) -> (r: Vec<State>) {
        let len = self.lines * self.col;
        let mut out: Vec<usize> = Vec::new();
        let mut i: usize = 0;
        while i < len
            invariant
                i <= len,
                out@.len() == i,
                forall|j: int| 0 <= j < i ==> (#[trigger] out@[j]) as int == j,
            decreases len - i,
        {
            out.push(i);
            i += 1;
        }
        out
    }

    fn all_action(&self) -> (r: Vec<Action>) {
        let mut out: Vec<usize> = Vec::new();
        out.push(0);
        out.push(1);
        out.push(2);
        out.push(3);
        out.push(4);
        out
    }

    fn terminal_states(&self) -> (r: Vec<State>) {
        let len = self.lines * self.col;
        let mut out: Vec<usize> = Vec::new();
        out.push(0);
        out.push(len - 1);
        out
    }

    fn set_state(&mut self, state: State) {
        self.agent_position = state;
    }

    fn random_state(&mut self) {
        let len = self.lines * self.col;
        self.agent_position = rand_below(len as u64) as usize;
    }

    fn state_id(&self) -> (r: State) {
        self.agent_position
    }

    fn score(&self) -> (r: Reward) {
        Self::score_at(self.lines * self.col, self.agent_position)
    }

    fn is_game_over(&self) -> (r: bool) {
        let len = self.lines * self.col;
        self.agent_position == 0 || self.agent_position == len - 1
    }

    open spec fn forbidden_sp(&self, idx: int) -> bool {
        false
    }

    fn is_forbidden(&self, state_or_action: usize) -> (r: bool) {
        false
    }
}

} // verus!
