use vstd::prelude::*;
use crate::fixed::{Fixed, FX_SCALE};
use crate::rng::rand_below;

verus! {

/// State code of the middle phase: door `c` chosen, door `o` opened.
pub open spec fn mh_code(c: int, o: int) -> int {
    if c == 0 && o == 1 {
        4
    } else if c == 0 && o == 2 {
        5
    } else if c == 1 && o == 0 {
        6
    } else if c == 1 && o == 2 {
        7
    } else if c == 2 && o == 0 {
        8
    } else {
        9
    }
}

/// The single door of a three-door game that is neither `c` nor `o`.
pub open spec fn mh_third(c: int, o: int) -> int {
    3 - c - o
}

/// The door-switching game played over an explicit 21-state chart:
/// states 1..=3 before a choice, 4..=9 once a door is chosen and one
/// opened, 10..=21 terminal (kept from 10..=15, switched from 16..=21).
pub struct MonteHall {
    pub winning_door: usize,
    pub chosen_door: Option<usize>,
    pub opened_door: Option<usize>,
    pub nb_portes: usize,
    pub state: usize,
}

impl MonteHall {
    pub open spec fn wf(&self) -> bool {
        &&& self.nb_portes == 3
        &&& self.winning_door < 3
        &&& (self.chosen_door matches Some(c) ==> c < 3)
        &&& (self.opened_door matches Some(o) ==> o < 3 && o != self.winning_door && (
        self.chosen_door matches Some(c) && o != c))
        &&& 1 <= self.state <= 21
    }

    /// Builds a three-door game with a uniformly random winning door.
    pub fn new(nb_portes: usize) -> (r: MonteHall)
        requires
            nb_portes == 3,
        ensures
            r.wf(),
            r.chosen_door is None,
            r.opened_door is None,
            r.state == 1,
    {
        let winning_door = rand_below(nb_portes as u64) as usize;
        MonteHall { winning_door, chosen_door: None, opened_door: None, nb_portes, state: 1 }
    }

    /// Records the 1-based door choice, then lets the host open a door.
    pub fn choose_door(&mut self, door: usize)
        requires
            old(self).wf(),
            old(self).chosen_door is None,
            old(self).opened_door is None,
            1 <= door <= 3,
        ensures
            final(self).wf(),
            final(self).winning_door == old(self).winning_door,
            final(self).nb_portes == 3,
            final(self).chosen_door == Some((door - 1) as usize),
            final(self).opened_door matches Some(o) && o < 3 && o != final(self).winning_door
                && o != door - 1,
            final(self).state as int == mh_code(
                door - 1,
                final(self).opened_door.unwrap() as int,
            ),
            4 <= final(self).state <= 9,
    {
        self.chosen_door = Some(door - 1);
        self.open_door();
    }

    /// The host opens a uniformly random door that is neither winning
    /// nor chosen, and the state moves to the matching middle code.
    fn open_door(&mut self)
        requires
            old(self).wf(),
            old(self).chosen_door matches Some(c) && c < 3,
            old(self).opened_door is None,
        ensures
            final(self).wf(),
            final(self).winning_door == old(self).winning_door,
            final(self).chosen_door == old(self).chosen_door,
            final(self).nb_portes == old(self).nb_portes,
            final(self).opened_door matches Some(o) && o < 3 && o != final(self).winning_door
                && o != final(self).chosen_door.unwrap(),
            final(self).state as int == mh_code(
                final(self).chosen_door.unwrap() as int,
                final(self).opened_door.unwrap() as int,
            ),
            4 <= final(self).state <= 9,
    {
        let w = self.winning_door;
        let c = match self.chosen_door {
            Some(c) => c,
            None => 0,
        };
        let o0: usize = if w != 0 && c != 0 {
            0
        } else if w != 1 && c != 1 {
            1
        } else {
            2
        };
        let o1: usize = if w != 2 && c != 2 && o0 != 2 {
            2
        } else if w != 1 && c != 1 && o0 != 1 {
            1
        } else {
            o0
        };
        let opened = if o0 == o1 {
            o0
        } else {
            if rand_below(2) == 0 {
                o0
            } else {
                o1
            }
        };
        self.opened_door = Some(opened);
        self.state = if c == 0 && opened == 1 {
            4
        } else if c == 0 && opened == 2 {
            5
        } else if c == 1 && opened == 0 {
            6
        } else if c == 1 && opened == 2 {
            7
        } else if c == 2 && opened == 0 {
            8
        } else {
            9
        };
    }

    /// Moves the choice to the one remaining closed door.
    pub fn switch_choice(&mut self)
        requires
            old(self).wf(),
            old(self).chosen_door matches Some(c),
            old(self).opened_door matches Some(o),
        ensures
            final(self).wf(),
            *final(self) == (MonteHall { chosen_door: final(self).chosen_door, ..*old(self) }),
            final(self).chosen_door == Some(
                mh_third(
                    old(self).chosen_door.unwrap() as int,
                    old(self).opened_door.unwrap() as int,
                ) as usize,
            ),
    {
        let c = match self.chosen_door {
            Some(c) => c,
            None => 0,
        };
        let o = match self.opened_door {
            Some(o) => o,
            None => 0,
        };
        self.chosen_door = Some(3 - c - o);
    }

    /// 1.0 exactly when the currently chosen door is the winning one.
    pub fn reward(&self) -> (r: Fixed)
        ensures
            r.v == if self.chosen_door == Some(self.winning_door) {
                FX_SCALE as int
            } else {
                0
            },
    {
        let won = match self.chosen_door {
            Some(c) => c == self.winning_door,
            None => false,
        };
        if won {
            Fixed { v: FX_SCALE }
        } else {
            Fixed { v: 0 }
        }
    }

    /// True once a terminal state (10 and up) is reached.
    pub fn done(&self) -> (r: bool)
        ensures
            r == (self.state >= 10),
    {
        self.state >= 10
    }

    /// Plays a whole game: choose the 1-based door, keep or switch, and
    /// collect the final reward. Switching wins exactly when the first
    /// pick was wrong.
    pub fn play_game(&mut self, initial_choice: usize, switch: bool) -> (r: Fixed)
        requires
            old(self).wf(),
            old(self).chosen_door is None,
            old(self).opened_door is None,
            1 <= initial_choice <= 3,
            old(self).state <= 3,
        ensures
            final(self).wf(),
            final(self).winning_door == old(self).winning_door,
            final(self).done_sp(),
            !switch ==> (r.v == FX_SCALE <==> initial_choice - 1 == old(self).winning_door),
            switch ==> (r.v == FX_SCALE <==> initial_choice - 1 != old(self).winning_door),
            r.v == FX_SCALE || r.v == 0,
    {
        self.choose_door(initial_choice);
        if switch {
            self.switch_choice();
            proof {
                let w = self.winning_door as int;
                let c0 = initial_choice - 1;
                let o = self.opened_door.unwrap() as int;
                assert(self.chosen_door.unwrap() as int == mh_third(c0 as int, o));
            }
            self.state = self.state + 12;
        } else {
            self.state = self.state + 6;
        }
        self.reward()
    }

    pub open spec fn done_sp(&self) -> bool {
        self.state >= 10
    }
}

} // verus!
