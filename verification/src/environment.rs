use vstd::prelude::*;
use crate::fixed::Fixed;

verus! {

/// A state identifier: a non-negative index into an environment's state space.
pub type State = usize;

/// An action identifier: a non-negative index into a state's admissible moves.
pub type Action = usize;

/// A scalar reward signal.
pub type Reward = Fixed;

/// Keys packing a (state, action) pair keep both halves below this bound.
pub const KEY_HALF: u64 = 0x1_0000_0000;

/// The capability every environment variant implements, so that each
/// solver is written once against it.
///
/// Each implementor gives bodies to the spec functions, which pins the
/// concrete transition structure; the executable methods promise to
/// follow those spec functions, so generic code sees exactly as much of
/// an environment as its spec functions reveal.
pub trait Environment: Sized {
    /// Internal well-formedness of the environment value.
    spec fn inv(&self) -> bool;

    /// Number of states, as `all_states` enumerates them.
    spec fn n_states(&self) -> int;

    /// Number of nominal actions, as `all_action` enumerates them.
    spec fn n_actions(&self) -> int;

    /// The current state identifier.
    spec fn state_sp(&self) -> int;

    /// Whether the episode has terminated.
    spec fn over_sp(&self) -> bool;

    /// Whether action `a` is admissible in the current state.
    spec fn avail_sp(&self, a: int) -> bool;

    /// The current score, as a raw fixed-point value.
    spec fn score_sp(&self) -> int;

    /// Whether the given state or action index is masked off.
    spec fn forbidden_sp(&self, idx: int) -> bool;

    /// How one `step` may transform the environment: relates the state
    /// before, the action taken, the state after and the raw reward
    /// returned. Stochastic environments make this a relation, not a
    /// function.
    spec fn step_rel(pre: Self, a: int, post: Self, rew: int) -> bool;

    /// The shape of the state and action space never changes, and the
    /// current state stays inside it.
    proof fn space_properties(&self)
        requires
            self.inv(),
        ensures
            2 <= self.n_states() <= KEY_HALF,
            1 <= self.n_actions() <= KEY_HALF,
            0 <= self.state_sp() < self.n_states(),
            forall|a: int| self.avail_sp(a) ==> 0 <= a < self.n_actions(),
    ;

    /// Re-initializes the episode; returns the new state identifier.
    fn reset(&mut self) -> (r: State)
        requires
            old(self).inv(),
        ensures
            final(self).inv(),
            final(self).n_states() == old(self).n_states(),
            final(self).n_actions() == old(self).n_actions(),
            r as int == final(self).state_sp(),
    ;

    /// Applies one admissible action; returns the new state, the
    /// immediate reward and whether the episode has now terminated.
    fn step(&mut self, action: Action) -> (r: (State, Reward, bool))
        requires
            old(self).inv(),
            !old(self).over_sp(),
            old(self).avail_sp(action as int),
        ensures
            final(self).inv(),
            final(self).n_states() == old(self).n_states(),
            final(self).n_actions() == old(self).n_actions(),
            Self::step_rel(*old(self), action as int, *final(self), r.1.v as int),
            r.0 as int == final(self).state_sp(),
            r.2 == final(self).over_sp(),
    ;

    /// The admissible actions of the current state, in increasing order.
    fn available_actions(&self) -> (r: Vec<Action>)
        requires
            self.inv(),
        ensures
            !self.over_sp() ==> r@.len() > 0,
            forall|i: int| 0 <= i < r@.len() ==> self.avail_sp((#[trigger] r@[i]) as int),
            forall|a: int|
                0 <= a < self.n_actions() ==> (self.avail_sp(a) <==> exists|i: int|
                    0 <= i < r@.len() && (#[trigger] r@[i]) as int == a),
            forall|i: int, j: int| 0 <= i < j < r@.len() ==> r@[i] < r@[j],
    ;

    /// Every state identifier, in increasing order starting at 0.
    fn all_states(&self) -> (r: Vec<State>)
        requires
            self.inv(),
        ensures
            r@.len() == self.n_states(),
            forall|i: int| 0 <= i < r@.len() ==> (#[trigger] r@[i]) as int == i,
    ;

    /// Every nominal action identifier, in increasing order starting at 0.
    fn all_action(&self) -> (r: Vec<Action>)
        requires
            self.inv(),
        ensures
            r@.len() == self.n_actions(),
            forall|i: int| 0 <= i < r@.len() ==> (#[trigger] r@[i]) as int == i,
    ;

    /// The subset of states that are terminal.
    fn terminal_states(&self) -> (r: Vec<State>)
        requires
            self.inv(),
        ensures
            forall|i: int| 0 <= i < r@.len() ==> ((#[trigger] r@[i]) as int) < self.n_states(),
    ;

    /// Forces the environment into the given state.
    fn set_state(&mut self, state: State)
        requires
            old(self).inv(),
            0 <= state < old(self).n_states(),
        ensures
            final(self).inv(),
            final(self).n_states() == old(self).n_states(),
            final(self).n_actions() == old(self).n_actions(),
            final(self).state_sp() == state as int,
    ;

    /// Jumps to a random reachable state.
    fn random_state(&mut self)
        requires
            old(self).inv(),
        ensures
            final(self).inv(),
            final(self).n_states() == old(self).n_states(),
            final(self).n_actions() == old(self).n_actions(),
    ;

    fn state_id(&self) -> (r: State)
        requires
            self.inv(),
        ensures
            r as int == self.state_sp(),
    ;

    fn score(&self) -> (r: Reward)
        requires
            self.inv(),
        ensures
            r.v as int == self.score_sp(),
    ;

    fn is_game_over(&self) -> (r: bool)
        requires
            self.inv(),
        ensures
            r == self.over_sp(),
    ;

    /// True if the given state or action index is masked off.
    fn is_forbidden(&self, state_or_action: usize) -> (r: bool)
        requires
            self.inv(),
        ensures
            r == self.forbidden_sp(state_or_action as int),
    ;
}

} // verus!
