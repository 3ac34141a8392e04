use vstd::prelude::*;
use crate::environment::{Action, Environment, Reward, State};
use crate::fixed::{Fixed, FX_SCALE};
use crate::learning::MAX_EPISODE_STEPS;
use crate::table::Table;

verus! {

/// A trained policy: a dense action array indexed by state, or a
/// sparse state-keyed map.
pub enum Policy {
    Array(Vec<Action>),
    Sparse(Table<u64>),
}

/// The endpoint scoring rule shared by the corridor and grid
/// worlds: -1.0 on the first terminal position, +1.0 on the second
/// (the second wins when both match), 0.0 elsewhere.
pub fn score(agent_position: State, terminal_position: &Vec<State>) -> (r: Reward)
    requires
        terminal_position@.len() >= 2,
    ensures
        r.v as int == if agent_position == terminal_position@[1] {
            FX_SCALE as int
        } else if agent_position == terminal_position@[0] {
            -(FX_SCALE as int)
        } else {
            0
        },
{
    let mut result = Fixed { v: 0 };
    if agent_position == terminal_position[0] {
        result = Fixed { v: -FX_SCALE };
    }
    if agent_position == terminal_position[1] {
        result = Fixed { v: FX_SCALE };
    }
    result
}

fn avail_contains<E: Environment>(env: &E, actions: &Vec<Action>, a: Action) -> (r: bool)
    requires
        env.inv(),
        forall|i: int|
            0 <= i < actions@.len() ==> env.avail_sp((#[trigger] actions@[i]) as int),
    ensures
        r ==> env.avail_sp(a as int),
{
    let n = actions.len();
    let mut i: usize = 0;
    while i < n
        invariant
            n == actions@.len(),
            i <= n,
            forall|j: int|
                0 <= j < actions@.len() ==> env.avail_sp((#[trigger] actions@[j]) as int),
        decreases n - i,
    {
        if actions[i] == a {
            return true;
        }
        i += 1;
    }
    false
}

/// Plays a trained policy against a live environment until the episode
/// ends, the policy has no admissible entry, or the step cap is hit.
/// The result lists the (state, action) transitions taken and the
/// final score.
pub fn use_policy_in_game<E: Environment>(env: &mut E, policy: Policy) -> (r: (
    Vec<(State, Action)>,
    Reward,
))
    requires
        old(env).inv(),
        policy matches Policy::Sparse(m) ==> m.wf(),
    ensures
        final(env).inv(),
        r.1.v as int == final(env).score_sp(),
        // Each transcript entry is the policy's own action at its
        // recorded state.
        policy matches Policy::Array(acts) ==> forall|x: int|
            0 <= x < r.0@.len() ==> ((#[trigger] r.0@[x]).0 as int) < acts@.len() && r.0@[x].1
                == acts@[r.0@[x].0 as int],
        policy matches Policy::Sparse(m) ==> forall|x: int|
            0 <= x < r.0@.len() ==> m.contains_sp((#[trigger] r.0@[x]).0 as u64) && (m.val_of(
                r.0@[x].0 as u64,
            ) as usize) == r.0@[x].1,
{
    let mut transcript: Vec<(State, Action)> = Vec::new();
    match policy {
        Policy::Array(actions) => {
            let n = actions.len();
            let mut step_id: usize = 0;
            while step_id < n
                invariant
                    n == actions@.len(),
                    env.inv(),
                    forall|x: int|
                        0 <= x < transcript@.len() ==> ((#[trigger] transcript@[x]).0 as int) < n
                            && transcript@[x].1 == actions@[transcript@[x].0 as int],
                decreases n - step_id,
            {
                if env.is_game_over() {
                    break ;
                }
                let state = env.state_id();
                if step_id == state {
                    let action = actions[step_id];
                    let avail = env.available_actions();
                    if avail_contains(env, &avail, action) {
                        let (_s, _rew, _done) = env.step(action);
                        transcript.push((state, action));
                    }
                }
                step_id += 1;
            }
        },
        Policy::Sparse(action_map) => {
            {
                let mut steps: usize = 0;
                while steps < MAX_EPISODE_STEPS
                    invariant
                        env.inv(),
                        action_map.wf(),
                        forall|x: int|
                            0 <= x < transcript@.len() ==> action_map.contains_sp((
                            #[trigger] transcript@[x]).0 as u64) && (action_map.val_of(
                                transcript@[x].0 as u64,
                            ) as usize) == transcript@[x].1,
                    decreases MAX_EPISODE_STEPS - steps,
                {
                    if env.is_game_over() {
                        break ;
                    }
                    let state = env.state_id();
                    proof {
                        env.space_properties();
                    }
                    let planned = action_map.get(state as u64);
                    match planned {
                        Some(a64) => {
                            let action = a64 as usize;
                            let avail = env.available_actions();
                            if avail_contains(env, &avail, action) {
                                let (_s, _rew, _done) = env.step(action);
                                transcript.push((state, action));
                            } else {
                                break ;
                            }
                        },
                        None => {
                            break ;
                        },
                    }
                    steps += 1;
                }
            }
        },
    }
    let final_score = env.score();
    (transcript, final_score)
}

} // verus!
