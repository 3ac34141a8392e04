use rustml::dyna_q::DynaQModel;
use rustml::dyna_q_plus::{exploration_bonus, DynaQPlusModel};
use rustml::env_tools::{score, use_policy_in_game, Policy};
use rustml::environment::Environment;
use rustml::fixed::Fixed;
use rustml::learning::EpisodeStep;
use rustml::line_world::LineWorld;
use rustml::monte_carlo_control_struct::MonteCarloControl;
use rustml::monte_carlo_control_struct_off::MonteCarloControlOff;
use rustml::monte_carlo_es::MonteCarloESModel;
use rustml::policy_iteration::PolicyIterationModel;
use rustml::q_learning::QLearning;
use rustml::sarsa::SarsaModel;
use rustml::table::{pair_key, Table};
use rustml::value_iteration::ValueIterationModel;

fn fx(units: i64) -> Fixed {
    Fixed { v: units }
}

#[test]
fn q_learning_update_arithmetic() {
    // alpha = 0.5, gamma = 0.9, Q(s,a) = 0, reward = 1.0, max next = 0:
    // the post-update value is exactly 0.5, and repeating the same
    // transition from 0.5 gives exactly 0.75.
    let mut model = QLearning::new(1, fx(900_000), fx(500_000), fx(0));
    model.apply_q_update(7, 1, fx(1_000_000), fx(0));
    assert_eq!(model.q_values.get(pair_key(7, 1)), Some(fx(500_000)));
    model.apply_q_update(7, 1, fx(1_000_000), fx(0));
    assert_eq!(model.q_values.get(pair_key(7, 1)), Some(fx(750_000)));
}

#[test]
fn q_learning_trains_line_world() {
    let mut env = LineWorld::new(4, false, 1);
    let mut model = QLearning::new(60, fx(900_000), fx(500_000), fx(400_000));
    model.q_learning(&mut env);
    assert!(model.q_values.len() > 0);
    assert!(model.policy.len() > 0);
}

#[test]
fn monte_carlo_first_visit_running_mean() {
    // Replaying one identical episode keeps the pair's Q-value pinned
    // at that episode's discounted return (zero variance).
    let mut model = MonteCarloESModel::new(5, fx(500_000), 20);
    let episode = vec![
        EpisodeStep { state: 0, action: 1, reward: fx(2_000_000) },
        EpisodeStep { state: 1, action: 2, reward: fx(1_000_000) },
    ];
    // g at step 1 = 1.0; g at step 0 = 0.5 * 1.0 + 2.0 = 2.5
    for _ in 0..4 {
        model.process_episode(episode.clone());
    }
    assert_eq!(model.q_values.get(pair_key(0, 1)), Some(fx(2_500_000)));
    assert_eq!(model.q_values.get(pair_key(1, 2)), Some(fx(1_000_000)));
    let lists = &model.return_lists;
    let idx = lists.find(pair_key(0, 1)).unwrap();
    assert_eq!(lists.entries[idx].1.len(), 4);
}

#[test]
fn monte_carlo_first_visit_takes_the_earliest_occurrence() {
    // A pair repeated inside one episode records the return of its
    // earliest occurrence: with gamma = 1 the G accumulated over both
    // steps, not the suffix return of the later occurrence.
    let mut model = MonteCarloESModel::new(5, fx(1_000_000), 20);
    let episode = vec![
        EpisodeStep { state: 0, action: 0, reward: fx(1_000_000) },
        EpisodeStep { state: 0, action: 0, reward: fx(0) },
    ];
    model.process_episode(episode);
    assert_eq!(model.q_values.get(pair_key(0, 0)), Some(fx(1_000_000)));
    let idx = model.return_lists.find(pair_key(0, 0)).unwrap();
    assert_eq!(model.return_lists.entries[idx].1.len(), 1);
}

#[test]
fn monte_carlo_es_trains_line_world() {
    let mut env = LineWorld::new(4, false, 1);
    let mut model = MonteCarloESModel::new(30, fx(600_000), 20);
    model.monte_carlo_es(&mut env);
    assert!(model.q_values.len() > 0);
    let derived = model.derive_policy();
    assert!(derived.len() > 0);
}

#[test]
fn on_policy_control_trains_line_world() {
    let mut env = LineWorld::new(4, false, 1);
    let mut model = MonteCarloControl::new(fx(100_000), fx(900_000));
    model.on_policy_mc_control(&mut env, 30, 25);
    assert!(model.q_values.len() > 0);
    assert!(model.derived_policy.len() > 0);
}

#[test]
fn off_policy_early_stop() {
    // The greedy target action at the later step differs from the
    // taken one, so no earlier pair of the episode is updated.
    let mut model = MonteCarloControlOff::new(fx(100_000), fx(1_000_000));
    model.q_values.insert(pair_key(1, 1), fx(5_000_000));
    model.q_values.insert(pair_key(1, 0), fx(0));
    model.q_values.insert(pair_key(0, 0), fx(42));
    model.c_values.insert(pair_key(0, 0), fx(7));
    let episode = vec![
        EpisodeStep { state: 0, action: 0, reward: fx(1_000_000) },
        EpisodeStep { state: 1, action: 0, reward: fx(0) },
    ];
    let cut = model.process_episode_off_policy(episode);
    assert_eq!(cut, 1);
    // the earlier pair (state 0, action 0) kept both its values
    assert_eq!(model.q_values.get(pair_key(0, 0)), Some(fx(42)));
    assert_eq!(model.c_values.get(pair_key(0, 0)), Some(fx(7)));
}

#[test]
fn off_policy_control_trains_line_world() {
    let mut env = LineWorld::new(4, false, 1);
    let mut model = MonteCarloControlOff::new(fx(100_000), fx(900_000));
    model.off_policy_mc_control(&mut env, 30, 25);
    assert!(model.policy.len() > 0);
}

#[test]
fn sarsa_trains_line_world() {
    let mut env = LineWorld::new(4, false, 1);
    let mut model = SarsaModel::new(&mut env, fx(100_000), fx(900_000), fx(500_000), 20);
    assert_eq!(model.num_states, 4);
    assert_eq!(model.num_actions, 3);
    let policy = model.process_episode(&mut env);
    assert_eq!(policy.len(), 4);
    for a in policy {
        assert!(a < 3);
    }
}

#[test]
fn dyna_q_trains_line_world() {
    let mut env = LineWorld::new(4, false, 1);
    let mut model = DynaQModel::new(40, fx(950_000), fx(500_000), fx(400_000), 5);
    model.dyna_q(&mut env);
    assert!(model.q_values.len() > 0);
    assert!(model.model.len() > 0);
    model.derive_and_assign_policy();
    assert!(model.policy.len() > 0);
}

#[test]
fn dyna_q_plus_recency_and_bonus() {
    // An untried pair's recency counter never falls, and its bonus
    // kappa * sqrt(tau) is non-negative and non-decreasing.
    let mut model = DynaQPlusModel::new(1, fx(950_000), fx(100_000), fx(100_000), 5, fx(1_000));
    let actions = vec![0usize, 1, 2];
    model.update_time_since_last_action(3, &actions);
    model.update_time_since_last_action(3, &actions);
    model.update_time_since_last_action(3, &actions);
    let tau = model.time_since_last_action.get(pair_key(3, 2)).unwrap();
    assert_eq!(tau, 3);
    // a real step resets the taken pair's counter to exactly 0 while
    // the others tick on
    model.note_real_step(3, 2, &actions);
    assert_eq!(model.time_since_last_action.get(pair_key(3, 2)), Some(0));
    assert_eq!(model.time_since_last_action.get(pair_key(3, 0)), Some(4));
    let b0 = exploration_bonus(fx(1_000), 0);
    let b1 = exploration_bonus(fx(1_000), 1);
    let b4 = exploration_bonus(fx(1_000), 4);
    assert_eq!(b0.v, 0);
    assert!(b0.v <= b1.v && b1.v <= b4.v);
    // sqrt(4) = 2.0 exactly, so the bonus is exactly 0.001 * 2
    assert_eq!(b4.v, 2_000);
}

#[test]
fn dyna_q_plus_trains_line_world() {
    let mut env = LineWorld::new(4, false, 1);
    let mut model = DynaQPlusModel::new(30, fx(950_000), fx(100_000), fx(100_000), 5, fx(1_000));
    model.dyna_q_plus(&mut env);
    assert!(model.q_values.len() > 0);
    assert!(model.policy.len() > 0);
}

#[test]
fn policy_iteration_runs_on_line_world() {
    let env = LineWorld::new(4, false, 1);
    let mut model = PolicyIterationModel::new(
        env.all_position.clone(),
        env.all_actions.clone(),
        env.rewards.clone(),
        env.probabilities.clone(),
        fx(999_000),
        env.terminal_position.clone(),
    );
    let best_policy = model.policy_iteration();
    assert_eq!(best_policy.len(), 4);
    for a in best_policy {
        assert!(a < 3);
    }
}

#[test]
fn value_iteration_moves_toward_the_winning_end() {
    let env = LineWorld::new(4, false, 1);
    let mut model = ValueIterationModel::new(
        env.all_position.clone(),
        env.all_actions.clone(),
        env.rewards.clone(),
        env.probabilities.clone(),
        fx(999_000),
        env.terminal_position.clone(),
    );
    let converged = model.iteration(fx(10_000));
    assert!(converged);
    assert_eq!(model.policy.len(), 4);
    assert_eq!(model.policy[2], 2);
}

#[test]
fn score_helper_matches_endpoints() {
    let terminals = vec![0usize, 3];
    assert_eq!(score(0, &terminals).v, -1_000_000);
    assert_eq!(score(3, &terminals).v, 1_000_000);
    assert_eq!(score(1, &terminals).v, 0);
}

#[test]
fn use_policy_in_game_dense_reaches_the_goal() {
    let mut env = LineWorld::new(4, false, 1);
    let (transcript, final_score) = use_policy_in_game(&mut env, Policy::Array(vec![0, 2, 2, 0]));
    assert_eq!(transcript, vec![(1, 2), (2, 2)]);
    assert_eq!(final_score.v, 1_000_000);
}

#[test]
fn use_policy_in_game_sparse_reaches_the_goal() {
    let mut env = LineWorld::new(4, false, 1);
    let mut map: Table<u64> = Table::new();
    map.insert(1, 2);
    map.insert(2, 2);
    let (transcript, final_score) = use_policy_in_game(&mut env, Policy::Sparse(map));
    assert_eq!(transcript.len(), 2);
    assert_eq!(final_score.v, 1_000_000);
}
