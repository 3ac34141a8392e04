use rustml::environment::Environment as EnvironmentTrait;
use rustml::rps_game::{Action_game, RPSGame};
use rustml::two_round_rock_paper_scissors::{Action, Adversary, Agent, Environment};

#[test]
fn test_action_beats() {
    assert_eq!(Action::Rock.beats(Action::Scissors), 1);
    assert_eq!(Action::Scissors.beats(Action::Paper), 1);
    assert_eq!(Action::Paper.beats(Action::Rock), 1);
    assert_eq!(Action::Scissors.beats(Action::Rock), -1);
    assert_eq!(Action::Paper.beats(Action::Scissors), -1);
    assert_eq!(Action::Rock.beats(Action::Paper), -1);
    assert_eq!(Action::Rock.beats(Action::Rock), 0);
    assert_eq!(Action::Paper.beats(Action::Paper), 0);
    assert_eq!(Action::Scissors.beats(Action::Scissors), 0);
}

#[test]
fn test_agent_choose_action() {
    let agent = Agent::new();
    let action = agent.choose_action();
    assert!(matches!(action, Action::Rock | Action::Paper | Action::Scissors));
}

#[test]
fn test_adversary_choose_action() {
    let mut adversary = Adversary::new();
    let action = adversary.choose_action(0, Action::Rock);
    assert!(matches!(action, Action::Rock | Action::Paper | Action::Scissors));
    assert_eq!(adversary.choose_action(1, Action::Paper), Action::Rock);
}

#[test]
fn test_environment_step() {
    let mut env = Environment::new();
    let agent_action_round_1 = env.agent.choose_action();
    let (_result_round_1, done) = env.step(agent_action_round_1);
    assert_eq!(done, false);
    env.adversary.first_action = agent_action_round_1;
    let agent_action_round_2 = env.agent.choose_action();
    let (_result_round_2, done) = env.step(agent_action_round_2);
    assert_eq!(done, true);
}

#[test]
fn second_round_exploits_the_replayed_move() {
    // The adversary replays the agent's first move in round 1, so the
    // move that beats it always wins that round.
    let mut env = Environment::new();
    let (_r, done) = env.step(Action::Rock);
    assert!(!done);
    let before = env.agent_score;
    let (result, done) = env.step(Action::Paper);
    assert!(done);
    assert_eq!(result, 1);
    assert_eq!(env.agent_score, before + 1);
}

#[test]
fn rps_game_tensors() {
    let env = RPSGame::new();
    assert_eq!(env.all_position, vec![0, 1, 2]);
    assert_eq!(env.terminal_position, vec![2]);
    // Rock (0) against Scissors (2) wins, against Paper (1) loses.
    assert_eq!(env.rewards[0][0][2].v, 1_000_000);
    assert_eq!(env.rewards[0][0][1].v, -1_000_000);
    assert_eq!(env.rewards[1][1][1].v, 0);
    assert_eq!(env.probabilities[2][1][0].v, 333_333);
}

#[test]
fn rps_game_beats() {
    assert_eq!(Action_game::Rock.beats(Action_game::Scissors), 1);
    assert_eq!(Action_game::Paper.beats(Action_game::Scissors), -1);
    assert_eq!(Action_game::Paper.beats(Action_game::Paper), 0);
}

#[test]
fn rps_game_two_rounds() {
    let mut env = RPSGame::new();
    assert!(!env.is_game_over());
    let (state, _reward, done) = env.step(0);
    assert_eq!(state, 1);
    assert!(!done);
    // Round 1: the adversary replays Rock, so Paper wins exactly +1.
    let (state, reward, done) = env.step(1);
    assert_eq!(state, 2);
    assert!(done);
    assert_eq!(reward.v, 1_000_000);
    assert!(env.is_game_over());
    assert_eq!(env.state_id(), 2);
}

#[test]
fn rps_game_play_two_rounds() {
    let mut env = RPSGame::new();
    env.play_two_rounds(0);
    assert!(env.is_game_over());
    // Round 1 was Rock against replayed Rock: a tie, so the score is
    // whatever round 0 gave.
    assert!(env.agent_score >= -1 && env.agent_score <= 1);
}

#[test]
fn rps_game_reset() {
    let mut env = RPSGame::new();
    env.play_two_rounds(2);
    let state = env.reset();
    assert_eq!(state, 0);
    assert_eq!(env.agent_score, 0);
    assert!(!env.is_game_over());
}
