use rustml::environment::Environment;
use rustml::fixed::Fixed;
use rustml::grid_world::GridWorld;
use rustml::line_world::LineWorld;
use rustml::monte_hall::MonteHall;
use rustml::monty_hall::MontyHall;
use rustml::playable_grid_world::playable_GridWorld;
use rustml::playable_line_world::playable_line_world;

fn setup_line_world() -> LineWorld {
    LineWorld::new(4, false, 1)
}

#[test]
fn test_init() {
    let env = setup_line_world();
    assert_eq!(env.agent_position, 1);
    assert_eq!(env.all_position, vec![0, 1, 2, 3]);
    assert_eq!(env.terminal_position, vec![0, 3]);
}

#[test]
fn test_is_game_over() {
    let mut env = setup_line_world();
    assert_eq!(env.is_game_over(), false);
    env.agent_position = 3;
    assert_eq!(env.is_game_over(), true);
}

#[test]
fn test_state_id() {
    let mut env = setup_line_world();
    assert_eq!(env.state_id(), 1);
    env.agent_position = 3;
    assert_eq!(env.state_id(), 3);
}

#[test]
fn test_step() {
    let mut env = setup_line_world();
    for _ in 0..2 {
        env.step(2);
    }
    assert_eq!(env.agent_position, 3);
}

#[test]
fn test_score() {
    let mut env = setup_line_world();
    env.agent_position = 3;
    assert_eq!(env.score(), Fixed { v: 1_000_000 });
    env.agent_position = 0;
    assert_eq!(env.score(), Fixed { v: -1_000_000 });
}

#[test]
fn test_display() {
    let env = setup_line_world();
    let array = env.get_display_array();
    assert_eq!(array, vec!['_', 'X', '_', '_']);
}

#[test]
fn test_reset() {
    let mut env = setup_line_world();
    env.agent_position = 3;
    env.reset(false, 1);
    assert_eq!(env.agent_position, 1);
}

#[test]
fn lineworld_test_init() {
    let env = LineWorld::new(4, false, 1);
    assert_eq!(env.agent_position, 1);
    assert_eq!(env.all_position, vec![0, 1, 2, 3]);
    assert_eq!(env.terminal_position, vec![0, 3]);
}

#[test]
fn lineworld_test_is_game_over() {
    let mut env = LineWorld::new(4, false, 1);
    assert_eq!(env.is_game_over(), false);
    env.agent_position = 3;
    assert_eq!(env.is_game_over(), true);
}

#[test]
fn lineworld_test_state_id() {
    let mut env = LineWorld::new(4, false, 1);
    assert_eq!(env.state_id(), 1);
    env.agent_position = 3;
    assert_eq!(env.state_id(), 3);
}

#[test]
fn lineworld_test_step() {
    let mut env = LineWorld::new(4, false, 1);
    for _ in 0..2 {
        env.step(2);
    }
    assert_eq!(env.agent_position, 3);
}

#[test]
fn lineworld_test_score() {
    let mut env = LineWorld::new(4, false, 1);
    env.agent_position = 3;
    assert_eq!(env.score().v, 1_000_000);
    env.agent_position = 0;
    assert_eq!(env.score().v, -1_000_000);
}

#[test]
fn lineworld_test_display() {
    let env = LineWorld::new(4, false, 1);
    assert_eq!(env.get_display_array(), vec!['_', 'X', '_', '_']);
}

#[test]
fn lineworld_test_reset() {
    let mut env = LineWorld::new(4, false, 1);
    env.agent_position = 3;
    env.reset(false, 1);
    assert_eq!(env.agent_position, 1);
}

fn setup_grid_world() -> GridWorld {
    GridWorld::new(3, 5, 1)
}

#[test]
fn grid_world_test_init() {
    let env = setup_grid_world();
    assert_eq!(env.agent_position, 1);
    assert_eq!(env.col, 5);
    assert_eq!(
        env.all_position,
        vec![0, 1, 2, 3, 4, 5, 6, 7, 8, 9, 10, 11, 12, 13, 14]
    );
    assert_eq!(env.terminal_position, vec![0, 14]);
}

#[test]
fn grid_world_test_available_actions() {
    let mut env = setup_grid_world();
    assert_eq!(env.available_actions(), vec![0, 1, 2, 3]);
    env.agent_position = 5;
    assert_eq!(env.available_actions(), vec![0, 2, 3, 4]);
    env.agent_position = 14;
    assert_eq!(env.available_actions(), vec![0]);
}

#[test]
fn grid_world_test_game_over() {
    let mut env = setup_grid_world();
    assert_eq!(env.is_game_over(), false);
    env.agent_position = 14;
    assert_eq!(env.is_game_over(), true);
}

#[test]
fn grid_world_test_state() {
    let mut env = setup_grid_world();
    assert_eq!(env.state_id(), 1);
    env.agent_position = 4;
    assert_eq!(env.state_id(), 4);
}

#[test]
fn grid_world_test_step() {
    let mut env = setup_grid_world();
    env.step(2);
    assert_eq!(env.agent_position, 2);
    env.step(1);
    assert_eq!(env.agent_position, 1);
    env.step(3);
    assert_eq!(env.agent_position, 6);
    env.step(4);
    assert_eq!(env.agent_position, 1);
}

#[test]
fn grid_world_test_score() {
    let mut env = setup_grid_world();
    env.agent_position = 14;
    assert_eq!(env.score().v, 1_000_000);
    env.agent_position = 0;
    assert_eq!(env.score().v, -1_000_000);
}

#[test]
fn grid_world_test_display() {
    let env = setup_grid_world();
    let array = env.get_display_array();
    assert_eq!(
        array,
        vec![
            vec!['_', 'X', '_', '_', '_'],
            vec!['_', '_', '_', '_', '_'],
            vec!['_', '_', '_', '_', '_']
        ]
    );
}

#[test]
fn grid_world_test_reset() {
    let mut env = setup_grid_world();
    env.agent_position = 4;
    let landed = env.reset();
    assert!(landed < 15);
    assert_eq!(landed, env.agent_position);
}

#[test]
fn gridworld_test_init() {
    let env = GridWorld::new(3, 5, 1);
    assert_eq!(env.agent_position, 1);
    assert_eq!(env.col, 5);
    assert_eq!(
        env.all_position,
        vec![0, 1, 2, 3, 4, 5, 6, 7, 8, 9, 10, 11, 12, 13, 14]
    );
    assert_eq!(env.terminal_position, vec![0, 14]);
}

#[test]
fn gridworld_test_available_actions() {
    let mut env = GridWorld::new(3, 5, 1);
    assert_eq!(env.available_actions(), vec![0, 1, 2, 3]);
    env.agent_position = 5;
    assert_eq!(env.available_actions(), vec![0, 2, 3, 4]);
    env.agent_position = 14;
    assert_eq!(env.available_actions(), vec![0]);
}

#[test]
fn gridworld_test_game_over() {
    let mut env = GridWorld::new(3, 5, 1);
    assert_eq!(env.is_game_over(), false);
    env.agent_position = 14;
    assert_eq!(env.is_game_over(), true);
}

#[test]
fn gridworld_test_state() {
    let mut env = GridWorld::new(3, 5, 1);
    assert_eq!(env.state_id(), 1);
    env.agent_position = 4;
    assert_eq!(env.state_id(), 4);
}

#[test]
fn gridworld_test_step() {
    let mut env = GridWorld::new(3, 5, 1);
    env.step(2);
    assert_eq!(env.agent_position, 2);
    env.step(1);
    assert_eq!(env.agent_position, 1);
    env.step(3);
    assert_eq!(env.agent_position, 6);
    env.step(4);
    assert_eq!(env.agent_position, 1);
}

#[test]
fn gridworld_test_score() {
    let mut env = GridWorld::new(3, 5, 1);
    env.agent_position = 14;
    assert_eq!(env.score().v, 1_000_000);
    env.agent_position = 0;
    assert_eq!(env.score().v, -1_000_000);
}

#[test]
fn gridworld_test_display() {
    let env = GridWorld::new(3, 5, 1);
    assert_eq!(
        env.get_display_array(),
        vec![
            vec!['_', 'X', '_', '_', '_'],
            vec!['_', '_', '_', '_', '_'],
            vec!['_', '_', '_', '_', '_']
        ]
    );
}

#[test]
fn gridworld_test_reset() {
    let mut env = GridWorld::new(3, 5, 1);
    env.agent_position = 4;
    let landed = env.reset();
    assert!(landed < 15);
}

#[test]
fn grid_world_test_get_grid() {
    let grid = GridWorld::get_grid((0..15).collect(), 5);
    assert_eq!(grid.len(), 3);
    assert_eq!(grid[1], vec![5, 6, 7, 8, 9]);
}

#[test]
fn grid_world_test_find_index() {
    let grid = GridWorld::get_grid((0..15).collect(), 5);
    assert_eq!(GridWorld::find_index(&grid, 7), (1, 2));
    assert_eq!(GridWorld::find_index(&grid, 0), (0, 0));
}

#[test]
fn test_new_monty_hall() {
    let monty_hall = MontyHall::new(3);
    assert_eq!(monty_hall.nb_portes, 3);
    assert!(monty_hall.winning_door < 3);
}

#[test]
fn monty_hall_test_reset() {
    let mut monty_hall = MontyHall::new(3);
    monty_hall.reset();
    assert!(monty_hall.chosen_door.is_none());
    assert!(monty_hall.opened_door.is_none());
}

#[test]
fn test_valid_action() {
    let mut monty_hall = MontyHall::new(3);
    monty_hall.chosen_door = None;
    assert!(monty_hall.valid_action(0));
    assert!(monty_hall.valid_action(1));
    assert!(monty_hall.valid_action(2));

    monty_hall.chosen_door = Some(1);
    assert!(monty_hall.valid_action(0));
    assert!(monty_hall.valid_action(2));
    assert!(monty_hall.valid_action(1));
    assert!(!monty_hall.valid_action(3));
}

#[test]
fn test_next_state() {
    let mut monty_hall = MontyHall::new(3);
    let (_state, _reward, done) = monty_hall.step(1);
    assert!(!done);
    let (_state, _reward, done) = monty_hall.step(0);
    assert!(done);
}

#[test]
fn test_reward() {
    let mut monty_hall = MontyHall::new(3);
    monty_hall.winning_door = 0;
    monty_hall.chosen_door = Some(1);
    monty_hall.opened_door = Some(2);
    assert_eq!(monty_hall.score().v, 0);

    monty_hall.chosen_door = Some(monty_hall.winning_door);
    monty_hall.opened_door = Some(2);
    if monty_hall.winning_door != 2 {
        assert_eq!(monty_hall.score().v, 1_000_000);
    }
}

#[test]
fn monty_hall_test_available_actions() {
    let mut monty_hall = MontyHall::new(3);
    assert_eq!(monty_hall.available_actions(), vec![0, 1, 2]);

    monty_hall.winning_door = 0;
    monty_hall.chosen_door = Some(0);
    monty_hall.opened_door = Some(1);
    assert_eq!(monty_hall.available_actions(), vec![0, 2]);
}

#[test]
fn monty_hall_test_is_game_over() {
    let mut monty_hall = MontyHall::new(3);
    assert!(!monty_hall.is_game_over());

    monty_hall.chosen_door = Some(1);
    monty_hall.opened_door = Some(2);
    assert!(monty_hall.is_game_over());
}

#[test]
fn monty_hall_test_score() {
    let mut monty_hall = MontyHall::new(3);
    monty_hall.winning_door = 0;
    monty_hall.chosen_door = Some(1);
    monty_hall.opened_door = Some(2);
    assert_eq!(monty_hall.score().v, 0);

    monty_hall.chosen_door = Some(monty_hall.winning_door);
    assert_eq!(monty_hall.score().v, 1_000_000);
}

#[test]
fn test_init_rewards() {
    let nb_portes = 3;
    let mut monty_hall = MontyHall::new(nb_portes);
    monty_hall.init_rewards();
    assert_eq!(monty_hall.rewards.len(), nb_portes);
    for i in 0..nb_portes {
        if i == monty_hall.winning_door {
            assert_eq!(monty_hall.rewards[i].v, 1_000_000);
        } else {
            assert_eq!(monty_hall.rewards[i].v, 0);
        }
    }
}

#[test]
fn test_init_probabilities() {
    let nb_portes = 3;
    let mut monty_hall = MontyHall::new(nb_portes);
    monty_hall.init_probabilities();
    assert_eq!(monty_hall.probabilities.len(), nb_portes);
    for i in 0..nb_portes {
        assert_eq!(monty_hall.probabilities[i].v, 333_333);
    }
}

#[test]
fn test_new_initializes_correctly() {
    let nb_portes = 3;
    let monty_hall = MontyHall::new(nb_portes);
    assert_eq!(monty_hall.rewards.len(), nb_portes);
    for i in 0..nb_portes {
        if i == monty_hall.winning_door {
            assert_eq!(monty_hall.rewards[i].v, 1_000_000);
        } else {
            assert_eq!(monty_hall.rewards[i].v, 0);
        }
    }
    assert_eq!(monty_hall.probabilities.len(), nb_portes);
    for i in 0..nb_portes {
        assert_eq!(monty_hall.probabilities[i].v, 333_333);
    }
}

#[test]
fn test_reset_initializes_correctly() {
    let nb_portes = 3;
    let mut monty_hall = MontyHall::new(nb_portes);
    monty_hall.reset();
    assert_eq!(monty_hall.rewards.len(), nb_portes);
    for i in 0..nb_portes {
        if i == monty_hall.winning_door {
            assert_eq!(monty_hall.rewards[i].v, 1_000_000);
        } else {
            assert_eq!(monty_hall.rewards[i].v, 0);
        }
    }
    assert_eq!(monty_hall.probabilities.len(), nb_portes);
    for i in 0..nb_portes {
        assert_eq!(monty_hall.probabilities[i].v, 333_333);
    }
}

#[test]
fn monte_hall_keep_wins_iff_first_pick_right() {
    for _ in 0..10 {
        let mut game = MonteHall::new(3);
        let winner = game.winning_door;
        let reward = game.play_game(winner + 1, false);
        assert_eq!(reward.v, 1_000_000);
        assert!(game.done());
    }
}

#[test]
fn monte_hall_switch_wins_iff_first_pick_wrong() {
    for _ in 0..10 {
        let mut game = MonteHall::new(3);
        let winner = game.winning_door;
        let reward = game.play_game(winner + 1, true);
        assert_eq!(reward.v, 0);

        let mut game2 = MonteHall::new(3);
        let loser = (game2.winning_door + 1) % 3;
        let reward2 = game2.play_game(loser + 1, true);
        assert_eq!(reward2.v, 1_000_000);
    }
}

#[test]
fn monte_hall_choose_door_opens_a_losing_door() {
    let mut game = MonteHall::new(3);
    game.choose_door(2);
    let opened = game.opened_door.unwrap();
    assert!(opened < 3);
    assert_ne!(opened, game.winning_door);
    assert_ne!(opened, 1);
    assert!(game.state >= 4 && game.state <= 9);
}

#[test]
fn monte_hall_switch_choice_moves_to_third_door() {
    let mut game = MonteHall::new(3);
    game.choose_door(1);
    let opened = game.opened_door.unwrap();
    game.switch_choice();
    let chosen = game.chosen_door.unwrap();
    assert_eq!(chosen, 3 - 0 - opened);
}

#[test]
fn playable_line_world_new_and_over() {
    let env = playable_line_world::new(4, false, 1);
    assert!(env.is_game_over());
    let env2 = playable_line_world::new(4, false, 2);
    assert!(!env2.is_game_over());
}

#[test]
fn playable_line_world_step_and_score() {
    let mut env = playable_line_world::new(4, false, 2);
    let (state, _reward, done) = env.step(2);
    assert_eq!(state, 3);
    assert!(!done);
    let (state, reward, done) = env.step(2);
    assert_eq!(state, 4);
    assert!(done);
    assert_eq!(reward.v, 1_000_000);
}

#[test]
fn playable_grid_world_new() {
    let env = playable_GridWorld::new(3, 5, 1);
    assert_eq!(env.agent_pos, 1);
    assert_eq!(env.col, 5);
    assert_eq!(env.go_pos, vec![0, 14]);
}

#[test]
fn playable_grid_world_grid_helpers() {
    let grid = playable_GridWorld::get_grid((0..15).collect(), 5);
    assert_eq!(grid.len(), 3);
    assert_eq!(playable_GridWorld::find_index(&grid, 12), (2, 2));
}

#[test]
fn playable_grid_world_step() {
    let mut env = playable_GridWorld::new(3, 5, 6);
    let (state, _reward, done) = env.step(2);
    assert_eq!(state, 7);
    assert!(!done);
    let (state, _reward, _done) = env.step(4);
    assert_eq!(state, 2);
}
