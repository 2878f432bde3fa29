use ant_engine::game::{Game, GameCommand, State};

#[test]
fn game_state_starts_at_zero() {
    assert_eq!(State::new(), State { test_value: 0 });
}

#[test]
fn game_add_then_mul() {
    let mut game = Game::new();
    game.step(vec![GameCommand::TestAdd(1), GameCommand::TestMul(2)]);
    assert_eq!(game.state.test_value, 2);
    assert!(game.running);
}

#[test]
fn game_quit_drops_the_rest_of_the_batch() {
    let mut game = Game::new();
    game.step(vec![GameCommand::TestAdd(3), GameCommand::Quit, GameCommand::TestMul(4)]);
    assert_eq!(game.state.test_value, 3);
    assert!(!game.running);
}

#[test]
fn game_quit_is_kept() {
    let mut game = Game::new();
    game.step(vec![GameCommand::Quit]);
    game.step(vec![GameCommand::TestAdd(1)]);
    assert!(!game.running);
    assert_eq!(game.state.test_value, 0);
}

#[test]
fn game_fits_rejects_overflow() {
    let game = Game { running: true, state: State { test_value: 70000 } };
    assert!(!game.fits(&vec![GameCommand::TestMul(70000)]));
    assert!(game.fits(&vec![GameCommand::TestMul(-30000)]));
    assert!(game.fits(&vec![GameCommand::TestMul(30000), GameCommand::TestAdd(1)]));
    assert!(!game.fits(&vec![GameCommand::TestMul(30000), GameCommand::TestAdd(50_000_000)]));
    assert!(game.fits(&vec![GameCommand::TestMul(30000), GameCommand::TestMul(0), GameCommand::Quit]));
    assert!(game.fits(&vec![GameCommand::Quit, GameCommand::TestMul(70000)]));
    let big = Game { running: true, state: State { test_value: i32::MIN } };
    assert!(!big.fits(&vec![GameCommand::TestMul(-1)]));
    assert!(big.fits(&vec![GameCommand::TestMul(1)]));
}

#[test]
fn game_add_then_quit_then_add() {
    let mut game = Game::new();
    game.step(vec![GameCommand::TestAdd(1), GameCommand::Quit, GameCommand::TestAdd(5)]);
    assert!(!game.running);
    assert_eq!(game.state.test_value, 1);
}

#[test]
fn game_tick_publishes_while_running() {
    let mut game = Game::new();
    assert_eq!(
        game.tick(vec![GameCommand::TestAdd(1), GameCommand::TestMul(2)]),
        Some(State { test_value: 2 })
    );
    assert_eq!(game.tick(vec![GameCommand::TestAdd(3)]), Some(State { test_value: 5 }));
}

#[test]
fn game_tick_publishes_nothing_once_quit() {
    let mut game = Game::new();
    assert_eq!(game.tick(vec![GameCommand::TestAdd(4), GameCommand::Quit]), None);
    assert_eq!(game.tick(vec![GameCommand::TestAdd(1)]), None);
    assert_eq!(game.state, State { test_value: 4 });
}
