use ant_engine::engine::{add, batch_fits, apply_batch, Command, Game, State};

#[test]
fn it_works() {
    let result = add(2, 2);
    assert_eq!(result, 4);
}

#[test]
fn engine_state_starts_at_zero() {
    assert_eq!(State::new(), State { value: 0 });
}

#[test]
fn engine_new_game_runs() {
    let game = Game::new();
    assert!(game.running);
    assert_eq!(game.step, 0);
    assert_eq!(game.state.value, 0);
}

#[test]
fn engine_step_adds_in_order() {
    let mut game = Game::new();
    game.step(vec![Command::Add(2), Command::Add(3)]);
    assert_eq!(game.state.value, 5);
    assert_eq!(game.step, 1);
    assert!(game.running);
}

#[test]
fn engine_step_with_no_commands_counts() {
    let mut game = Game::new();
    game.step(vec![]);
    game.step(vec![]);
    assert_eq!(game.step, 2);
    assert_eq!(game.state.value, 0);
}

#[test]
fn engine_stop_drops_the_rest_of_the_batch() {
    let mut game = Game::new();
    game.step(vec![Command::Add(2), Command::Stop, Command::Add(40)]);
    assert!(!game.running);
    assert_eq!(game.state.value, 2);
    assert_eq!(game.step, 0);
}

#[test]
fn engine_stopped_game_ignores_commands() {
    let mut game = Game::new();
    game.step(vec![Command::Stop]);
    game.step(vec![Command::Add(7)]);
    assert!(!game.running);
    assert_eq!(game.state.value, 0);
    assert_eq!(game.step, 0);
}

#[test]
fn engine_negative_values_subtract() {
    let mut game = Game::new();
    game.step(vec![Command::Add(-4), Command::Add(1)]);
    assert_eq!(game.state.value, -3);
}

#[test]
fn engine_fits_rejects_overflow() {
    let game = Game::new();
    assert!(game.fits(&vec![Command::Add(i32::MAX)]));
    assert!(!game.fits(&vec![Command::Add(i32::MAX), Command::Add(1)]));
    assert!(game.fits(&vec![Command::Add(i32::MAX), Command::Add(-1), Command::Add(1)]));
    assert!(!game.fits(&vec![Command::Add(i32::MIN), Command::Add(-1)]));
    assert!(game.fits(&vec![Command::Add(i32::MAX), Command::Stop, Command::Add(1)]));
}

#[test]
fn engine_batch_fits_ignores_a_stopped_game() {
    assert!(batch_fits(false, i32::MAX, &vec![Command::Add(1)]));
    assert!(!batch_fits(true, i32::MAX, &vec![Command::Add(1)]));
}

#[test]
fn engine_apply_batch_updates_flag_and_value() {
    let mut running = true;
    let mut value = 10;
    apply_batch(&mut running, &mut value, &vec![Command::Add(5), Command::Stop, Command::Add(1)]);
    assert!(!running);
    assert_eq!(value, 15);
}
