use pacman::game_state::{GameState, GhostAgent, SessionStatus, Tile};
use pacman::random::{Scripted, ThreadRandom};
use pacman::session::{award_free_life, can_tick, expire_power_up, tick};

fn ghost(row: i16, col: i16, dir_r: i16, dir_c: i16) -> GhostAgent {
    GhostAgent { row, col, dir_r, dir_c }
}

/// A running session: the player on (10, 10) heading right, the ghosts far
/// off in the top rows heading right, pellets left, nobody chasing.
fn running() -> GameState {
    let mut state = GameState::new();
    state.pac_row = 10;
    state.pac_col = 10;
    state.pac_dir_r = 0;
    state.pac_dir_c = 1;
    state.pac_spawn = (23, 13);
    state.ghosts = [ghost(1, 1, 0, 1), ghost(2, 1, 0, 1), ghost(3, 1, 0, 1), ghost(4, 1, 0, 1)];
    state.ghost_spawns = [(11, 12), (13, 12), (13, 13), (13, 14)];
    state.food_left = 50;
    state.chase_percent = 0;
    state
}

fn no_luck() -> Scripted {
    Scripted::new(vec![], vec![])
}

#[test]
fn tick_moves_the_player_then_the_ghosts() {
    let mut state = running();
    let status = tick(&mut state, 0, &mut no_luck());
    assert_eq!(status, SessionStatus::Active);
    assert_eq!(state.status, SessionStatus::Active);
    assert_eq!((state.pac_row, state.pac_col), (10, 11));
    assert_eq!(state.ghosts, [ghost(1, 2, 0, 1), ghost(2, 2, 0, 1), ghost(3, 2, 0, 1), ghost(4, 2, 0, 1)]);
    assert!(state.is_valid());
}

#[test]
fn tick_settles_an_encounter_that_the_player_walks_into() {
    let mut state = running();
    // the ghost stands where the player is about to go
    state.ghosts[0] = ghost(10, 11, 0, 1);
    let status = tick(&mut state, 0, &mut no_luck());
    assert_eq!(status, SessionStatus::Active);
    assert_eq!(state.lives, 2);
    // the round started over before the ghosts' turn, so the ghosts have moved once from their spawn cells
    assert_eq!((state.pac_row, state.pac_col), (23, 13));
    assert_eq!(state.ghosts[0], ghost(12, 12, 1, 0));
    assert_eq!(state.ghosts[1], ghost(14, 12, 1, 0));
}

#[test]
fn tick_settles_an_encounter_that_a_ghost_walks_into() {
    let mut state = running();
    // the player steps to (10, 11), the ghost comes down from (9, 11)
    state.ghosts[0] = ghost(9, 11, 1, 0);
    let status = tick(&mut state, 0, &mut no_luck());
    assert_eq!(status, SessionStatus::Active);
    assert_eq!(state.lives, 2);
    assert_eq!((state.pac_row, state.pac_col), (23, 13));
    for (i, g) in state.ghosts.iter().enumerate() {
        assert_eq!((g.row, g.col), state.ghost_spawns[i]);
        assert_eq!((g.dir_r, g.dir_c), (1, 0));
    }
}

#[test]
fn tick_lets_a_fresh_power_up_capture_in_the_same_tick() {
    let mut state = running();
    state.level[10][11] = Tile::PowerUp;
    state.ghosts[0] = ghost(10, 11, 0, -1);
    let status = tick(&mut state, 1000, &mut no_luck());
    assert_eq!(status, SessionStatus::Active);
    assert_eq!(state.score, 5 + 20);
    assert_eq!(state.ghosts_in_a_row, 2);
    assert_eq!(state.lives, 3);
    assert!(state.powerd_up);
    assert_eq!(state.power_end_time, Some(6000));
    assert_eq!((state.pac_row, state.pac_col), (10, 11));
    // the ghosts sit out the first tick of a power-up
    assert_eq!(state.ghosts[0], ghost(11, 12, 1, 0));
    assert_eq!(state.ghosts[1], ghost(2, 1, 0, 1));
    assert_eq!(state.slower_ghosts_counter, 1);
}

#[test]
fn session_is_over_when_the_last_pellet_is_eaten() {
    let mut state = running();
    state.level[10][11] = Tile::Pellet;
    state.food_left = 1;
    let status = tick(&mut state, 0, &mut no_luck());
    assert_eq!(status, SessionStatus::Over);
    assert_eq!(state.status, SessionStatus::Over);
    assert_eq!(state.food_left, 0);
    assert_eq!(state.score, 1);
}

#[test]
fn session_is_over_when_no_life_is_left() {
    let mut state = running();
    state.lives = 0;
    state.ghosts[0] = ghost(9, 11, 1, 0);
    let status = tick(&mut state, 0, &mut no_luck());
    assert_eq!(status, SessionStatus::Over);
    assert_eq!(state.status, SessionStatus::Over);
    assert_eq!(state.lives, -1);
    // nobody was put back
    assert_eq!((state.pac_row, state.pac_col), (10, 11));
    assert_eq!(state.ghosts[0], ghost(10, 11, 1, 0));
}

#[test]
fn a_session_that_is_over_stays_as_it_is() {
    for lose in [false, true] {
        let mut state = running();
        state.level[10][11] = Tile::Pellet;
        state.level[10][12] = Tile::Pellet;
        state.level[10][13] = Tile::PowerUp;
        state.food_left = 1;
        if lose {
            state.food_left = 9;
            state.lives = 0;
            state.ghosts[0] = ghost(9, 11, 1, 0);
        }
        assert_eq!(tick(&mut state, 0, &mut no_luck()), SessionStatus::Over);
        let ended = state.clone();
        for now in 1..20u64 {
            assert_eq!(tick(&mut state, now * 175, &mut ThreadRandom::new()), SessionStatus::Over);
            assert_eq!(state.score, ended.score);
            assert!(state == ended);
        }
    }
}

#[test]
fn a_new_session_with_no_pellets_ends_with_its_first_tick() {
    let mut state = GameState::new();
    let status = tick(&mut state, 0, &mut no_luck());
    assert_eq!(status, SessionStatus::Over);
}

#[test]
fn power_up_runs_out_on_time() {
    let mut state = running();
    state.powerd_up = true;
    state.ghosts_in_a_row = 4;
    state.power_end_time = Some(5000);
    let before = state.clone();
    expire_power_up(&mut state, 4999);
    assert!(state == before);
    expire_power_up(&mut state, 5000);
    assert!(!state.powerd_up);
    assert_eq!(state.ghosts_in_a_row, 0);
    assert_eq!(state.power_end_time, None);
    state.powerd_up = true;
    state.ghosts_in_a_row = 4;
    state.power_end_time = Some(5000);
    assert!(state == before);
    expire_power_up(&mut state, 7000);
    assert!(!state.powerd_up);
    let mut state = running();
    let before = state.clone();
    expire_power_up(&mut state, 7000);
    assert!(state == before);
}

#[test]
fn tick_ends_a_power_up_that_has_run_out() {
    let mut state = running();
    state.powerd_up = true;
    state.ghosts_in_a_row = 2;
    state.power_end_time = Some(5000);
    tick(&mut state, 4999, &mut no_luck());
    assert!(state.powerd_up);
    assert_eq!(state.ghosts_in_a_row, 2);
    tick(&mut state, 5000, &mut no_luck());
    assert!(!state.powerd_up);
    assert_eq!(state.ghosts_in_a_row, 0);
    assert_eq!(state.power_end_time, None);
    assert!(state.is_valid());
}

#[test]
fn a_score_above_the_threshold_earns_a_life() {
    let mut state = running();
    state.score = 1000;
    let before = state.clone();
    award_free_life(&mut state);
    assert!(state == before);
    state.score = 1001;
    award_free_life(&mut state);
    assert_eq!(state.lives, 4);
    assert_eq!(state.free_life, 2000);
    award_free_life(&mut state);
    assert_eq!(state.lives, 4);
    assert_eq!(state.free_life, 2000);
}

#[test]
fn tick_awards_one_life_at_a_time() {
    let mut state = running();
    state.score = 5000;
    tick(&mut state, 0, &mut no_luck());
    assert_eq!((state.lives, state.free_life), (4, 2000));
    tick(&mut state, 0, &mut no_luck());
    assert_eq!((state.lives, state.free_life), (5, 4000));
    tick(&mut state, 0, &mut no_luck());
    assert_eq!((state.lives, state.free_life), (6, 8000));
    tick(&mut state, 0, &mut no_luck());
    assert_eq!((state.lives, state.free_life), (6, 8000));
}

#[test]
fn the_bonus_life_is_counted_before_the_end_is_looked_for() {
    let mut state = running();
    state.lives = 0;
    state.score = 1001;
    state.ghosts[0] = ghost(9, 11, 1, 0);
    let status = tick(&mut state, 0, &mut no_luck());
    assert_eq!(state.lives, 0);
    assert_eq!(state.free_life, 2000);
    assert_eq!(status, SessionStatus::Active);
}

#[test]
fn can_tick_tells_when_the_numbers_run_out() {
    let state = running();
    assert!(can_tick(&state, 0));
    assert!(can_tick(&state, u64::MAX - 5000));
    assert!(!can_tick(&state, u64::MAX - 4999));
    let mut state = running();
    state.score = i32::MAX - 5 - 5100;
    assert!(can_tick(&state, 0));
    state.score += 1;
    assert!(!can_tick(&state, 0));
    let mut state = running();
    state.powerd_up = true;
    state.power_end_time = Some(1);
    state.ghosts_in_a_row = 1000;
    state.score = i32::MAX - 5 - 5_100_000;
    assert!(can_tick(&state, 0));
    state.ghosts_in_a_row = 1001;
    assert!(!can_tick(&state, 0));
    let mut state = running();
    state.free_life = i32::MAX / 2;
    assert!(can_tick(&state, 0));
    state.free_life += 1;
    assert!(!can_tick(&state, 0));
    let mut state = running();
    state.lives = i32::MAX;
    assert!(!can_tick(&state, 0));
    state.lives = i32::MIN + 1;
    assert!(!can_tick(&state, 0));
    state.lives = i32::MIN + 2;
    assert!(can_tick(&state, 0));
    state.food_left = i32::MIN;
    assert!(!can_tick(&state, 0));
}

#[test]
fn a_whole_session_runs_to_its_end() {
    let mut state = running();
    for c in 11..21 {
        state.level[10][c] = Tile::Pellet;
    }
    state.food_left = 10;
    let mut rng = ThreadRandom::new();
    let mut ticks = 0;
    let mut now = 0;
    while tick(&mut state, now, &mut rng) == SessionStatus::Active {
        assert!(state.is_valid());
        assert!(can_tick(&state, now));
        ticks += 1;
        now += 175;
        assert!(ticks < 100);
    }
    assert_eq!(ticks, 9);
    assert_eq!(state.score, 10);
    assert_eq!(state.food_left, 0);
    assert_eq!((state.pac_row, state.pac_col), (10, 20));
}
