use pacman::game_state::{GameState, Tile, COLS, POWER_UP_MILLIS, ROWS};
use pacman::encounters::reset_pacman;
use pacman::player::move_pacman;
use pacman::session::set_direction;

fn state_at(row: i16, col: i16, dir_r: i16, dir_c: i16) -> GameState {
    let mut state = GameState::new();
    state.pac_row = row;
    state.pac_col = col;
    state.pac_dir_r = dir_r;
    state.pac_dir_c = dir_c;
    state
}

#[test]
fn new_state_is_the_documented_start() {
    let state = GameState::new();
    assert!(state.is_valid());
    assert_eq!((state.pac_row, state.pac_col), (0, 0));
    assert_eq!((state.pac_dir_r, state.pac_dir_c), (0, -1));
    assert_eq!(state.pac_spawn, (0, 0));
    assert_eq!(
        [
            (state.ghosts[0].dir_r, state.ghosts[0].dir_c),
            (state.ghosts[1].dir_r, state.ghosts[1].dir_c),
            (state.ghosts[2].dir_r, state.ghosts[2].dir_c),
            (state.ghosts[3].dir_r, state.ghosts[3].dir_c),
        ],
        [(1, 0), (-1, 0), (0, -1), (0, 1)]
    );
    for g in state.ghosts.iter() {
        assert_eq!((g.row, g.col), (0, 0));
    }
    assert_eq!(state.ghost_spawns, [(0, 0); 4]);
    assert_eq!(state.score, 0);
    assert_eq!(state.lives, 3);
    assert_eq!(state.free_life, 1000);
    assert_eq!(state.level_number, 1);
    assert!(!state.powerd_up);
    assert_eq!(state.ghosts_in_a_row, 0);
    assert_eq!(state.power_end_time, None);
    assert_eq!(state.food_left, 0);
    assert_eq!(state.slower_ghosts_counter, 0);
    assert_eq!(state.chase_percent, 50);
    for row in state.level.iter() {
        for t in row.iter() {
            assert_eq!(*t, Tile::Empty);
        }
    }
}

#[test]
fn pacman_steps_onto_an_empty_cell() {
    let mut state = state_at(5, 5, 0, 1);
    let before = state.clone();
    move_pacman(&mut state, 0);
    assert_eq!((state.pac_row, state.pac_col), (5, 6));
    assert_eq!((state.pac_dir_r, state.pac_dir_c), (0, 1));
    assert_eq!(state.score, 0);
    state.pac_col = 5;
    assert!(state == before);
}

#[test]
fn pacman_stays_before_a_wall() {
    let mut state = state_at(5, 5, 0, 1);
    state.level[5][6] = Tile::Wall;
    let before = state.clone();
    move_pacman(&mut state, 0);
    assert!(state == before);
    assert_eq!((state.pac_row, state.pac_col), (5, 5));
    assert_eq!((state.pac_dir_r, state.pac_dir_c), (0, 1));
}

#[test]
fn pacman_stays_before_a_ghost_wall() {
    let mut state = state_at(5, 5, -1, 0);
    state.level[4][5] = Tile::GhostWall;
    let before = state.clone();
    move_pacman(&mut state, 0);
    assert!(state == before);
}

#[test]
fn pacman_goes_on_once_the_wall_is_gone() {
    let mut state = state_at(5, 5, 1, 0);
    state.level[6][5] = Tile::Wall;
    move_pacman(&mut state, 0);
    assert_eq!((state.pac_row, state.pac_col), (5, 5));
    state.level[6][5] = Tile::Empty;
    move_pacman(&mut state, 0);
    assert_eq!((state.pac_row, state.pac_col), (6, 5));
}

#[test]
fn pacman_wraps_on_every_edge() {
    let mut state = state_at(0, 3, -1, 0);
    move_pacman(&mut state, 0);
    assert_eq!((state.pac_row, state.pac_col), (ROWS as i16 - 1, 3));

    let mut state = state_at(ROWS as i16 - 1, 3, 1, 0);
    move_pacman(&mut state, 0);
    assert_eq!((state.pac_row, state.pac_col), (0, 3));

    let mut state = state_at(7, 0, 0, -1);
    move_pacman(&mut state, 0);
    assert_eq!((state.pac_row, state.pac_col), (7, COLS as i16 - 1));

    let mut state = state_at(7, COLS as i16 - 1, 0, 1);
    move_pacman(&mut state, 0);
    assert_eq!((state.pac_row, state.pac_col), (7, 0));
}

#[test]
fn pacman_is_stopped_by_a_wall_across_the_edge() {
    let mut state = state_at(0, 3, -1, 0);
    state.level[ROWS - 1][3] = Tile::Wall;
    move_pacman(&mut state, 0);
    assert_eq!((state.pac_row, state.pac_col), (0, 3));
}

#[test]
fn pacman_without_heading_stays() {
    let mut state = state_at(5, 5, 0, 0);
    let before = state.clone();
    move_pacman(&mut state, 0);
    assert!(state == before);
}

#[test]
fn pellet_scores_one_and_is_gone() {
    let mut state = state_at(5, 5, 0, 1);
    state.level[5][6] = Tile::Pellet;
    state.food_left = 10;
    state.score = 7;
    move_pacman(&mut state, 0);
    assert_eq!((state.pac_row, state.pac_col), (5, 6));
    assert_eq!(state.score, 8);
    assert_eq!(state.food_left, 9);
    assert_eq!(state.level[5][6], Tile::Empty);
    assert!(!state.powerd_up);
    assert_eq!(state.power_end_time, None);
    assert_eq!(state.ghosts_in_a_row, 0);
}

#[test]
fn pellet_is_not_eaten_twice() {
    let mut state = state_at(5, 5, 0, 1);
    state.level[5][6] = Tile::Pellet;
    state.food_left = 10;
    move_pacman(&mut state, 0);
    assert_eq!(state.score, 1);
    assert_eq!(state.food_left, 9);
    // walk off and come back
    set_direction(&mut state, 0, -1);
    move_pacman(&mut state, 0);
    set_direction(&mut state, 0, 1);
    move_pacman(&mut state, 0);
    assert_eq!((state.pac_row, state.pac_col), (5, 6));
    assert_eq!(state.score, 1);
    assert_eq!(state.food_left, 9);
}

#[test]
fn power_up_scores_five_and_arms_five_seconds() {
    let mut state = state_at(5, 5, 1, 0);
    state.level[6][5] = Tile::PowerUp;
    state.food_left = 10;
    move_pacman(&mut state, 1234);
    assert_eq!((state.pac_row, state.pac_col), (6, 5));
    assert_eq!(state.score, 5);
    assert_eq!(state.food_left, 10);
    assert_eq!(state.level[6][5], Tile::Empty);
    assert!(state.powerd_up);
    assert_eq!(state.ghosts_in_a_row, 1);
    assert_eq!(state.power_end_time, Some(1234 + 5000));
    assert_eq!(POWER_UP_MILLIS, 5000);
    assert!(state.is_valid());
}

#[test]
fn second_power_up_refreshes_the_clock_and_keeps_the_streak() {
    let mut state = state_at(5, 5, 1, 0);
    state.level[6][5] = Tile::PowerUp;
    state.level[7][5] = Tile::PowerUp;
    move_pacman(&mut state, 1000);
    assert_eq!(state.ghosts_in_a_row, 1);
    assert_eq!(state.power_end_time, Some(6000));
    state.ghosts_in_a_row = 4;
    move_pacman(&mut state, 3000);
    assert!(state.powerd_up);
    assert_eq!(state.ghosts_in_a_row, 4);
    assert_eq!(state.power_end_time, Some(8000));
    assert_eq!(state.score, 10);
}

#[test]
fn set_direction_turns_the_player_only() {
    let mut state = state_at(5, 5, 0, 1);
    let before = state.clone();
    set_direction(&mut state, -1, 0);
    assert_eq!((state.pac_dir_r, state.pac_dir_c), (-1, 0));
    state.pac_dir_r = 0;
    state.pac_dir_c = 1;
    assert!(state == before);
}

#[test]
fn reset_pacman_starts_the_round_over() {
    let mut state = state_at(9, 9, 1, 0);
    state.pac_spawn = (20, 13);
    state.ghost_spawns = [(11, 12), (11, 13), (11, 14), (11, 15)];
    for (i, g) in state.ghosts.iter_mut().enumerate() {
        g.row = i as i16;
        g.col = 2 * i as i16;
        g.dir_r = 0;
        g.dir_c = -1;
    }
    state.powerd_up = true;
    state.ghosts_in_a_row = 8;
    state.power_end_time = Some(99);
    state.score = 321;
    state.lives = 2;
    state.food_left = 17;
    reset_pacman(&mut state);
    assert_eq!((state.pac_row, state.pac_col), (20, 13));
    assert_eq!((state.pac_dir_r, state.pac_dir_c), (0, -1));
    for (i, g) in state.ghosts.iter().enumerate() {
        assert_eq!((g.row, g.col), (11, 12 + i as i16));
        assert_eq!((g.dir_r, g.dir_c), (1, 0));
    }
    assert!(!state.powerd_up);
    assert_eq!(state.ghosts_in_a_row, 0);
    assert_eq!(state.power_end_time, None);
    assert_eq!(state.score, 321);
    assert_eq!(state.lives, 2);
    assert_eq!(state.food_left, 17);
}

#[test]
fn is_valid_tells_broken_states() {
    let mut state = GameState::new();
    assert!(state.is_valid());
    state.pac_row = ROWS as i16;
    assert!(!state.is_valid());
    let mut state = GameState::new();
    state.pac_dir_r = 1;
    state.pac_dir_c = 1;
    assert!(!state.is_valid());
    let mut state = GameState::new();
    state.ghosts[3].col = -1;
    assert!(!state.is_valid());
    let mut state = GameState::new();
    state.ghost_spawns[2] = (0, COLS as i16);
    assert!(!state.is_valid());
    let mut state = GameState::new();
    state.powerd_up = true;
    assert!(!state.is_valid());
    state.power_end_time = Some(5);
    assert!(!state.is_valid());
    state.ghosts_in_a_row = 1;
    assert!(state.is_valid());
    state.chase_percent = 101;
    assert!(!state.is_valid());
    let mut state = GameState::new();
    state.score = -1;
    assert!(!state.is_valid());
    let mut state = GameState::new();
    state.slower_ghosts_counter = 4;
    assert!(!state.is_valid());
}

#[test]
fn clone_and_eq_agree() {
    let mut state = GameState::new();
    state.level[3][4] = Tile::Pellet;
    state.ghosts[1].row = 9;
    state.power_end_time = Some(3);
    let copy = state.clone();
    assert!(copy == state);
    let mut other = state.clone();
    other.level[28][27] = Tile::Wall;
    assert!(other != state);
    let mut other = state.clone();
    other.ghost_spawns[3] = (1, 1);
    assert!(other != state);
    let mut other = state.clone();
    other.power_end_time = Some(4);
    assert!(other != state);
    let mut other = state.clone();
    other.power_end_time = None;
    assert!(other != state);
    let mut other = state.clone();
    other.ghosts[1].dir_c = 1;
    assert!(other != state);
}
