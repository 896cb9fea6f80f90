use pacman::game_state::{GameState, Tile, COLS, ROWS};
use pacman::grid::{consume, is_wall, tile_at, wrap_coords};

#[test]
fn wrap_coords_keeps_cells_of_the_grid() {
    for r in 0..ROWS as i16 {
        for c in 0..COLS as i16 {
            assert_eq!(wrap_coords(r, c), (r, c));
        }
    }
}

#[test]
fn wrap_coords_wraps_one_step() {
    assert_eq!(wrap_coords(-1, 0), (ROWS as i16 - 1, 0));
    assert_eq!(wrap_coords(ROWS as i16, 0), (0, 0));
    assert_eq!(wrap_coords(0, -1), (0, COLS as i16 - 1));
    assert_eq!(wrap_coords(0, COLS as i16), (0, 0));
    assert_eq!(wrap_coords(-7, 40), (ROWS as i16 - 1, 0));
    assert_eq!(wrap_coords(i16::MIN, i16::MAX), (ROWS as i16 - 1, 0));
}

#[test]
fn wrap_coords_twice_is_once() {
    for r in -3..ROWS as i16 + 3 {
        for c in -3..COLS as i16 + 3 {
            let once = wrap_coords(r, c);
            assert_eq!(wrap_coords(once.0, once.1), once);
        }
    }
}

#[test]
fn tile_at_reads_through_the_edges() {
    let mut state = GameState::new();
    state.level[ROWS - 1][3] = Tile::Wall;
    state.level[0][COLS - 1] = Tile::Pellet;
    assert_eq!(tile_at(&state.level, -1, 3), Tile::Wall);
    assert_eq!(tile_at(&state.level, 0, -1), Tile::Pellet);
    assert_eq!(tile_at(&state.level, ROWS as i16, COLS as i16), Tile::Empty);
    assert!(is_wall(&state.level, -1, 3));
    assert!(!is_wall(&state.level, 0, -1));
}

#[test]
fn ghost_wall_is_no_wall() {
    let mut state = GameState::new();
    state.level[4][4] = Tile::GhostWall;
    assert!(!is_wall(&state.level, 4, 4));
}

#[test]
fn consume_eats_once() {
    let mut state = GameState::new();
    state.level[2][2] = Tile::Pellet;
    state.level[2][3] = Tile::PowerUp;
    state.level[2][4] = Tile::Wall;
    assert_eq!(consume(&mut state.level, 2, 2), Some(Tile::Pellet));
    assert_eq!(state.level[2][2], Tile::Empty);
    assert_eq!(consume(&mut state.level, 2, 2), None);
    assert_eq!(state.level[2][2], Tile::Empty);
    assert_eq!(consume(&mut state.level, 2, 3), Some(Tile::PowerUp));
    assert_eq!(state.level[2][3], Tile::Empty);
    assert_eq!(consume(&mut state.level, 2, 4), None);
    assert_eq!(state.level[2][4], Tile::Wall);
}
