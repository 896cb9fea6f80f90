//! How the player moves and what it eats on the way.

use crate::game_state::{in_grid, tile, GameState, Level, Tile, POWER_UP_MILLIS};
use crate::grid::{consume, lemma_consume_nothing, wrap_col, wrap_coords, wrap_row};
use vstd::prelude::*;

verus! {

/// The cell that the player is about to enter: one step ahead, wrapped.
pub open spec fn pacman_target(s: GameState) -> (int, int) {
    (wrap_row(s.pac_row + s.pac_dir_r), wrap_col(s.pac_col + s.pac_dir_c))
}

/// `post` is `pre` with the cell `(row, col)` emptied.
pub open spec fn level_cleared_at(pre: Level, post: Level, row: int, col: int) -> bool {
    forall|r: int, c: int|
        in_grid(r, c) ==> #[trigger] tile(post, r, c) == if r == row && c == col {
            Tile::Empty
        } else {
            tile(pre, r, c)
        }
}

/// The player's move neither runs the score over the largest `i32`, nor
/// the count of pellets under the least, nor the clock over the largest `u64`.
pub open spec fn pacman_move_fits(s: GameState, now: u64) -> bool {
    match tile(s.level, pacman_target(s).0, pacman_target(s).1) {
        Tile::Pellet => s.score < i32::MAX && s.food_left > i32::MIN,
        Tile::PowerUp => s.score <= i32::MAX - 5 && now <= u64::MAX - POWER_UP_MILLIS,
        _ => true,
    }
}

/// `post` is `pre` after the player's move at the time `now`.
///
/// Before a wall or a ghost wall nothing changes. Else the player enters
/// the cell ahead. A pellet there is eaten for one point and counted off. A
/// power-up there is eaten for five points; the player is powered up until
/// five seconds from `now`, and a streak of captures that is not under way
/// starts at one.
pub open spec fn pacman_moved(pre: GameState, post: GameState, now: u64) -> bool {
    let (r, c) = pacman_target(pre);
    match tile(pre.level, r, c) {
        Tile::Wall | Tile::GhostWall => post == pre,
        Tile::Empty => post == (GameState { pac_row: r as i16, pac_col: c as i16, ..pre }),
        Tile::Pellet => {
            &&& post == (GameState {
                pac_row: r as i16,
                pac_col: c as i16,
                level: post.level,
                score: (pre.score + 1) as i32,
                food_left: (pre.food_left - 1) as i32,
                ..pre
            })
            &&& level_cleared_at(pre.level, post.level, r, c)
        },
        Tile::PowerUp => {
            &&& post == (GameState {
                pac_row: r as i16,
                pac_col: c as i16,
                level: post.level,
                score: (pre.score + 5) as i32,
                powerd_up: true,
                ghosts_in_a_row: if pre.ghosts_in_a_row == 0 {
                    1
                } else {
                    pre.ghosts_in_a_row
                },
                power_end_time: Some((now + POWER_UP_MILLIS) as u64),
                ..pre
            })
            &&& level_cleared_at(pre.level, post.level, r, c)
        },
    }
}

/// The player's move at the time `now`, in milliseconds.
pub fn move_pacman(state: &mut GameState, now: u64)
    requires
        old(state).wf(),
        pacman_move_fits(*old(state), now),
    ensures
        final(state).wf(),
        pacman_moved(*old(state), *final(state), now),
{
    let (new_r, new_c) = wrap_coords(state.pac_row + state.pac_dir_r, state.pac_col + state.pac_dir_c);
    let ahead = state.level[new_r as usize][new_c as usize];
    if ahead == Tile::Wall || ahead == Tile::GhostWall {
        return ;
    }
    state.pac_row = new_r;
    state.pac_col = new_c;

    match consume(&mut state.level, new_r, new_c) {
        Some(Tile::Pellet) => {
            state.score += 1;
            state.food_left -= 1;
        },
        Some(Tile::PowerUp) => {
            state.score += 5;
            state.powerd_up = true;
            if state.ghosts_in_a_row == 0 {
                state.ghosts_in_a_row = 1;
            }
            state.power_end_time = Some(now + POWER_UP_MILLIS);
        },
        _ => {
            proof {
                lemma_consume_nothing(old(state).level, state.level, new_r as int, new_c as int);
            }
        },
    }
}

/// A power-up eaten by a player that is not powered up starts the streak at
/// one; eaten by a player that is, it leaves the streak as it is. Either way
/// the player is powered up until five seconds from `now`.
pub proof fn lemma_power_up_streak(pre: GameState, post: GameState, now: u64)
    requires
        pre.wf(),
        pacman_move_fits(pre, now),
        pacman_moved(pre, post, now),
        tile(pre.level, pacman_target(pre).0, pacman_target(pre).1) == Tile::PowerUp,
    ensures
        post.powerd_up,
        post.power_end_time == Some((now + POWER_UP_MILLIS) as u64),
        post.score == pre.score + 5,
        post.food_left == pre.food_left,
        !pre.powerd_up ==> post.ghosts_in_a_row == 1,
        pre.powerd_up ==> post.ghosts_in_a_row == pre.ghosts_in_a_row,
{
}

/// Before a wall or a ghost wall the player stays where it is and keeps its
/// heading; nothing at all changes.
pub proof fn lemma_wall_stops_player(pre: GameState, post: GameState, now: u64)
    requires
        pacman_moved(pre, post, now),
        tile(pre.level, pacman_target(pre).0, pacman_target(pre).1) == Tile::Wall || tile(
            pre.level,
            pacman_target(pre).0,
            pacman_target(pre).1,
        ) == Tile::GhostWall,
    ensures
        post == pre,
{
}

/// A pellet that the player steps on scores one point, leaves one pellet
/// less, and is gone from the grid: stepping there again eats nothing.
pub proof fn lemma_pellet_eaten(pre: GameState, post: GameState, now: u64)
    requires
        pre.wf(),
        pacman_move_fits(pre, now),
        pacman_moved(pre, post, now),
        tile(pre.level, pacman_target(pre).0, pacman_target(pre).1) == Tile::Pellet,
    ensures
        post.score == pre.score + 1,
        post.food_left == pre.food_left - 1,
        (post.pac_row as int, post.pac_col as int) == pacman_target(pre),
        tile(post.level, post.pac_row as int, post.pac_col as int) == Tile::Empty,
        post.powerd_up == pre.powerd_up && post.ghosts_in_a_row == pre.ghosts_in_a_row,
{
    assert(in_grid(pacman_target(pre).0, pacman_target(pre).1));
}


} // verus!
