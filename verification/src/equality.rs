//! Copies of a session and the comparison of two sessions.

use crate::game_state::{tile, GameState, Level, COLS, ROWS};
use crate::grid::lemma_same_tiles;
use vstd::prelude::*;
use vstd::std_specs::cmp::PartialEqSpecImpl;

verus! {

/// Whether two grids hold the same tile in every cell.
pub fn same_level(a: &Level, b: &Level) -> (same: bool)
    ensures
        same == (*a == *b),
{
    let mut r: usize = 0;
    while r < ROWS
        invariant
            r <= ROWS,
            forall|i: int, j: int| 0 <= i < r && 0 <= j < COLS ==> #[trigger] tile(*a, i, j) == tile(*b, i, j),
        decreases ROWS - r,
    {
        let mut c: usize = 0;
        while c < COLS
            invariant
                r < ROWS,
                c <= COLS,
                forall|i: int, j: int| 0 <= i < r && 0 <= j < COLS ==> #[trigger] tile(*a, i, j) == tile(*b, i, j),
                forall|j: int| 0 <= j < c ==> #[trigger] tile(*a, r as int, j) == tile(*b, r as int, j),
            decreases COLS - c,
        {
            if a[r][c] != b[r][c] {
                assert(tile(*a, r as int, c as int) != tile(*b, r as int, c as int));
                return false;
            }
            c += 1;
        }
        r += 1;
    }
    proof {
        lemma_same_tiles(*a, *b);
    }
    true
}

impl Clone for GameState {
    fn clone(&self) -> (copy: Self)
        ensures
            copy == *self,
    {
        GameState {
            level: self.level,
            pac_row: self.pac_row,
            pac_col: self.pac_col,
            pac_dir_r: self.pac_dir_r,
            pac_dir_c: self.pac_dir_c,
            pac_spawn: self.pac_spawn,
            ghosts: self.ghosts,
            ghost_spawns: self.ghost_spawns,
            score: self.score,
            lives: self.lives,
            free_life: self.free_life,
            level_number: self.level_number,
            powerd_up: self.powerd_up,
            ghosts_in_a_row: self.ghosts_in_a_row,
            power_end_time: self.power_end_time,
            food_left: self.food_left,
            slower_ghosts_counter: self.slower_ghosts_counter,
            chase_percent: self.chase_percent,
            status: self.status,
        }
    }
}

impl PartialEq for GameState {
    fn eq(&self, other: &Self) -> (same: bool) {
        let mut i: usize = 0;
        while i < 4
            invariant
                i <= 4,
                forall|k: int| 0 <= k < i ==> #[trigger] self.ghosts[k] == other.ghosts[k],
                forall|k: int| 0 <= k < i ==> #[trigger] self.ghost_spawns[k] == other.ghost_spawns[k],
            decreases 4 - i,
        {
            let g = self.ghosts[i];
            let h = other.ghosts[i];
            let s = self.ghost_spawns[i];
            let t = other.ghost_spawns[i];
            if !(g.row == h.row && g.col == h.col && g.dir_r == h.dir_r && g.dir_c == h.dir_c && s.0 == t.0 && s.1
                == t.1) {
                assert(self.ghosts[i as int] != other.ghosts[i as int] || self.ghost_spawns[i as int]
                    != other.ghost_spawns[i as int]);
                return false;
            }
            i += 1;
        }
        assert(self.ghosts =~= other.ghosts);
        assert(self.ghost_spawns =~= other.ghost_spawns);
        let end_same = match (self.power_end_time, other.power_end_time) {
            (Some(a), Some(b)) => a == b,
            (None, None) => true,
            _ => false,
        };
        same_level(&self.level, &other.level) && self.pac_row == other.pac_row && self.pac_col == other.pac_col
            && self.pac_dir_r == other.pac_dir_r && self.pac_dir_c == other.pac_dir_c && self.pac_spawn.0
            == other.pac_spawn.0 && self.pac_spawn.1 == other.pac_spawn.1 && self.score == other.score
            && self.lives == other.lives && self.free_life == other.free_life && self.level_number
            == other.level_number && self.powerd_up == other.powerd_up && self.ghosts_in_a_row
            == other.ghosts_in_a_row && end_same && self.food_left == other.food_left
            && self.slower_ghosts_counter == other.slower_ghosts_counter && self.chase_percent
            == other.chase_percent && self.status == other.status
    }
}

impl PartialEqSpecImpl for GameState {
    open spec fn obeys_eq_spec() -> bool {
        true
    }

    open spec fn eq_spec(&self, other: &Self) -> bool {
        *self == *other
    }
}

} // verus!
