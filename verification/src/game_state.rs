//! The session and what it is made of: the grid of tiles, the player, the
//! four ghosts, score, lives and timers.

use vstd::prelude::*;

verus! {

/// Number of rows of the grid.
pub const ROWS: usize = 29;

/// Number of columns of the grid.
pub const COLS: usize = 28;

/// Milliseconds that the host loop waits between two ticks.
pub const SPEED_OF_GAME: u64 = 175;

/// While the player is powered up the ghosts sit out this many ticks between moves.
pub const HOW_SLOW: u8 = 3;

/// Lives at the start of a session.
pub const INITIAL_LIVES: i32 = 3;

/// First score threshold that awards a bonus life.
pub const INITIAL_FREE_LIFE: i32 = 1000;

/// How long a power-up lasts, in milliseconds.
pub const POWER_UP_MILLIS: u64 = 5000;

/// What a cell of the grid holds.
#[derive(Copy, Clone, Debug, PartialEq, Eq, Structural)]
pub enum Tile {
    Empty,
    Wall,
    Pellet,
    PowerUp,
    /// Closed to the player, open to ghosts.
    GhostWall,
}

/// A ghost: where it stands and where it is heading.
#[derive(Copy, Clone, Debug, PartialEq, Eq, Structural)]
pub struct GhostAgent {
    pub row: i16,
    pub col: i16,
    /// -1 up, +1 down
    pub dir_r: i16,
    /// -1 left, +1 right
    pub dir_c: i16,
}

/// Whether the session still runs.
#[derive(Copy, Clone, Debug, PartialEq, Eq, Structural)]
pub enum SessionStatus {
    Active,
    Over,
}

/// The grid of tiles, row by row.
pub type Level = [[Tile; COLS]; ROWS];

/// Everything a session holds. Times are milliseconds on a clock that never
/// runs backwards; the chase probability is kept in percent.
#[derive(Debug)]
pub struct GameState {
    pub level: Level,
    pub pac_row: i16,
    pub pac_col: i16,
    pub pac_dir_r: i16,
    pub pac_dir_c: i16,
    pub pac_spawn: (i16, i16),
    pub ghosts: [GhostAgent; 4],
    pub ghost_spawns: [(i16, i16); 4],
    pub score: i32,
    pub lives: i32,
    pub free_life: i32,
    pub level_number: i32,
    pub powerd_up: bool,
    pub ghosts_in_a_row: i32,
    pub power_end_time: Option<u64>,
    pub food_left: i32,
    pub slower_ghosts_counter: u8,
    pub chase_percent: u8,
    pub status: SessionStatus,
}

/// `(row, col)` names a cell of the grid.
pub open spec fn in_grid(row: int, col: int) -> bool {
    0 <= row < ROWS && 0 <= col < COLS
}

/// `(dir_r, dir_c)` is a step of at most one cell along at most one axis.
pub open spec fn is_heading(dir_r: int, dir_c: int) -> bool {
    &&& -1 <= dir_r <= 1
    &&& -1 <= dir_c <= 1
    &&& (dir_r == 0 || dir_c == 0)
}

/// The tile in cell `(row, col)` of the grid.
pub open spec fn tile(level: Level, row: int, col: int) -> Tile {
    level[row][col]
}

/// Whether `(row, col)` names a cell of the grid.
pub fn on_grid(row: i16, col: i16) -> (on: bool)
    ensures
        on == in_grid(row as int, col as int),
{
    0 <= row && row < ROWS as i16 && 0 <= col && col < COLS as i16
}

/// Whether `(dir_r, dir_c)` is a step of at most one cell along at most one axis.
pub fn heading_ok(dir_r: i16, dir_c: i16) -> (ok: bool)
    ensures
        ok == is_heading(dir_r as int, dir_c as int),
{
    -1 <= dir_r && dir_r <= 1 && -1 <= dir_c && dir_c <= 1 && (dir_r == 0 || dir_c == 0)
}

impl GhostAgent {
    /// The ghost stands on the grid and its heading is a step.
    pub open spec fn wf(&self) -> bool {
        &&& in_grid(self.row as int, self.col as int)
        &&& is_heading(self.dir_r as int, self.dir_c as int)
    }

    /// A ghost freshly put on `(row, col)`: it heads down.
    pub open spec fn spawned(row: i16, col: i16) -> GhostAgent {
        GhostAgent { row, col, dir_r: 1, dir_c: 0 }
    }
}

impl GameState {
    /// What every session keeps true between two calls.
    pub open spec fn wf(&self) -> bool {
        &&& in_grid(self.pac_row as int, self.pac_col as int)
        &&& is_heading(self.pac_dir_r as int, self.pac_dir_c as int)
        &&& in_grid(self.pac_spawn.0 as int, self.pac_spawn.1 as int)
        &&& forall|i: int| 0 <= i < 4 ==> (#[trigger] self.ghosts[i]).wf()
        &&& forall|i: int|
            0 <= i < 4 ==> in_grid(
                (#[trigger] self.ghost_spawns[i]).0 as int,
                self.ghost_spawns[i].1 as int,
            )
        &&& self.score >= 0
        &&& self.powerd_up <==> self.power_end_time is Some
        &&& self.powerd_up ==> self.ghosts_in_a_row >= 1
        &&& !self.powerd_up ==> self.ghosts_in_a_row == 0
        &&& self.slower_ghosts_counter <= HOW_SLOW
        &&& self.chase_percent <= 100
    }

    /// A session before any level is loaded: an empty grid, everyone in the
    /// top left corner, three lives, level 1.
    pub fn new() -> (state: Self)
        ensures
            state.wf(),
            forall|r: int, c: int| in_grid(r, c) ==> #[trigger] tile(state.level, r, c) == Tile::Empty,
            state.pac_row == 0 && state.pac_col == 0,
            state.pac_dir_r == 0 && state.pac_dir_c == -1,
            state.pac_spawn == (0i16, 0i16),
            state.ghosts[0] == (GhostAgent { row: 0, col: 0, dir_r: 1, dir_c: 0 }),
            state.ghosts[1] == (GhostAgent { row: 0, col: 0, dir_r: -1i16, dir_c: 0 }),
            state.ghosts[2] == (GhostAgent { row: 0, col: 0, dir_r: 0, dir_c: -1i16 }),
            state.ghosts[3] == (GhostAgent { row: 0, col: 0, dir_r: 0, dir_c: 1 }),
            forall|i: int| 0 <= i < 4 ==> #[trigger] state.ghost_spawns[i] == (0i16, 0i16),
            state.score == 0,
            state.lives == INITIAL_LIVES,
            state.free_life == INITIAL_FREE_LIFE,
            state.level_number == 1,
            !state.powerd_up,
            state.ghosts_in_a_row == 0,
            state.power_end_time is None,
            state.food_left == 0,
            state.slower_ghosts_counter == 0,
            state.chase_percent == 50,
            state.status == SessionStatus::Active,
    {
        let level = [[Tile::Empty; COLS]; ROWS];
        let ghosts = [
            GhostAgent { row: 0, col: 0, dir_r: 1, dir_c: 0 },
            GhostAgent { row: 0, col: 0, dir_r: -1, dir_c: 0 },
            GhostAgent { row: 0, col: 0, dir_r: 0, dir_c: -1 },
            GhostAgent { row: 0, col: 0, dir_r: 0, dir_c: 1 },
        ];
        Self {
            level,
            pac_row: 0,
            pac_col: 0,
            pac_dir_r: 0,
            pac_dir_c: -1,
            pac_spawn: (0, 0),
            ghosts,
            ghost_spawns: [(0, 0);4],
            score: 0,
            lives: INITIAL_LIVES,
            free_life: INITIAL_FREE_LIFE,
            level_number: 1,
            powerd_up: false,
            ghosts_in_a_row: 0,
            power_end_time: None,
            food_left: 0,
            slower_ghosts_counter: 0,
            chase_percent: 50,
            status: SessionStatus::Active,
        }
    }

    /// Whether the session is one that the rules can work on.
    pub fn is_valid(&self) -> (valid: bool)
        ensures
            valid == self.wf(),
    {
        let mut i: usize = 0;
        while i < 4
            invariant
                i <= 4,
                forall|k: int| 0 <= k < i ==> (#[trigger] self.ghosts[k]).wf(),
                forall|k: int|
                    0 <= k < i ==> in_grid((#[trigger] self.ghost_spawns[k]).0 as int, self.ghost_spawns[k].1 as int),
            decreases 4 - i,
        {
            let g = self.ghosts[i];
            let spawn = self.ghost_spawns[i];
            if !(on_grid(g.row, g.col) && heading_ok(g.dir_r, g.dir_c) && on_grid(spawn.0, spawn.1)) {
                assert(!self.ghosts[i as int].wf() || !in_grid(
                    self.ghost_spawns[i as int].0 as int,
                    self.ghost_spawns[i as int].1 as int,
                ));
                return false;
            }
            i += 1;
        }
        on_grid(self.pac_row, self.pac_col) && heading_ok(self.pac_dir_r, self.pac_dir_c) && on_grid(
            self.pac_spawn.0,
            self.pac_spawn.1,
        ) && self.score >= 0 && self.powerd_up == self.power_end_time.is_some() && (if self.powerd_up {
            self.ghosts_in_a_row >= 1
        } else {
            self.ghosts_in_a_row == 0
        }) && self.slower_ghosts_counter <= HOW_SLOW && self.chase_percent <= 100
    }
}

} // verus!
