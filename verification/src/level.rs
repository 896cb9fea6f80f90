//! Loading a level: cells laid out from rows of codes, spawn cells, the
//! count of pellets, and the settings that go with the level's number.

use crate::game_state::{in_grid, tile, GameState, Level, Tile, COLS, ROWS};
use crate::level_text::{level_of, level_of_name, line_cells, line_codes};
use vstd::prelude::*;

verus! {

/// How often in a hundred a ghost chases, level by level.
pub open spec fn chase_percent_spec(level: int) -> int {
    if level >= 9 {
        95
    } else if level == 8 {
        85
    } else if level == 7 {
        75
    } else if level == 6 {
        70
    } else if level == 5 {
        65
    } else if level == 4 {
        60
    } else if level == 3 {
        55
    } else {
        50
    }
}

/// How often in a hundred a ghost chases on `level`.
pub fn chase_percent_for(level: i32) -> (percent: u8)
    ensures
        percent == chase_percent_spec(level as int),
        50 <= percent <= 95,
{
    if level >= 9 {
        95
    } else if level == 8 {
        85
    } else if level == 7 {
        75
    } else if level == 6 {
        70
    } else if level == 5 {
        65
    } else if level == 4 {
        60
    } else if level == 3 {
        55
    } else {
        50
    }
}

/// The tile that a code stands for. The codes from 5 on mark where someone
/// starts, on an empty cell.
pub open spec fn tile_of_code(code: int) -> Tile {
    if code == 1 {
        Tile::Wall
    } else if code == 2 {
        Tile::Pellet
    } else if code == 3 {
        Tile::PowerUp
    } else if code == 4 {
        Tile::GhostWall
    } else {
        Tile::Empty
    }
}

/// The rows of codes say what cell `(r, c)` holds.
pub open spec fn gives(rows: Seq<Seq<u8>>, r: int, c: int) -> bool {
    &&& 0 <= r < rows.len()
    &&& r < ROWS
    &&& 0 <= c < rows[r].len()
    &&& c < COLS
}

/// The rows of codes hold `marker` for cell `(r, c)`.
pub open spec fn marks(rows: Seq<Seq<u8>>, marker: int, r: int, c: int) -> bool {
    gives(rows, r, c) && rows[r][c] == marker
}

/// Cell `(r, c)` is read before cell `(r2, c2)`: rows from the top, each
/// from the left.
pub open spec fn reads_before(r: int, c: int, r2: int, c2: int) -> bool {
    r < r2 || (r == r2 && c < c2)
}

/// Cell `(r, c)` is the last for which the rows hold `marker`.
pub open spec fn is_last_mark(rows: Seq<Seq<u8>>, marker: int, r: int, c: int) -> bool {
    &&& marks(rows, marker, r, c)
    &&& forall|r2: int, c2: int| #[trigger] marks(rows, marker, r2, c2) ==> !reads_before(r, c, r2, c2)
}

/// The rows hold `marker` for some cell.
pub open spec fn is_marked(rows: Seq<Seq<u8>>, marker: int) -> bool {
    exists|r: int, c: int| marks(rows, marker, r, c)
}

/// `after` is where `marker` puts what was at `before`: on the last cell
/// that holds the marker, and where it was if none does.
pub open spec fn placed_by(rows: Seq<Seq<u8>>, marker: int, before: (i16, i16), after: (i16, i16)) -> bool {
    if is_marked(rows, marker) {
        is_last_mark(rows, marker, after.0 as int, after.1 as int)
    } else {
        after == before
    }
}

/// `post` is `pre` with the cells laid out as the rows of codes say.
///
/// Each cell that the rows give gets the tile of its code, the others
/// keep theirs. The codes 5 to 8 put the four ghosts and their spawn cells,
/// 9 the player and its spawn cell. Headings and all else stay.
pub open spec fn cells_placed(pre: GameState, post: GameState, rows: Seq<Seq<u8>>) -> bool {
    &&& post == (GameState {
        level: post.level,
        pac_row: post.pac_row,
        pac_col: post.pac_col,
        pac_spawn: post.pac_spawn,
        ghosts: post.ghosts,
        ghost_spawns: post.ghost_spawns,
        ..pre
    })
    &&& forall|r: int, c: int|
        in_grid(r, c) ==> #[trigger] tile(post.level, r, c) == if gives(rows, r, c) {
            tile_of_code(rows[r][c] as int)
        } else {
            tile(pre.level, r, c)
        }
    &&& placed_by(rows, 9, (pre.pac_row, pre.pac_col), (post.pac_row, post.pac_col))
    &&& placed_by(rows, 9, pre.pac_spawn, post.pac_spawn)
    &&& forall|k: int|
        0 <= k < 4 ==> {
            &&& placed_by(
                rows,
                5 + k,
                (pre.ghosts[k].row, pre.ghosts[k].col),
                ((#[trigger] post.ghosts[k]).row, post.ghosts[k].col),
            )
            &&& placed_by(rows, 5 + k, pre.ghost_spawns[k], post.ghost_spawns[k])
            &&& post.ghosts[k].dir_r == pre.ghosts[k].dir_r
            &&& post.ghosts[k].dir_c == pre.ghosts[k].dir_c
        }
}

/// The rows of codes as contracts see them.
pub open spec fn rows_view(rows: &Vec<Vec<u8>>) -> Seq<Seq<u8>> {
    Seq::new(rows@.len(), |r: int| rows@[r]@)
}

/// Where the one that marker `5 + j` stands for is: the ghosts for `j`
/// below 4, else the player.
spec fn place_of(s: GameState, j: int) -> (i16, i16) {
    if 0 <= j < 4 {
        (s.ghosts[j].row, s.ghosts[j].col)
    } else {
        (s.pac_row, s.pac_col)
    }
}

/// The spawn cell of the one that marker `5 + j` stands for.
spec fn spawn_of(s: GameState, j: int) -> (i16, i16) {
    if 0 <= j < 4 {
        s.ghost_spawns[j]
    } else {
        s.pac_spawn
    }
}

/// What holds of marker `5 + j` while the cells are laid out, with all
/// cells before `(r, c)` read: if the marker was seen, its last cell so far
/// is where the one it stands for is and spawns; if not, nothing has moved.
spec fn mark_tracked(
    pre: GameState,
    cur: GameState,
    rows: Seq<Seq<u8>>,
    seen: Seq<bool>,
    j: int,
    r: int,
    c: int,
) -> bool {
    let p = spawn_of(cur, j);
    &&& place_of(cur, j) == if seen[j] {
        p
    } else {
        place_of(pre, j)
    }
    &&& 0 <= j < 4 ==> cur.ghosts[j].dir_r == pre.ghosts[j].dir_r && cur.ghosts[j].dir_c == pre.ghosts[j].dir_c
    &&& if seen[j] {
        &&& marks(rows, 5 + j, p.0 as int, p.1 as int)
        &&& reads_before(p.0 as int, p.1 as int, r, c)
        &&& forall|r2: int, c2: int|
            #[trigger] marks(rows, 5 + j, r2, c2) && reads_before(r2, c2, r, c) ==> !reads_before(
                p.0 as int,
                p.1 as int,
                r2,
                c2,
            )
    } else {
        &&& p == spawn_of(pre, j)
        &&& forall|r2: int, c2: int| #[trigger] marks(rows, 5 + j, r2, c2) ==> !reads_before(r2, c2, r, c)
    }
}

/// What holds while the cells are laid out, with all cells before `(r, c)` read.
spec fn placing(pre: GameState, cur: GameState, rows: Seq<Seq<u8>>, seen: Seq<bool>, r: int, c: int) -> bool {
    &&& seen.len() == 5
    &&& cur == (GameState {
        level: cur.level,
        pac_row: cur.pac_row,
        pac_col: cur.pac_col,
        pac_spawn: cur.pac_spawn,
        ghosts: cur.ghosts,
        ghost_spawns: cur.ghost_spawns,
        ..pre
    })
    &&& forall|r2: int, c2: int|
        in_grid(r2, c2) ==> #[trigger] tile(cur.level, r2, c2) == if gives(rows, r2, c2) && reads_before(
            r2,
            c2,
            r,
            c,
        ) {
            tile_of_code(rows[r2][c2] as int)
        } else {
            tile(pre.level, r2, c2)
        }
    &&& forall|j: int| 0 <= j < 5 ==> #[trigger] mark_tracked(pre, cur, rows, seen, j, r, c)
}

/// Lays out one cell.
fn place_cell(state: &mut GameState, r: usize, c: usize, code: u8)
    requires
        in_grid(r as int, c as int),
    ensures
        *final(state) == (GameState {
            level: final(state).level,
            pac_row: final(state).pac_row,
            pac_col: final(state).pac_col,
            pac_spawn: final(state).pac_spawn,
            ghosts: final(state).ghosts,
            ghost_spawns: final(state).ghost_spawns,
            ..*old(state)
        }),
        forall|r2: int, c2: int|
            in_grid(r2, c2) ==> #[trigger] tile(final(state).level, r2, c2) == if r2 == r && c2 == c {
                tile_of_code(code as int)
            } else {
                tile(old(state).level, r2, c2)
            },
        forall|j: int|
            0 <= j < 5 ==> #[trigger] place_of(*final(state), j) == if code == 5 + j {
                (r as i16, c as i16)
            } else {
                place_of(*old(state), j)
            },
        forall|j: int|
            0 <= j < 5 ==> #[trigger] spawn_of(*final(state), j) == if code == 5 + j {
                (r as i16, c as i16)
            } else {
                spawn_of(*old(state), j)
            },
        forall|k: int|
            0 <= k < 4 ==> {
                &&& (#[trigger] final(state).ghosts[k]).dir_r == old(state).ghosts[k].dir_r
                &&& final(state).ghosts[k].dir_c == old(state).ghosts[k].dir_c
            },
{
    let placed = if code == 1 {
        Tile::Wall
    } else if code == 2 {
        Tile::Pellet
    } else if code == 3 {
        Tile::PowerUp
    } else if code == 4 {
        Tile::GhostWall
    } else if 5 <= code && code <= 8 {
        let k = (code - 5) as usize;
        state.ghosts[k].row = r as i16;
        state.ghosts[k].col = c as i16;
        state.ghost_spawns[k] = (r as i16, c as i16);
        Tile::Empty
    } else if code == 9 {
        state.pac_row = r as i16;
        state.pac_col = c as i16;
        state.pac_spawn = (r as i16, c as i16);
        Tile::Empty
    } else {
        Tile::Empty
    };
    state.level[r][c] = placed;
}

/// Lays out the cells as the rows of codes say: row by row from the top,
/// each from the left, as far as the grid reaches.
pub fn place_cells(state: &mut GameState, rows: &Vec<Vec<u8>>)
    ensures
        cells_placed(*old(state), *final(state), rows_view(rows)),
        old(state).wf() ==> final(state).wf(),
{
    let ghost view = rows_view(rows);
    let ghost mut seen: Seq<bool> = Seq::new(5, |j: int| false);
    let mut r: usize = 0;
    assert(placing(*old(state), *state, view, seen, 0, 0)) by {
        assert forall|j: int| 0 <= j < 5 implies #[trigger] mark_tracked(*old(state), *state, view, seen, j, 0, 0) by {}
    }
    while r < rows.len() && r < ROWS
        invariant
            r <= rows@.len(),
            r <= ROWS,
            view == rows_view(rows),
            placing(*old(state), *state, view, seen, r as int, 0),
        decreases rows@.len() - r,
    {
        let row = &rows[r];
        let mut c: usize = 0;
        assert(view[r as int] == row@);
        while c < row.len() && c < COLS
            invariant
                r < rows@.len(),
                r < ROWS,
                c <= row@.len(),
                c <= COLS,
                view == rows_view(rows),
                view[r as int] == row@,
                placing(*old(state), *state, view, seen, r as int, c as int),
            decreases row@.len() - c,
        {
            let code = row[c];
            let ghost before = *state;
            let ghost seen_before = seen;
            place_cell(state, r, c, code);
            proof {
                assert(gives(view, r as int, c as int));
                assert(view[r as int][c as int] == code);
                if 5 <= code <= 9 {
                    seen = seen.update(code - 5, true);
                }
                assert forall|j: int| 0 <= j < 5 implies #[trigger] mark_tracked(
                    *old(state),
                    *state,
                    view,
                    seen,
                    j,
                    r as int,
                    c + 1,
                ) by {
                    assert(mark_tracked(*old(state), before, view, seen_before, j, r as int, c as int));
                    assert(place_of(*state, j) == if code == 5 + j {
                        (r as i16, c as i16)
                    } else {
                        place_of(before, j)
                    });
                    assert(spawn_of(*state, j) == if code == 5 + j {
                        (r as i16, c as i16)
                    } else {
                        spawn_of(before, j)
                    });
                    if code == 5 + j {
                        assert(marks(view, 5 + j, r as int, c as int));
                    }
                }
                assert forall|r2: int, c2: int| in_grid(r2, c2) implies #[trigger] tile(state.level, r2, c2) == if gives(
                    view,
                    r2,
                    c2,
                ) && reads_before(r2, c2, r as int, c + 1) {
                    tile_of_code(view[r2][c2] as int)
                } else {
                    tile(old(state).level, r2, c2)
                } by {
                    assert(tile(before.level, r2, c2) == if gives(view, r2, c2) && reads_before(
                        r2,
                        c2,
                        r as int,
                        c as int,
                    ) {
                        tile_of_code(view[r2][c2] as int)
                    } else {
                        tile(old(state).level, r2, c2)
                    });
                }
            }
            c += 1;
        }
        proof {
            assert forall|j: int| 0 <= j < 5 implies #[trigger] mark_tracked(
                *old(state),
                *state,
                view,
                seen,
                j,
                r + 1,
                0,
            ) by {
                assert(mark_tracked(*old(state), *state, view, seen, j, r as int, c as int));
            }
            assert forall|r2: int, c2: int| in_grid(r2, c2) implies #[trigger] tile(state.level, r2, c2) == if gives(
                view,
                r2,
                c2,
            ) && reads_before(r2, c2, r + 1, 0) {
                tile_of_code(view[r2][c2] as int)
            } else {
                tile(old(state).level, r2, c2)
            } by {
                assert(tile(state.level, r2, c2) == if gives(view, r2, c2) && reads_before(r2, c2, r as int, c as int) {
                    tile_of_code(view[r2][c2] as int)
                } else {
                    tile(old(state).level, r2, c2)
                });
            }
        }
        r += 1;
    }
    proof {
        lemma_placing_done(*old(state), *state, view, seen, r as int);
    }
}

/// Once every row that counts is read, the cells are laid out.
proof fn lemma_placing_done(pre: GameState, cur: GameState, rows: Seq<Seq<u8>>, seen: Seq<bool>, r: int)
    requires
        placing(pre, cur, rows, seen, r, 0),
        r == rows.len() || r == ROWS,
        0 <= r <= rows.len(),
        r <= ROWS,
    ensures
        cells_placed(pre, cur, rows),
        pre.wf() ==> cur.wf(),
{
    assert forall|j: int| 0 <= j < 5 implies placed_by(rows, 5 + j, place_of(pre, j), #[trigger] place_of(cur, j))
        && placed_by(rows, 5 + j, spawn_of(pre, j), spawn_of(cur, j)) by {
        assert(mark_tracked(pre, cur, rows, seen, j, r, 0));
        if seen[j] {
            let p = spawn_of(cur, j);
            assert(marks(rows, 5 + j, p.0 as int, p.1 as int));
            assert forall|r2: int, c2: int| #[trigger] marks(rows, 5 + j, r2, c2) implies !reads_before(
                p.0 as int,
                p.1 as int,
                r2,
                c2,
            ) by {
                assert(reads_before(r2, c2, r, 0));
            }
        } else {
            assert forall|r2: int, c2: int| !(#[trigger] marks(rows, 5 + j, r2, c2)) by {
                if marks(rows, 5 + j, r2, c2) {
                    assert(reads_before(r2, c2, r, 0));
                }
            }
        }
    }
    assert(placed_by(rows, 9, place_of(pre, 4), place_of(cur, 4)));
    assert(placed_by(rows, 9, spawn_of(pre, 4), spawn_of(cur, 4)));
    assert forall|k: int| 0 <= k < 4 implies {
        &&& placed_by(
            rows,
            5 + k,
            (pre.ghosts[k].row, pre.ghosts[k].col),
            ((#[trigger] cur.ghosts[k]).row, cur.ghosts[k].col),
        )
        &&& placed_by(rows, 5 + k, pre.ghost_spawns[k], cur.ghost_spawns[k])
        &&& cur.ghosts[k].dir_r == pre.ghosts[k].dir_r
        &&& cur.ghosts[k].dir_c == pre.ghosts[k].dir_c
    } by {
        assert(placed_by(rows, 5 + k, place_of(pre, k), place_of(cur, k)));
        assert(mark_tracked(pre, cur, rows, seen, k, r, 0));
    }
    assert forall|r2: int, c2: int| in_grid(r2, c2) implies #[trigger] tile(cur.level, r2, c2) == if gives(
        rows,
        r2,
        c2,
    ) {
        tile_of_code(rows[r2][c2] as int)
    } else {
        tile(pre.level, r2, c2)
    } by {
        if gives(rows, r2, c2) {
            assert(reads_before(r2, c2, r, 0));
        }
    }
    if pre.wf() {
        assert forall|k: int| 0 <= k < 4 implies (#[trigger] cur.ghosts[k]).wf() by {
            assert(mark_tracked(pre, cur, rows, seen, k, r, 0));
            assert(pre.ghosts[k].wf());
        }
        assert forall|k: int| 0 <= k < 4 implies in_grid(
            (#[trigger] cur.ghost_spawns[k]).0 as int,
            cur.ghost_spawns[k].1 as int,
        ) by {
            assert(mark_tracked(pre, cur, rows, seen, k, r, 0));
            assert(in_grid(pre.ghost_spawns[k].0 as int, pre.ghost_spawns[k].1 as int));
        }
        assert(mark_tracked(pre, cur, rows, seen, 4, r, 0));
    }
}

/// How many of the first `n` cells of row `r` hold a pellet.
pub open spec fn pellets_in_row(level: Level, r: int, n: int) -> nat
    decreases n,
{
    if n <= 0 {
        0
    } else {
        pellets_in_row(level, r, n - 1) + if tile(level, r, n - 1) == Tile::Pellet {
            1nat
        } else {
            0nat
        }
    }
}

/// How many cells of the first `n` rows hold a pellet.
pub open spec fn pellets_in_rows(level: Level, n: int) -> nat
    decreases n,
{
    if n <= 0 {
        0
    } else {
        pellets_in_rows(level, n - 1) + pellets_in_row(level, n - 1, COLS as int)
    }
}

/// How many cells of the grid hold a pellet.
pub open spec fn pellet_count(level: Level) -> nat {
    pellets_in_rows(level, ROWS as int)
}

/// Counts the pellets on the grid.
pub fn count_pellets(level: &Level) -> (count: i32)
    ensures
        count == pellet_count(*level),
        0 <= count <= ROWS * COLS,
{
    let mut count: i32 = 0;
    let mut r: usize = 0;
    while r < ROWS
        invariant
            r <= ROWS,
            count == pellets_in_rows(*level, r as int),
            count <= r * COLS,
        decreases ROWS - r,
    {
        let mut c: usize = 0;
        let ghost above = count;
        while c < COLS
            invariant
                r < ROWS,
                c <= COLS,
                above == pellets_in_rows(*level, r as int),
                above <= r * COLS,
                count == above + pellets_in_row(*level, r as int, c as int),
                count <= above + c,
            decreases COLS - c,
        {
            if level[r][c] == Tile::Pellet {
                count += 1;
            }
            c += 1;
        }
        r += 1;
    }
    count
}

/// The lines of a description as contracts see them.
pub open spec fn lines_view(lines: &Vec<String>) -> Seq<Seq<char>> {
    Seq::new(lines@.len(), |i: int| lines@[i]@)
}

/// The rows of codes that the lines of a description give: one row for
/// each line, up to the height of the grid.
pub open spec fn level_cells(lines: Seq<Seq<char>>) -> Seq<Seq<u8>> {
    Seq::new(
        if lines.len() < ROWS {
            lines.len()
        } else {
            ROWS as nat
        },
        |r: int| line_cells(lines[r]),
    )
}

/// `post` is `pre` with the level of the given name and description loaded:
/// the name tells the level and with it how often the ghosts chase, the
/// lines lay out the cells, and the pellets left are those on the grid.
pub open spec fn level_loaded(pre: GameState, post: GameState, name: Seq<char>, lines: Seq<Seq<char>>) -> bool {
    cells_placed(
        GameState {
            level_number: level_of_name(name) as i32,
            chase_percent: chase_percent_spec(level_of_name(name)) as u8,
            food_left: pellet_count(post.level) as i32,
            ..pre
        },
        post,
        level_cells(lines),
    )
}

impl GameState {
    /// Loads a level: `name` is what the level is called, such as the path
    /// of its file, and `lines` are the lines of its description. Each line
    /// is a row of cells, each piece between white space a cell: 1 a wall,
    /// 2 a pellet, 3 a power-up, 4 a ghost wall, 5 to 8 where the ghosts
    /// start, 9 where the player starts, anything else nothing.
    pub fn load_level(&mut self, name: &str, lines: &Vec<String>)
        ensures
            level_loaded(*old(self), *final(self), name@, lines_view(lines)),
            old(self).wf() ==> final(self).wf(),
    {
        let level_number = level_of(name);
        self.level_number = level_number;
        self.chase_percent = chase_percent_for(level_number);

        let mut rows: Vec<Vec<u8>> = Vec::new();
        let mut r: usize = 0;
        while r < lines.len() && r < ROWS
            invariant
                r <= lines@.len(),
                r <= ROWS,
                rows@.len() == r,
                forall|i: int| 0 <= i < r ==> (#[trigger] rows@[i])@ == line_cells(lines@[i]@),
            decreases lines@.len() - r,
        {
            rows.push(line_codes(lines[r].as_str()));
            r += 1;
        }
        assert(rows_view(&rows) =~= level_cells(lines_view(lines)));
        place_cells(self, &rows);

        // Count the pellets that remain
        self.food_left = count_pellets(&self.level);
    }
}

} // verus!
