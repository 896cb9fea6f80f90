//! The grid: coordinates that wrap around its edges, reading a tile and
//! eating what lies on it.

use crate::game_state::{in_grid, tile, Level, Tile, COLS, ROWS};
use vstd::prelude::*;

verus! {

/// Where a row index lands once it is brought back onto the grid: a row
/// above the grid becomes the last row, a row below it the first. One step,
/// not a remainder.
pub open spec fn wrap_row(row: int) -> int {
    if row < 0 {
        ROWS - 1
    } else if row >= ROWS {
        0
    } else {
        row
    }
}

/// Where a column index lands once it is brought back onto the grid.
pub open spec fn wrap_col(col: int) -> int {
    if col < 0 {
        COLS - 1
    } else if col >= COLS {
        0
    } else {
        col
    }
}

/// The tile that `(row, col)` names once both axes are wrapped.
pub open spec fn tile_at_spec(level: Level, row: int, col: int) -> Tile {
    tile(level, wrap_row(row), wrap_col(col))
}

/// The tile is one the player can eat.
pub open spec fn is_collectible(t: Tile) -> bool {
    t == Tile::Pellet || t == Tile::PowerUp
}

/// Brings a position back onto the grid, each axis by itself.
pub fn wrap_coords(row: i16, col: i16) -> (wrapped: (i16, i16))
    ensures
        wrapped.0 == wrap_row(row as int),
        wrapped.1 == wrap_col(col as int),
        in_grid(wrapped.0 as int, wrapped.1 as int),
{
    let mut r = row;
    let mut c = col;
    if r < 0 {
        r = ROWS as i16 - 1;
    } else if r >= ROWS as i16 {
        r = 0;
    }
    if c < 0 {
        c = COLS as i16 - 1;
    } else if c >= COLS as i16 {
        c = 0;
    }
    (r, c)
}

/// The tile at `(row, col)`, for any row and column: both are wrapped first.
pub fn tile_at(level: &Level, row: i16, col: i16) -> (t: Tile)
    ensures
        t == tile_at_spec(*level, row as int, col as int),
{
    let (r, c) = wrap_coords(row, col);
    level[r as usize][c as usize]
}

/// Whether the tile at `(row, col)`, wrapped, is a wall. A ghost wall is none.
pub fn is_wall(level: &Level, row: i16, col: i16) -> (wall: bool)
    ensures
        wall == (tile_at_spec(*level, row as int, col as int) == Tile::Wall),
{
    let (r, c) = wrap_coords(row, col);
    level[r as usize][c as usize] == Tile::Wall
}

/// `post` and `eaten` are what eating at `(row, col)`, wrapped, makes of
/// `pre`: a pellet or a power-up leaves an empty cell behind and is handed
/// out; any other tile stays and nothing is handed out. No other cell changes.
pub open spec fn consumed(pre: Level, post: Level, row: int, col: int, eaten: Option<Tile>) -> bool {
    &&& eaten == if is_collectible(tile_at_spec(pre, row, col)) {
        Some(tile_at_spec(pre, row, col))
    } else {
        None
    }
    &&& forall|r: int, c: int|
        in_grid(r, c) ==> #[trigger] tile(post, r, c) == if eaten is Some && r == wrap_row(row) && c == wrap_col(
            col,
        ) {
            Tile::Empty
        } else {
            tile(pre, r, c)
        }
}

/// Eats what lies at `(row, col)`, wrapped, and hands it out if it was a
/// pellet or a power-up.
pub fn consume(level: &mut Level, row: i16, col: i16) -> (eaten: Option<Tile>)
    ensures
        consumed(*old(level), *final(level), row as int, col as int, eaten),
{
    let (r, c) = wrap_coords(row, col);
    let t = level[r as usize][c as usize];
    if t == Tile::Pellet || t == Tile::PowerUp {
        level[r as usize][c as usize] = Tile::Empty;
        Some(t)
    } else {
        None
    }
}

/// Nothing is eaten twice: after eating at a cell, eating there again hands
/// out nothing and leaves the grid as it is.
pub proof fn lemma_consume_twice(
    first: Level,
    second: Level,
    third: Level,
    row: int,
    col: int,
    eaten: Option<Tile>,
    again: Option<Tile>,
)
    requires
        consumed(first, second, row, col, eaten),
        consumed(second, third, row, col, again),
    ensures
        again is None,
        third == second,
{
    assert(in_grid(wrap_row(row), wrap_col(col)));
    assert(tile(second, wrap_row(row), wrap_col(col)) == if eaten is Some {
        Tile::Empty
    } else {
        tile(first, wrap_row(row), wrap_col(col))
    });
    lemma_same_tiles(third, second);
}

/// What is not a pellet or a power-up is not eaten: the grid stays as it is.
pub proof fn lemma_consume_nothing(pre: Level, post: Level, row: int, col: int)
    requires
        consumed(pre, post, row, col, None),
    ensures
        post == pre,
{
    lemma_same_tiles(post, pre);
}

/// Wrapping lands on the grid, leaves alone what is on the grid already, and
/// done twice is the same as done once.
pub proof fn lemma_wrap_idempotent(row: int, col: int)
    ensures
        in_grid(wrap_row(row), wrap_col(col)),
        0 <= row < ROWS ==> wrap_row(row) == row,
        0 <= col < COLS ==> wrap_col(col) == col,
        wrap_row(wrap_row(row)) == wrap_row(row),
        wrap_col(wrap_col(col)) == wrap_col(col),
{
}

/// On the grid `tile_at` reads the cell itself, and reading a wrapped
/// position is reading the position.
pub proof fn lemma_tile_at_wrapped(level: Level, row: int, col: int)
    ensures
        in_grid(row, col) ==> tile_at_spec(level, row, col) == tile(level, row, col),
        tile_at_spec(level, wrap_row(row), wrap_col(col)) == tile_at_spec(level, row, col),
{
}

/// Two grids that hold the same tile in every cell are the same grid.
pub proof fn lemma_same_tiles(a: Level, b: Level)
    requires
        forall|r: int, c: int| in_grid(r, c) ==> #[trigger] tile(a, r, c) == tile(b, r, c),
    ensures
        a == b,
{
    assert forall|r: int| 0 <= r < ROWS implies a[r] == b[r] by {
        assert forall|c: int| 0 <= c < COLS implies a[r][c] == b[r][c] by {
            assert(tile(a, r, c) == tile(b, r, c));
        }
        assert(a[r] =~= b[r]);
    }
    assert(a =~= b);
}


} // verus!
