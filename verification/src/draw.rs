//! What the screen shows of a session: glyphs, colours, and the frame as a
//! list of characters to paint.

use crate::game_state::{tile, GameState, Level, Tile, COLS, ROWS};
use crate::level_text::chars_of;
use vstd::prelude::*;

verus! {

/// The character that shows a tile.
pub open spec fn tile_glyph_spec(t: Tile) -> char {
    match t {
        Tile::Wall => '#',
        Tile::Pellet => '.',
        Tile::PowerUp => '*',
        Tile::GhostWall => '=',
        Tile::Empty => ' ',
    }
}

/// The character that shows a tile.
#[verifier::when_used_as_spec(tile_glyph_spec)]
pub fn tile_glyph(t: Tile) -> (glyph: char)
    ensures
        glyph == tile_glyph_spec(t),
{
    match t {
        Tile::Wall => '#',
        Tile::Pellet => '.',
        Tile::PowerUp => '*',
        Tile::GhostWall => '=',
        _ => ' ',
    }
}

/// The whole seconds that the power-up has left at the time `now`: none
/// once it has run out, and none without a power-up.
pub open spec fn seconds_left_spec(s: GameState, now: u64) -> int {
    match s.power_end_time {
        Some(end) => if end > now {
            (end - now) / 1000
        } else {
            0
        },
        None => 0,
    }
}

/// The whole seconds that the power-up has left at the time `now`.
pub fn seconds_left(state: &GameState, now: u64) -> (seconds: u64)
    ensures
        seconds == seconds_left_spec(*state, now),
{
    match state.power_end_time {
        Some(end) => if end > now {
            (end - now) / 1000
        } else {
            0
        },
        None => 0,
    }
}

/// The character that shows a ghost at the time `now`: `&` while the
/// player is not powered up; else the seconds that the power-up has left,
/// as one digit, nine for nine and more, and `8` where no end is set.
pub open spec fn ghost_glyph_spec(s: GameState, now: u64) -> char {
    if !s.powerd_up {
        '&'
    } else if s.power_end_time is None {
        '8'
    } else if seconds_left_spec(s, now) >= 9 {
        '9'
    } else {
        (0x30 + seconds_left_spec(s, now)) as char
    }
}

/// The character that shows a ghost at the time `now`.
pub fn ghost_glyph(state: &GameState, now: u64) -> (glyph: char)
    ensures
        glyph == ghost_glyph_spec(*state, now),
{
    if state.powerd_up {
        if state.power_end_time.is_some() {
            let seconds = seconds_left(state, now);
            let digits: [char; 10] = ['0', '1', '2', '3', '4', '5', '6', '7', '8', '9'];
            if seconds >= 9 {
                '9'
            } else {
                digits[seconds as usize]
            }
        } else {
            '8'
        }
    } else {
        '&'
    }
}

/// The colour that something on the screen is painted in.
#[derive(Copy, Clone, Debug, PartialEq, Eq, Structural)]
pub enum Paint {
    Plain,
    Red,
    Yellow,
    Magenta,
    Blue,
    White,
}

/// One character on the screen: where it goes, what it is, and its colour.
#[derive(Copy, Clone, Debug, PartialEq, Eq, Structural)]
pub struct Sprite {
    pub col: u16,
    pub row: u16,
    pub glyph: char,
    pub paint: Paint,
}

/// The colour of ghost `i`: red, yellow, magenta and blue for the four
/// ghosts, white for any other.
pub open spec fn ghost_paint_spec(i: int) -> Paint {
    if i == 0 {
        Paint::Red
    } else if i == 1 {
        Paint::Yellow
    } else if i == 2 {
        Paint::Magenta
    } else if i == 3 {
        Paint::Blue
    } else {
        Paint::White
    }
}

/// The colour of ghost `i`.
pub fn ghost_paint(i: usize) -> (paint: Paint)
    ensures
        paint == ghost_paint_spec(i as int),
{
    if i == 0 {
        Paint::Red
    } else if i == 1 {
        Paint::Yellow
    } else if i == 2 {
        Paint::Magenta
    } else if i == 3 {
        Paint::Blue
    } else {
        Paint::White
    }
}

/// How cell `(r, c)` of the grid shows.
pub open spec fn tile_sprite(level: Level, r: int, c: int) -> Sprite {
    Sprite { col: c as u16, row: r as u16, glyph: tile_glyph_spec(tile(level, r, c)), paint: Paint::Plain }
}

/// How ghost `i` shows at the time `now`.
pub open spec fn ghost_sprite(s: GameState, now: u64, i: int) -> Sprite {
    Sprite {
        col: s.ghosts[i].col as u16,
        row: s.ghosts[i].row as u16,
        glyph: ghost_glyph_spec(s, now),
        paint: ghost_paint_spec(i),
    }
}

/// How the player shows.
pub open spec fn pacman_sprite(s: GameState) -> Sprite {
    Sprite { col: s.pac_col as u16, row: s.pac_row as u16, glyph: 'C', paint: Paint::Yellow }
}

/// What the screen shows of a session at the time `now`, in the order in
/// which it is painted: the grid row by row, then the four ghosts, then
/// the player. What comes later covers what came before.
pub open spec fn frame_spec(s: GameState, now: u64) -> Seq<Sprite> {
    Seq::new((ROWS * COLS) as nat, |n: int| tile_sprite(s.level, n / COLS as int, n % COLS as int)) + Seq::new(
        4,
        |i: int| ghost_sprite(s, now, i),
    ) + seq![pacman_sprite(s)]
}

/// What the screen shows of a session at the time `now`.
pub fn frame(state: &GameState, now: u64) -> (sprites: Vec<Sprite>)
    requires
        state.wf(),
    ensures
        sprites@ == frame_spec(*state, now),
{
    let mut sprites: Vec<Sprite> = Vec::new();
    let mut r: usize = 0;
    while r < ROWS
        invariant
            r <= ROWS,
            sprites@ == Seq::new(
                (r * COLS) as nat,
                |n: int| tile_sprite(state.level, n / COLS as int, n % COLS as int),
            ),
        decreases ROWS - r,
    {
        let mut c: usize = 0;
        while c < COLS
            invariant
                r < ROWS,
                c <= COLS,
                sprites@ == Seq::new(
                    (r * COLS + c) as nat,
                    |n: int| tile_sprite(state.level, n / COLS as int, n % COLS as int),
                ),
            decreases COLS - c,
        {
            let ghost before = sprites@;
            sprites.push(
                Sprite { col: c as u16, row: r as u16, glyph: tile_glyph(state.level[r][c]), paint: Paint::Plain },
            );
            assert(sprites@ =~= Seq::new(
                (r * COLS + c + 1) as nat,
                |n: int| tile_sprite(state.level, n / COLS as int, n % COLS as int),
            ));
            c += 1;
        }
        r += 1;
    }
    let glyph = ghost_glyph(state, now);
    let ghost tiles = sprites@;
    let mut i: usize = 0;
    while i < 4
        invariant
            i <= 4,
            state.wf(),
            glyph == ghost_glyph_spec(*state, now),
            sprites@ == tiles + Seq::new(i as nat, |k: int| ghost_sprite(*state, now, k)),
        decreases 4 - i,
    {
        let g = state.ghosts[i];
        assert(g.wf());
        sprites.push(Sprite { col: g.col as u16, row: g.row as u16, glyph, paint: ghost_paint(i) });
        assert(sprites@ =~= tiles + Seq::new((i + 1) as nat, |k: int| ghost_sprite(*state, now, k)));
        i += 1;
    }
    sprites.push(
        Sprite { col: state.pac_col as u16, row: state.pac_row as u16, glyph: 'C', paint: Paint::Yellow },
    );
    sprites
}


/// The digits of a number that is not negative, the highest first.
pub open spec fn digits_of(n: nat) -> Seq<char>
    decreases n,
{
    if n < 10 {
        seq![(0x30 + n) as char]
    } else {
        digits_of(n / 10).push((0x30 + n % 10) as char)
    }
}

/// A number written out in decimal, with a minus sign if it is negative.
pub open spec fn decimal(n: int) -> Seq<char> {
    if n < 0 {
        seq!['-'] + digits_of((-n) as nat)
    } else {
        digits_of(n as nat)
    }
}

/// The line under the grid: level, score, lives and pellets left.
pub open spec fn status_spec(s: GameState) -> Seq<char> {
    "Level: "@ + decimal(s.level_number as int) + "  Score: "@ + decimal(s.score as int) + "  Lives: "@ + decimal(
        s.lives as int,
    ) + "  Food: "@ + decimal(s.food_left as int)
}

/// Writes the digits of `n` behind `out`.
fn push_digits(out: &mut Vec<char>, n: u32)
    ensures
        final(out)@ == old(out)@ + digits_of(n as nat),
    decreases n,
{
    let digits: [char; 10] = ['0', '1', '2', '3', '4', '5', '6', '7', '8', '9'];
    if n >= 10 {
        push_digits(out, n / 10);
    }
    out.push(digits[(n % 10) as usize]);
    assert(out@ =~= old(out)@ + digits_of(n as nat));
}

/// Writes `n` in decimal behind `out`.
fn push_decimal(out: &mut Vec<char>, n: i32)
    ensures
        final(out)@ == old(out)@ + decimal(n as int),
{
    if n < 0 {
        out.push('-');
        // the least `i32` has no positive twin, so count up from it instead of negating
        let size: u32 = if n == i32::MIN {
            0x8000_0000
        } else {
            (-n) as u32
        };
        push_digits(out, size);
        assert(out@ =~= old(out)@ + decimal(n as int));
    } else {
        push_digits(out, n as u32);
    }
}

/// Writes `text` behind `out`.
fn push_text(out: &mut Vec<char>, text: &str)
    ensures
        final(out)@ == old(out)@ + text@,
{
    let chars = chars_of(text);
    let mut i: usize = 0;
    while i < chars.len()
        invariant
            i <= chars@.len(),
            chars@ == text@,
            out@ == old(out)@ + text@.take(i as int),
        decreases chars@.len() - i,
    {
        out.push(chars[i]);
        assert(out@ =~= old(out)@ + text@.take(i + 1));
        i += 1;
    }
    assert(text@.take(text@.len() as int) =~= text@);
}

/// The line under the grid, character by character.
pub fn status_line(state: &GameState) -> (line: Vec<char>)
    ensures
        line@ == status_spec(*state),
{
    let mut line: Vec<char> = Vec::new();
    push_text(&mut line, "Level: ");
    push_decimal(&mut line, state.level_number);
    push_text(&mut line, "  Score: ");
    push_decimal(&mut line, state.score);
    push_text(&mut line, "  Lives: ");
    push_decimal(&mut line, state.lives);
    push_text(&mut line, "  Food: ");
    push_decimal(&mut line, state.food_left);
    assert(line@ =~= status_spec(*state));
    line
}


} // verus!
