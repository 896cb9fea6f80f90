//! How the ghosts move: which steps are open to a ghost, which of them it
//! takes when it chases the player, and where a turn leaves it.

use crate::game_state::{in_grid, is_heading, GameState, GhostAgent, Level, Tile, HOW_SLOW};
use crate::grid::{is_wall, tile_at_spec, wrap_col, wrap_coords, wrap_row};
use crate::random::{RandomSource, ThreadRandom};
use vstd::math::abs;
use vstd::prelude::*;

verus! {

/// The four steps a ghost can take, in the order in which they are tried:
/// up, down, left, right.
pub open spec fn candidate_dirs() -> Seq<(i16, i16)> {
    seq![(-1i16, 0i16), (1i16, 0i16), (0i16, -1i16), (0i16, 1i16)]
}

/// Tells of a step whether it leads from `(row, col)` to a tile that is no wall.
pub open spec fn leads_off_wall(level: Level, row: int, col: int) -> spec_fn((i16, i16)) -> bool {
    |d: (i16, i16)| tile_at_spec(level, row + d.0, col + d.1) != Tile::Wall
}

/// The steps open to a ghost on `(row, col)`, in the order of `candidate_dirs`.
pub open spec fn open_dirs(level: Level, row: int, col: int) -> Seq<(i16, i16)> {
    candidate_dirs().filter(leads_off_wall(level, row, col))
}

/// Tells of a step whether it is anything but the way back for a ghost
/// heading `(dir_r, dir_c)`.
pub open spec fn not_reverse_of(dir_r: int, dir_c: int) -> spec_fn((i16, i16)) -> bool {
    |d: (i16, i16)| !(d.0 == -dir_r && d.1 == -dir_c)
}

/// `dirs` without the way back.
pub open spec fn without_reverse(dirs: Seq<(i16, i16)>, dir_r: int, dir_c: int) -> Seq<(i16, i16)> {
    dirs.filter(not_reverse_of(dir_r, dir_c))
}

/// How far `(row, col)` is from the player, counted in steps along the axes.
pub open spec fn chase_distance(row: int, col: int, pac_r: int, pac_c: int) -> nat {
    abs(row - pac_r) + abs(col - pac_c)
}

/// How far from the player the ghost would be after the step `d`. The
/// position is not wrapped.
pub open spec fn distance_after(ghost_r: int, ghost_c: int, pac_r: int, pac_c: int, d: (i16, i16)) -> nat {
    chase_distance(ghost_r + d.0, ghost_c + d.1, pac_r, pac_c)
}

/// `dirs[i]` is the step to chase with: none of `dirs` leaves the ghost
/// nearer to the player, every earlier one leaves it farther, and the
/// distance is below the largest `i16`.
pub open spec fn is_best_dir(
    ghost_r: int,
    ghost_c: int,
    pac_r: int,
    pac_c: int,
    dirs: Seq<(i16, i16)>,
    i: int,
) -> bool {
    &&& 0 <= i < dirs.len()
    &&& distance_after(ghost_r, ghost_c, pac_r, pac_c, dirs[i]) < i16::MAX
    &&& forall|j: int|
        0 <= j < dirs.len() ==> distance_after(ghost_r, ghost_c, pac_r, pac_c, dirs[i])
            <= distance_after(ghost_r, ghost_c, pac_r, pac_c, #[trigger] dirs[j])
    &&& forall|j: int|
        0 <= j < i ==> distance_after(ghost_r, ghost_c, pac_r, pac_c, dirs[i]) < distance_after(
            ghost_r,
            ghost_c,
            pac_r,
            pac_c,
            #[trigger] dirs[j],
        )
}

/// The step to chase with, where there is one.
pub open spec fn best_dir(ghost_r: int, ghost_c: int, pac_r: int, pac_c: int, dirs: Seq<(i16, i16)>) -> Option<
    (i16, i16),
> {
    if exists|i: int| is_best_dir(ghost_r, ghost_c, pac_r, pac_c, dirs, i) {
        Some(dirs[choose|i: int| is_best_dir(ghost_r, ghost_c, pac_r, pac_c, dirs, i)])
    } else {
        None
    }
}

/// The distance after the step `d` can be computed in `i16`.
pub open spec fn distance_fits(ghost_r: int, ghost_c: int, pac_r: int, pac_c: int, d: (i16, i16)) -> bool {
    &&& i16::MIN <= ghost_r + d.0 <= i16::MAX
    &&& i16::MIN <= ghost_c + d.1 <= i16::MAX
    &&& distance_after(ghost_r, ghost_c, pac_r, pac_c, d) <= i16::MAX
}

/// The steps among which a ghost that is free to go on chooses: where more
/// than one step is open, all of them but the way back.
pub open spec fn free_options(level: Level, g: GhostAgent) -> Seq<(i16, i16)> {
    let dirs = open_dirs(level, g.row as int, g.col as int);
    if dirs.len() > 1 {
        without_reverse(dirs, g.dir_r as int, g.dir_c as int)
    } else {
        dirs
    }
}

/// The steps among which a ghost chooses when it chases: all open steps if
/// it faces a wall, else its options for going on.
pub open spec fn chase_options(level: Level, g: GhostAgent) -> Seq<(i16, i16)> {
    if is_blocked(level, g) {
        open_dirs(level, g.row as int, g.col as int)
    } else {
        free_options(level, g)
    }
}

/// The ghost faces a wall: the tile one step ahead, wrapped, is a wall.
pub open spec fn is_blocked(level: Level, g: GhostAgent) -> bool {
    tile_at_spec(level, g.row + g.dir_r, g.col + g.dir_c) == Tile::Wall
}

/// The ghost after its move, given how the two draws came out: `chase` says
/// whether it goes after the player, `pick` which open step it takes where
/// it turns at random.
///
/// A ghost that faces a wall turns and stays where it is: to the best step
/// among the open ones if it chases, else to the open step number `pick`;
/// with no open step it does nothing. A ghost that is free to go on takes
/// the best step among its options if it chases, keeps its heading if not,
/// and moves one cell that way.
pub open spec fn ghost_after(
    level: Level,
    g: GhostAgent,
    pac_r: int,
    pac_c: int,
    chase: bool,
    pick: int,
) -> GhostAgent {
    if is_blocked(level, g) {
        let dirs = open_dirs(level, g.row as int, g.col as int);
        if dirs.len() == 0 {
            g
        } else {
            let best = best_dir(g.row as int, g.col as int, pac_r, pac_c, dirs);
            let d = if chase && best is Some {
                best->0
            } else {
                dirs[pick]
            };
            GhostAgent { row: g.row, col: g.col, dir_r: d.0, dir_c: d.1 }
        }
    } else {
        let best = best_dir(g.row as int, g.col as int, pac_r, pac_c, free_options(level, g));
        let d = if chase && best is Some {
            best->0
        } else {
            (g.dir_r, g.dir_c)
        };
        GhostAgent {
            row: wrap_row(g.row + d.0) as i16,
            col: wrap_col(g.col + d.1) as i16,
            dir_r: d.0,
            dir_c: d.1,
        }
    }
}

/// While the player is powered up the ghosts sit out all but every fourth
/// tick. Says whether they sit out the tick that starts in `s`.
pub open spec fn ghosts_held(s: GameState) -> bool {
    s.powerd_up && s.slower_ghosts_counter < HOW_SLOW
}

/// What can be said of the two draws for a ghost with `options` open steps
/// at a chase probability of `percent`: where there is a step to take, the
/// pick is one of them, and the ghost never chases at 0 and always at 100.
pub open spec fn draw_allowed(percent: int, options: int, chase: bool, pick: int) -> bool {
    &&& 0 <= pick
    &&& options > 0 ==> {
        &&& pick < options
        &&& percent == 0 ==> !chase
        &&& percent == 100 ==> chase
    }
}

/// Ghost `i` of `post` is ghost `i` of `pre` after its move, for some
/// outcome of the draws.
pub open spec fn ghost_moved(pre: GameState, post: GameState, i: int) -> bool {
    exists|chase: bool, pick: int|
        draw_allowed(
            pre.chase_percent as int,
            open_dirs(pre.level, pre.ghosts[i].row as int, pre.ghosts[i].col as int).len() as int,
            chase,
            pick,
        ) && post.ghosts[i] == #[trigger] ghost_after(
            pre.level,
            pre.ghosts[i],
            pre.pac_row as int,
            pre.pac_col as int,
            chase,
            pick,
        )
}

/// `post` is `pre` after the ghosts' turn. Where they sit out, only the
/// counter of ticks goes up. Else the counter starts over if the player is
/// powered up, each ghost makes its move, and nothing else changes.
pub open spec fn ghosts_moved(pre: GameState, post: GameState) -> bool {
    if ghosts_held(pre) {
        post == (GameState { slower_ghosts_counter: (pre.slower_ghosts_counter + 1) as u8, ..pre })
    } else {
        &&& post == (GameState {
            ghosts: post.ghosts,
            slower_ghosts_counter: if pre.powerd_up {
                0u8
            } else {
                pre.slower_ghosts_counter
            },
            ..pre
        })
        &&& forall|i: int| 0 <= i < 4 ==> ghost_moved(pre, post, i)
    }
}

/// The steps open to a ghost on `(ghost_r, ghost_c)`: those of up, down,
/// left, right that do not lead into a wall, in this order.
pub fn collect_possible_ghost_dirs(ghost_r: i16, ghost_c: i16, level: &Level) -> (dirs: Vec<(i16, i16)>)
    requires
        i16::MIN < ghost_r < i16::MAX,
        i16::MIN < ghost_c < i16::MAX,
    ensures
        dirs@ == open_dirs(*level, ghost_r as int, ghost_c as int),
{
    let candidates: [(i16, i16); 4] = [(-1, 0), (1, 0), (0, -1), (0, 1)];
    let ghost pred = leads_off_wall(*level, ghost_r as int, ghost_c as int);
    let mut dirs: Vec<(i16, i16)> = Vec::new();
    let mut i: usize = 0;
    assert(candidates@ =~= candidate_dirs());
    assert(candidate_dirs().take(0).filter(pred) =~= Seq::<(i16, i16)>::empty()) by {
        reveal(Seq::filter);
    }
    while i < 4
        invariant
            i <= 4,
            i16::MIN < ghost_r < i16::MAX,
            i16::MIN < ghost_c < i16::MAX,
            candidates@ == candidate_dirs(),
            pred == leads_off_wall(*level, ghost_r as int, ghost_c as int),
            dirs@ == candidate_dirs().take(i as int).filter(pred),
        decreases 4 - i,
    {
        let (dr, dc) = candidates[i];
        let (wr, wc) = wrap_coords(ghost_r + dr, ghost_c + dc);
        proof {
            let before = candidate_dirs().take(i as int);
            assert(candidate_dirs().take(i + 1) =~= before.push((dr, dc)));
            before.lemma_filter_push((dr, dc), pred);
        }
        if level[wr as usize][wc as usize] != Tile::Wall {
            dirs.push((dr, dc));
        }
        i += 1;
    }
    assert(candidate_dirs().take(4) =~= candidate_dirs());
    dirs
}

/// The first of `possible_dirs` that leaves the ghost nearest to the player,
/// or nothing where there is no step to choose from.
pub fn pick_best_chase_dir(
    ghost_r: i16,
    ghost_c: i16,
    pac_r: i16,
    pac_c: i16,
    possible_dirs: &[(i16, i16)],
) -> (best: Option<(i16, i16)>)
    requires
        forall|i: int|
            0 <= i < possible_dirs@.len() ==> distance_fits(
                ghost_r as int,
                ghost_c as int,
                pac_r as int,
                pac_c as int,
                #[trigger] possible_dirs@[i],
            ),
    ensures
        best == best_dir(ghost_r as int, ghost_c as int, pac_r as int, pac_c as int, possible_dirs@),
{
    let mut best_dir_so_far: Option<(i16, i16)> = None;
    let mut best_dist: i16 = i16::MAX;
    let ghost mut best_at: int = -1;
    let ghost dirs = possible_dirs@;
    let mut k: usize = 0;
    while k < possible_dirs.len()
        invariant
            k <= possible_dirs@.len(),
            dirs == possible_dirs@,
            forall|i: int|
                0 <= i < dirs.len() ==> distance_fits(
                    ghost_r as int,
                    ghost_c as int,
                    pac_r as int,
                    pac_c as int,
                    #[trigger] dirs[i],
                ),
            best_dir_so_far is None <==> best_at == -1,
            best_dir_so_far is None ==> best_dist == i16::MAX,
            -1 <= best_at < k,
            best_at >= 0 ==> best_dir_so_far == Some(dirs[best_at]),
            best_at >= 0 ==> best_dist == distance_after(
                ghost_r as int,
                ghost_c as int,
                pac_r as int,
                pac_c as int,
                dirs[best_at],
            ),
            best_at >= 0 ==> best_dist < i16::MAX,
            forall|j: int|
                0 <= j < k ==> best_dist <= distance_after(
                    ghost_r as int,
                    ghost_c as int,
                    pac_r as int,
                    pac_c as int,
                    #[trigger] dirs[j],
                ),
            forall|j: int|
                0 <= j < best_at ==> best_dist < distance_after(
                    ghost_r as int,
                    ghost_c as int,
                    pac_r as int,
                    pac_c as int,
                    #[trigger] dirs[j],
                ),
        decreases possible_dirs@.len() - k,
    {
        let (dr, dc) = possible_dirs[k];
        assert(distance_fits(ghost_r as int, ghost_c as int, pac_r as int, pac_c as int, dirs[k as int]));
        let new_r = ghost_r + dr;
        let new_c = ghost_c + dc;
        let off_r = new_r - pac_r;
        let off_c = new_c - pac_c;
        let far_r = if off_r < 0 { -off_r } else { off_r };
        let far_c = if off_c < 0 { -off_c } else { off_c };
        let dist = far_r + far_c;
        if dist < best_dist {
            best_dist = dist;
            best_dir_so_far = Some((dr, dc));
            proof {
                best_at = k as int;
            }
        }
        k += 1;
    }
    proof {
        if best_at >= 0 {
            assert(is_best_dir(ghost_r as int, ghost_c as int, pac_r as int, pac_c as int, dirs, best_at));
            let chosen = choose|i: int| is_best_dir(ghost_r as int, ghost_c as int, pac_r as int, pac_c as int, dirs, i);
            assert(chosen == best_at) by {
                if chosen < best_at {
                    assert(dirs[chosen] == dirs[chosen]);
                } else if best_at < chosen {
                    assert(dirs[best_at] == dirs[best_at]);
                }
            }
        } else {
            assert forall|i: int| !is_best_dir(ghost_r as int, ghost_c as int, pac_r as int, pac_c as int, dirs, i) by {
                if 0 <= i < dirs.len() {
                    assert(dirs[i] == dirs[i]);
                }
            }
        }
    }
    best_dir_so_far
}

/// Brings a ghost back onto the grid, each axis by itself.
pub fn wrap_ghost_coords(g: &mut GhostAgent)
    ensures
        final(g).row == wrap_row(old(g).row as int),
        final(g).col == wrap_col(old(g).col as int),
        final(g).dir_r == old(g).dir_r,
        final(g).dir_c == old(g).dir_c,
{
    let (r, c) = wrap_coords(g.row, g.col);
    g.row = r;
    g.col = c;
}

/// Puts a ghost on its spawn cell, heading down.
pub fn reset_ghost(ghost: &mut GhostAgent, spawn_r: i16, spawn_c: i16)
    ensures
        *final(ghost) == GhostAgent::spawned(spawn_r, spawn_c),
{
    ghost.row = spawn_r;
    ghost.col = spawn_c;
    ghost.dir_r = 1;
    ghost.dir_c = 0;
}

/// `dirs` without the way back of a ghost heading `(dir_r, dir_c)`.
fn drop_reverse(dirs: &Vec<(i16, i16)>, dir_r: i16, dir_c: i16) -> (kept: Vec<(i16, i16)>)
    requires
        dir_r > i16::MIN,
        dir_c > i16::MIN,
    ensures
        kept@ == without_reverse(dirs@, dir_r as int, dir_c as int),
{
    let ghost pred = not_reverse_of(dir_r as int, dir_c as int);
    let mut kept: Vec<(i16, i16)> = Vec::new();
    let mut i: usize = 0;
    assert(dirs@.take(0).filter(pred) =~= Seq::<(i16, i16)>::empty()) by {
        reveal(Seq::filter);
    }
    while i < dirs.len()
        invariant
            i <= dirs.len(),
            dir_r > i16::MIN,
            dir_c > i16::MIN,
            pred == not_reverse_of(dir_r as int, dir_c as int),
            kept@ == dirs@.take(i as int).filter(pred),
        decreases dirs.len() - i,
    {
        let (dr, dc) = dirs[i];
        proof {
            let before = dirs@.take(i as int);
            assert(dirs@.take(i + 1) =~= before.push((dr, dc)));
            before.lemma_filter_push((dr, dc), pred);
        }
        if !(dr == -dir_r && dc == -dir_c) {
            kept.push((dr, dc));
        }
        i += 1;
    }
    assert(dirs@.take(dirs@.len() as int) =~= dirs@);
    kept
}

/// Turns a ghost that faces a wall.
fn turn_ghost(g: GhostAgent, dirs: &Vec<(i16, i16)>, pac_r: i16, pac_c: i16, chase: bool, pick: usize) -> (after:
    GhostAgent)
    requires
        g.wf(),
        in_grid(pac_r as int, pac_c as int),
        forall|i: int| 0 <= i < dirs@.len() ==> is_heading((#[trigger] dirs@[i]).0 as int, dirs@[i].1 as int),
        dirs@.len() > 0 ==> pick < dirs@.len(),
    ensures
        after.wf(),
        after == if dirs@.len() == 0 {
            g
        } else {
            let best = best_dir(g.row as int, g.col as int, pac_r as int, pac_c as int, dirs@);
            let d = if chase && best is Some {
                best->0
            } else {
                dirs@[pick as int]
            };
            GhostAgent { row: g.row, col: g.col, dir_r: d.0, dir_c: d.1 }
        },
{
    let mut g = g;
    if dirs.len() > 0 {
        proof {
            lemma_headings_fit(g.row as int, g.col as int, pac_r as int, pac_c as int, dirs@);
            lemma_best_dir_is_one_of(g.row as int, g.col as int, pac_r as int, pac_c as int, dirs@);
        }
        let best = if chase {
            pick_best_chase_dir(g.row, g.col, pac_r, pac_c, dirs.as_slice())
        } else {
            None
        };
        let (dr, dc) = match best {
            Some(d) => d,
            None => dirs[pick],
        };
        proof {
            if best is Some {
                let j = choose|j: int| 0 <= j < dirs@.len() && dirs@[j] == (dr, dc);
                assert(is_heading(dirs@[j].0 as int, dirs@[j].1 as int));
            } else {
                assert(is_heading(dirs@[pick as int].0 as int, dirs@[pick as int].1 as int));
            }
        }
        g.dir_r = dr;
        g.dir_c = dc;
    }
    g
}

/// Moves a ghost that is free to go on, given the steps it chooses among.
fn push_ghost(g: GhostAgent, options: &Vec<(i16, i16)>, pac_r: i16, pac_c: i16, chase: bool) -> (after: GhostAgent)
    requires
        g.wf(),
        in_grid(pac_r as int, pac_c as int),
        forall|i: int|
            0 <= i < options@.len() ==> is_heading((#[trigger] options@[i]).0 as int, options@[i].1 as int),
    ensures
        after.wf(),
        after == ({
            let best = best_dir(g.row as int, g.col as int, pac_r as int, pac_c as int, options@);
            let d = if chase && best is Some {
                best->0
            } else {
                (g.dir_r, g.dir_c)
            };
            GhostAgent {
                row: wrap_row(g.row + d.0) as i16,
                col: wrap_col(g.col + d.1) as i16,
                dir_r: d.0,
                dir_c: d.1,
            }
        }),
{
    let mut g = g;
    proof {
        lemma_headings_fit(g.row as int, g.col as int, pac_r as int, pac_c as int, options@);
        lemma_best_dir_is_one_of(g.row as int, g.col as int, pac_r as int, pac_c as int, options@);
    }
    if options.len() > 0 && chase {
        if let Some(chase_dir) = pick_best_chase_dir(g.row, g.col, pac_r, pac_c, options.as_slice()) {
            proof {
                let j = choose|j: int| 0 <= j < options@.len() && options@[j] == chase_dir;
                assert(is_heading(options@[j].0 as int, options@[j].1 as int));
            }
            g.dir_r = chase_dir.0;
            g.dir_c = chase_dir.1;
        }
    }
    g.row += g.dir_r;
    g.col += g.dir_c;
    wrap_ghost_coords(&mut g);
    g
}

/// Moves one ghost, given the steps open to it and how the draws came out.
fn steer_ghost(
    level: &Level,
    g: GhostAgent,
    dirs: Vec<(i16, i16)>,
    blocked: bool,
    pac_r: i16,
    pac_c: i16,
    chase: bool,
    pick: usize,
) -> (after: GhostAgent)
    requires
        g.wf(),
        in_grid(pac_r as int, pac_c as int),
        dirs@ == open_dirs(*level, g.row as int, g.col as int),
        blocked == is_blocked(*level, g),
        dirs@.len() > 0 ==> pick < dirs@.len(),
    ensures
        after == ghost_after(*level, g, pac_r as int, pac_c as int, chase, pick as int),
        after.wf(),
{
    proof {
        lemma_open_dirs_are_headings(*level, g.row as int, g.col as int);
    }
    if blocked {
        turn_ghost(g, &dirs, pac_r, pac_c, chase, pick)
    } else {
        let options = if dirs.len() > 1 {
            proof {
                lemma_without_reverse(dirs@, g.dir_r as int, g.dir_c as int);
            }
            drop_reverse(&dirs, g.dir_r, g.dir_c)
        } else {
            dirs
        };
        assert(options@ == free_options(*level, g));
        push_ghost(g, &options, pac_r, pac_c, chase)
    }
}

/// Moves one ghost, given how the two draws came out. `pick` counts among
/// the steps open to the ghost.
pub fn advance_ghost(level: &Level, g: GhostAgent, pac_r: i16, pac_c: i16, chase: bool, pick: usize) -> (after: GhostAgent)
    requires
        g.wf(),
        in_grid(pac_r as int, pac_c as int),
        open_dirs(*level, g.row as int, g.col as int).len() > 0 ==> pick < open_dirs(
            *level,
            g.row as int,
            g.col as int,
        ).len(),
    ensures
        after == ghost_after(*level, g, pac_r as int, pac_c as int, chase, pick as int),
        after.wf(),
{
    let dirs = collect_possible_ghost_dirs(g.row, g.col, level);
    let blocked = is_wall(level, g.row + g.dir_r, g.col + g.dir_c);
    steer_ghost(level, g, dirs, blocked, pac_r, pac_c, chase, pick)
}

/// The ghosts' turn, with the draws taken from `rng`.
pub fn move_ghosts_with<R: RandomSource>(state: &mut GameState, rng: &mut R)
    requires
        old(state).wf(),
    ensures
        final(state).wf(),
        ghosts_moved(*old(state), *final(state)),
{
    // The player is powered up: slow down the ghosts
    if state.powerd_up {
        state.slower_ghosts_counter += 1;
        if state.slower_ghosts_counter <= HOW_SLOW {
            return ;
        }
        state.slower_ghosts_counter = 0;
    }
    let chase_percent = state.chase_percent;
    let ghost counter = state.slower_ghosts_counter;
    let mut i: usize = 0;
    while i < 4
        invariant
            i <= 4,
            old(state).wf(),
            state.wf(),
            !ghosts_held(*old(state)),
            chase_percent == old(state).chase_percent,
            counter == if old(state).powerd_up {
                0u8
            } else {
                old(state).slower_ghosts_counter
            },
            *state == (GameState { ghosts: state.ghosts, slower_ghosts_counter: counter, ..*old(state) }),
            forall|j: int| 0 <= j < i ==> ghost_moved(*old(state), *state, j),
            forall|j: int| i <= j < 4 ==> state.ghosts[j] == old(state).ghosts[j],
        decreases 4 - i,
    {
        let g = state.ghosts[i];
        assert(g.wf());
        let dirs = collect_possible_ghost_dirs(g.row, g.col, &state.level);
        let blocked = is_wall(&state.level, g.row + g.dir_r, g.col + g.dir_c);
        let mut chase = false;
        let mut pick: usize = 0;
        if dirs.len() > 0 {
            chase = rng.chance(chase_percent);
            if blocked && !chase {
                pick = rng.index(dirs.len());
            }
        }
        let moved = steer_ghost(&state.level, g, dirs, blocked, state.pac_row, state.pac_col, chase, pick);
        let ghost before = *state;
        state.ghosts[i] = moved;
        proof {
            assert(draw_allowed(
                chase_percent as int,
                open_dirs(old(state).level, g.row as int, g.col as int).len() as int,
                chase,
                pick as int,
            ));
            assert(state.ghosts[i as int] == ghost_after(
                old(state).level,
                old(state).ghosts[i as int],
                old(state).pac_row as int,
                old(state).pac_col as int,
                chase,
                pick as int,
            ));
            assert(ghost_moved(*old(state), *state, i as int));
            assert forall|j: int| 0 <= j < i implies ghost_moved(*old(state), *state, j) by {
                assert(ghost_moved(*old(state), before, j));
                assert(state.ghosts[j] == before.ghosts[j]);
            }
        }
        i += 1;
    }
}

/// The ghosts' turn, with the draws taken from the thread's generator.
pub fn move_ghosts(state: &mut GameState)
    requires
        old(state).wf(),
    ensures
        final(state).wf(),
        ghosts_moved(*old(state), *final(state)),
{
    let mut rng = ThreadRandom::new();
    move_ghosts_with(state, &mut rng);
}

/// Every step open to a ghost is one of the four, so it is a heading.
pub proof fn lemma_open_dirs_are_headings(level: Level, row: int, col: int)
    ensures
        open_dirs(level, row, col).len() <= 4,
        forall|i: int|
            0 <= i < open_dirs(level, row, col).len() ==> is_heading(
                (#[trigger] open_dirs(level, row, col)[i]).0 as int,
                open_dirs(level, row, col)[i].1 as int,
            ),
{
    let dirs = open_dirs(level, row, col);
    let pred = leads_off_wall(level, row, col);
    candidate_dirs().lemma_filter_len(pred);
    assert forall|i: int| 0 <= i < dirs.len() implies is_heading(
        (#[trigger] dirs[i]).0 as int,
        dirs[i].1 as int,
    ) by {
        assert(dirs.contains(dirs[i]));
        candidate_dirs().lemma_filter_contains_rev(pred, dirs[i]);
        let j = choose|j: int| 0 <= j < candidate_dirs().len() && candidate_dirs()[j] == dirs[i];
        assert(candidate_dirs()[j] == dirs[i]);
    }
}

/// What is left of some headings without the way back is headings still,
/// each of them one of those given, and no more than were given.
pub proof fn lemma_without_reverse(dirs: Seq<(i16, i16)>, dir_r: int, dir_c: int)
    requires
        forall|i: int| 0 <= i < dirs.len() ==> is_heading((#[trigger] dirs[i]).0 as int, dirs[i].1 as int),
    ensures
        without_reverse(dirs, dir_r, dir_c).len() <= dirs.len(),
        forall|i: int|
            0 <= i < without_reverse(dirs, dir_r, dir_c).len() ==> is_heading(
                (#[trigger] without_reverse(dirs, dir_r, dir_c)[i]).0 as int,
                without_reverse(dirs, dir_r, dir_c)[i].1 as int,
            ),
        forall|i: int|
            0 <= i < without_reverse(dirs, dir_r, dir_c).len() ==> dirs.contains(
                #[trigger] without_reverse(dirs, dir_r, dir_c)[i],
            ),
{
    let kept = without_reverse(dirs, dir_r, dir_c);
    let pred = not_reverse_of(dir_r, dir_c);
    dirs.lemma_filter_len(pred);
    assert forall|i: int| 0 <= i < kept.len() implies is_heading((#[trigger] kept[i]).0 as int, kept[i].1 as int)
        && dirs.contains(kept[i]) by {
        assert(kept.contains(kept[i]));
        dirs.lemma_filter_contains_rev(pred, kept[i]);
        let j = choose|j: int| 0 <= j < dirs.len() && dirs[j] == kept[i];
        assert(dirs[j] == kept[i]);
    }
}

/// For a ghost and a player on the grid every heading leaves a distance
/// that `i16` holds with room to spare.
pub proof fn lemma_headings_fit(ghost_r: int, ghost_c: int, pac_r: int, pac_c: int, dirs: Seq<(i16, i16)>)
    requires
        in_grid(ghost_r, ghost_c),
        in_grid(pac_r, pac_c),
        forall|i: int| 0 <= i < dirs.len() ==> is_heading((#[trigger] dirs[i]).0 as int, dirs[i].1 as int),
    ensures
        forall|i: int| 0 <= i < dirs.len() ==> distance_fits(ghost_r, ghost_c, pac_r, pac_c, #[trigger] dirs[i]),
        forall|i: int|
            0 <= i < dirs.len() ==> distance_after(ghost_r, ghost_c, pac_r, pac_c, #[trigger] dirs[i]) < i16::MAX,
{
    assert forall|i: int| 0 <= i < dirs.len() implies distance_fits(
        ghost_r,
        ghost_c,
        pac_r,
        pac_c,
        #[trigger] dirs[i],
    ) && distance_after(ghost_r, ghost_c, pac_r, pac_c, dirs[i]) < i16::MAX by {
        assert(is_heading(dirs[i].0 as int, dirs[i].1 as int));
    }
}

/// The step to chase with is one of the steps given, and with none given
/// there is none.
pub proof fn lemma_best_dir_is_one_of(ghost_r: int, ghost_c: int, pac_r: int, pac_c: int, dirs: Seq<(i16, i16)>)
    ensures
        best_dir(ghost_r, ghost_c, pac_r, pac_c, dirs) matches Some(d) ==> dirs.contains(d),
        dirs.len() == 0 ==> best_dir(ghost_r, ghost_c, pac_r, pac_c, dirs) is None,
{
    if exists|i: int| is_best_dir(ghost_r, ghost_c, pac_r, pac_c, dirs, i) {
        let i = choose|i: int| is_best_dir(ghost_r, ghost_c, pac_r, pac_c, dirs, i);
        assert(dirs[i] == dirs[i]);
    }
}

/// Steps whose distances stay below the largest `i16` have a best one
/// among them.
pub proof fn lemma_best_dir_exists(ghost_r: int, ghost_c: int, pac_r: int, pac_c: int, dirs: Seq<(i16, i16)>, n: int)
    requires
        0 < n <= dirs.len(),
        forall|i: int|
            0 <= i < dirs.len() ==> distance_after(ghost_r, ghost_c, pac_r, pac_c, #[trigger] dirs[i]) < i16::MAX,
    ensures
        exists|i: int| is_best_dir(ghost_r, ghost_c, pac_r, pac_c, dirs.take(n), i),
        n == dirs.len() ==> best_dir(ghost_r, ghost_c, pac_r, pac_c, dirs) is Some,
    decreases n,
{
    let head = dirs.take(n);
    if n == 1 {
        assert(is_best_dir(ghost_r, ghost_c, pac_r, pac_c, head, 0));
    } else {
        lemma_best_dir_exists(ghost_r, ghost_c, pac_r, pac_c, dirs, n - 1);
        let shorter = dirs.take(n - 1);
        let b = choose|i: int| is_best_dir(ghost_r, ghost_c, pac_r, pac_c, shorter, i);
        assert(forall|j: int| 0 <= j < n - 1 ==> shorter[j] == head[j]);
        if distance_after(ghost_r, ghost_c, pac_r, pac_c, head[n - 1]) < distance_after(
            ghost_r,
            ghost_c,
            pac_r,
            pac_c,
            head[b],
        ) {
            assert forall|j: int| 0 <= j < n - 1 implies distance_after(ghost_r, ghost_c, pac_r, pac_c, head[n - 1])
                < distance_after(ghost_r, ghost_c, pac_r, pac_c, #[trigger] head[j]) by {
                assert(shorter[j] == head[j]);
            }
            assert(is_best_dir(ghost_r, ghost_c, pac_r, pac_c, head, n - 1));
        } else {
            assert forall|j: int| 0 <= j < n implies distance_after(ghost_r, ghost_c, pac_r, pac_c, head[b])
                <= distance_after(ghost_r, ghost_c, pac_r, pac_c, #[trigger] head[j]) by {
                if j < n - 1 {
                    assert(shorter[j] == head[j]);
                }
            }
            assert forall|j: int| 0 <= j < b implies distance_after(ghost_r, ghost_c, pac_r, pac_c, head[b])
                < distance_after(ghost_r, ghost_c, pac_r, pac_c, #[trigger] head[j]) by {
                assert(shorter[j] == head[j]);
            }
            assert(is_best_dir(ghost_r, ghost_c, pac_r, pac_c, head, b));
        }
    }
    if n == dirs.len() {
        assert(dirs.take(n) =~= dirs);
    }
}

/// A ghost that chases and has a step to choose takes the best one: it is
/// one of its choices, none of them leaves the ghost nearer to the player,
/// and each earlier one leaves it farther.
pub proof fn lemma_chase_takes_nearest(level: Level, g: GhostAgent, pac_r: int, pac_c: int, pick: int)
    requires
        g.wf(),
        in_grid(pac_r, pac_c),
        chase_options(level, g).len() > 0,
    ensures
        ({
            let after = ghost_after(level, g, pac_r, pac_c, true, pick);
            let taken = (after.dir_r, after.dir_c);
            &&& best_dir(g.row as int, g.col as int, pac_r, pac_c, chase_options(level, g)) == Some(taken)
            &&& chase_options(level, g).contains(taken)
            &&& forall|j: int|
                0 <= j < chase_options(level, g).len() ==> distance_after(
                    g.row as int,
                    g.col as int,
                    pac_r,
                    pac_c,
                    taken,
                ) <= distance_after(g.row as int, g.col as int, pac_r, pac_c, #[trigger] chase_options(level, g)[j])
        }),
{
    let options = chase_options(level, g);
    lemma_open_dirs_are_headings(level, g.row as int, g.col as int);
    lemma_without_reverse(open_dirs(level, g.row as int, g.col as int), g.dir_r as int, g.dir_c as int);
    lemma_headings_fit(g.row as int, g.col as int, pac_r, pac_c, options);
    lemma_best_dir_exists(g.row as int, g.col as int, pac_r, pac_c, options, options.len() as int);
    let i = choose|i: int| is_best_dir(g.row as int, g.col as int, pac_r, pac_c, options, i);
    assert(options[i] == options[i]);
}

/// A ghost that does not chase and is free to go on keeps its heading and
/// moves one cell that way; one that faces a wall turns to the open step
/// that was picked and stays where it is.
pub proof fn lemma_no_chase_keeps_heading(level: Level, g: GhostAgent, pac_r: int, pac_c: int, pick: int)
    requires
        g.wf(),
        0 <= pick,
        open_dirs(level, g.row as int, g.col as int).len() > 0 ==> pick < open_dirs(
            level,
            g.row as int,
            g.col as int,
        ).len(),
    ensures
        ({
            let after = ghost_after(level, g, pac_r, pac_c, false, pick);
            let dirs = open_dirs(level, g.row as int, g.col as int);
            &&& !is_blocked(level, g) ==> {
                &&& after.dir_r == g.dir_r && after.dir_c == g.dir_c
                &&& after.row == wrap_row(g.row + g.dir_r) && after.col == wrap_col(g.col + g.dir_c)
                &&& tile_at_spec(level, after.row as int, after.col as int) != Tile::Wall
            }
            &&& is_blocked(level, g) && dirs.len() > 0 ==> {
                &&& (after.dir_r, after.dir_c) == dirs[pick]
                &&& after.row == g.row && after.col == g.col
                &&& tile_at_spec(level, g.row + after.dir_r, g.col + after.dir_c) != Tile::Wall
            }
        }),
{
    let dirs = open_dirs(level, g.row as int, g.col as int);
    if is_blocked(level, g) && dirs.len() > 0 {
        candidate_dirs().lemma_filter_pred(leads_off_wall(level, g.row as int, g.col as int), pick);
    }
}

/// At a chase probability of a hundred a ghost that moves and has a step to
/// choose always takes the best one.
pub proof fn lemma_full_chase(pre: GameState, post: GameState, i: int)
    requires
        pre.wf(),
        0 <= i < 4,
        pre.chase_percent == 100,
        !ghosts_held(pre),
        ghosts_moved(pre, post),
        chase_options(pre.level, pre.ghosts[i]).len() > 0,
    ensures
        best_dir(
            pre.ghosts[i].row as int,
            pre.ghosts[i].col as int,
            pre.pac_row as int,
            pre.pac_col as int,
            chase_options(pre.level, pre.ghosts[i]),
        ) == Some((post.ghosts[i].dir_r, post.ghosts[i].dir_c)),
{
    let g = pre.ghosts[i];
    assert(g.wf());
    assert(ghost_moved(pre, post, i));
    let (chase, pick) = choose|chase: bool, pick: int|
        draw_allowed(
            pre.chase_percent as int,
            open_dirs(pre.level, g.row as int, g.col as int).len() as int,
            chase,
            pick,
        ) && post.ghosts[i] == #[trigger] ghost_after(
            pre.level,
            g,
            pre.pac_row as int,
            pre.pac_col as int,
            chase,
            pick,
        );
    open_dirs(pre.level, g.row as int, g.col as int).lemma_filter_len(not_reverse_of(g.dir_r as int, g.dir_c as int));
    assert(chase);
    lemma_chase_takes_nearest(pre.level, g, pre.pac_row as int, pre.pac_col as int, pick);
}

/// At a chase probability of zero a ghost that is free to go on keeps its
/// heading and moves one cell that way, onto a tile that is no wall; a ghost
/// that faces a wall stays and turns to one of its open steps, if it has any.
pub proof fn lemma_never_chase(pre: GameState, post: GameState, i: int)
    requires
        pre.wf(),
        0 <= i < 4,
        pre.chase_percent == 0,
        !ghosts_held(pre),
        ghosts_moved(pre, post),
    ensures
        ({
            let g = pre.ghosts[i];
            let after = post.ghosts[i];
            let dirs = open_dirs(pre.level, g.row as int, g.col as int);
            &&& !is_blocked(pre.level, g) ==> {
                &&& after.dir_r == g.dir_r && after.dir_c == g.dir_c
                &&& after.row == wrap_row(g.row + g.dir_r) && after.col == wrap_col(g.col + g.dir_c)
                &&& tile_at_spec(pre.level, after.row as int, after.col as int) != Tile::Wall
            }
            &&& is_blocked(pre.level, g) ==> {
                &&& after.row == g.row && after.col == g.col
                &&& dirs.len() > 0 ==> dirs.contains((after.dir_r, after.dir_c))
                &&& dirs.len() == 0 ==> after == g
            }
        }),
{
    let g = pre.ghosts[i];
    assert(g.wf());
    assert(ghost_moved(pre, post, i));
    let dirs = open_dirs(pre.level, g.row as int, g.col as int);
    let (chase, pick) = choose|chase: bool, pick: int|
        draw_allowed(pre.chase_percent as int, dirs.len() as int, chase, pick) && post.ghosts[i]
            == #[trigger] ghost_after(pre.level, g, pre.pac_row as int, pre.pac_col as int, chase, pick);
    if dirs.len() > 0 {
        assert(!chase);
        lemma_no_chase_keeps_heading(pre.level, g, pre.pac_row as int, pre.pac_col as int, pick);
        if is_blocked(pre.level, g) {
            assert(dirs[pick] == (post.ghosts[i].dir_r, post.ghosts[i].dir_c));
        }
    } else {
        lemma_best_dir_is_one_of(g.row as int, g.col as int, pre.pac_row as int, pre.pac_col as int, dirs);
    }
}

} // verus!
