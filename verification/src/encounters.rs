//! Encounters of the player with the ghosts: captures while the player is
//! powered up, lost lives while it is not.

use crate::game_state::{GameState, GhostAgent};
use crate::ghosts::reset_ghost;
use vstd::prelude::*;

verus! {

/// Ghost `i` stands on the player's cell.
pub open spec fn collides(s: GameState, i: int) -> bool {
    s.ghosts[i].row == s.pac_row && s.ghosts[i].col == s.pac_col
}

/// How many of the first `n` ghosts stand on the player's cell.
pub open spec fn collisions(s: GameState, n: int) -> nat
    decreases n,
{
    if n <= 0 {
        0
    } else {
        collisions(s, n - 1) + if collides(s, n - 1) {
            1nat
        } else {
            0nat
        }
    }
}

/// The streak after `k` more captures: each capture doubles it.
pub open spec fn streak_after(streak: int, k: nat) -> int
    decreases k,
{
    if k == 0 {
        streak
    } else {
        2 * streak_after(streak, (k - 1) as nat)
    }
}

/// The points for `k` captures in a row that start at `streak`: each
/// capture is worth twenty times the streak it finds.
pub open spec fn capture_points(streak: int, k: nat) -> int
    decreases k,
{
    if k == 0 {
        0
    } else {
        capture_points(streak, (k - 1) as nat) + 20 * streak_after(streak, (k - 1) as nat)
    }
}

/// Two to the power of `k`.
pub open spec fn two_to(k: nat) -> int
    decreases k,
{
    if k == 0 {
        1
    } else {
        2 * two_to((k - 1) as nat)
    }
}

/// Settling the encounters runs neither the score over the largest `i32`
/// nor the lives under the least.
pub open spec fn collision_fits(s: GameState) -> bool {
    if s.powerd_up {
        s.score + capture_points(s.ghosts_in_a_row as int, collisions(s, 4)) <= i32::MAX
    } else {
        collisions(s, 4) > 0 ==> s.lives > i32::MIN
    }
}

/// `post` is `pre` after a lost life: the player is back on its spawn cell
/// and heads left, each ghost is back on its own and heads down, and no
/// power-up is under way.
pub open spec fn round_reset(pre: GameState, post: GameState) -> bool {
    &&& post == (GameState {
        pac_row: pre.pac_spawn.0,
        pac_col: pre.pac_spawn.1,
        pac_dir_r: 0,
        pac_dir_c: -1i16,
        ghosts: post.ghosts,
        powerd_up: false,
        ghosts_in_a_row: 0,
        power_end_time: None,
        ..pre
    })
    &&& forall|i: int|
        0 <= i < 4 ==> #[trigger] post.ghosts[i] == GhostAgent::spawned(
            pre.ghost_spawns[i].0,
            pre.ghost_spawns[i].1,
        )
}

/// `post` is `pre` after its encounters are settled.
///
/// With no ghost on the player's cell nothing changes. A player that is
/// powered up captures each ghost on its cell: the ghost goes back to its
/// spawn cell, and the captures score and lengthen the streak one after
/// the other. A player that is not loses a life; if none is left that is
/// all, else the round starts over.
pub open spec fn collision_settled(pre: GameState, post: GameState) -> bool {
    let k = collisions(pre, 4);
    if k == 0 {
        post == pre
    } else if pre.powerd_up {
        &&& post == (GameState {
            ghosts: post.ghosts,
            score: (pre.score + capture_points(pre.ghosts_in_a_row as int, k)) as i32,
            ghosts_in_a_row: streak_after(pre.ghosts_in_a_row as int, k) as i32,
            ..pre
        })
        &&& forall|i: int|
            0 <= i < 4 ==> #[trigger] post.ghosts[i] == if collides(pre, i) {
                GhostAgent::spawned(pre.ghost_spawns[i].0, pre.ghost_spawns[i].1)
            } else {
                pre.ghosts[i]
            }
    } else if pre.lives - 1 < 0 {
        post == (GameState { lives: (pre.lives - 1) as i32, ..pre })
    } else {
        round_reset(GameState { lives: (pre.lives - 1) as i32, ..pre }, post)
    }
}

/// Starts the round over: the player and the ghosts go back to their spawn
/// cells and the power-up ends.
pub fn reset_pacman(state: &mut GameState)
    ensures
        round_reset(*old(state), *final(state)),
        old(state).wf() ==> final(state).wf(),
{
    let (pr, pc) = state.pac_spawn;
    state.pac_row = pr;
    state.pac_col = pc;
    state.pac_dir_r = 0;
    state.pac_dir_c = -1;
    let mut i: usize = 0;
    while i < 4
        invariant
            i <= 4,
            *state == (GameState {
                pac_row: old(state).pac_spawn.0,
                pac_col: old(state).pac_spawn.1,
                pac_dir_r: 0,
                pac_dir_c: -1i16,
                ghosts: state.ghosts,
                ..*old(state)
            }),
            forall|j: int|
                0 <= j < i ==> #[trigger] state.ghosts[j] == GhostAgent::spawned(
                    old(state).ghost_spawns[j].0,
                    old(state).ghost_spawns[j].1,
                ),
        decreases 4 - i,
    {
        let (spawn_r, spawn_c) = state.ghost_spawns[i];
        reset_ghost(&mut state.ghosts[i], spawn_r, spawn_c);
        i += 1;
    }
    state.powerd_up = false;
    state.ghosts_in_a_row = 0;
    state.power_end_time = None;
}

/// Finds the ghosts that stand on the player's cell, in their order.
fn collided_ghosts(state: &GameState) -> (found: Vec<usize>)
    ensures
        found@.len() == collisions(*state, 4),
        forall|j: int| 0 <= j < found@.len() ==> 0 <= #[trigger] found@[j] < 4 && collides(*state, found@[j] as int),
        forall|i: int| 0 <= i < 4 && collides(*state, i) ==> found@.contains(i as usize),
        forall|j: int, k: int| 0 <= j < k < found@.len() ==> found@[j] < found@[k],
{
    let mut found: Vec<usize> = Vec::new();
    let mut i: usize = 0;
    while i < 4
        invariant
            i <= 4,
            found@.len() == collisions(*state, i as int),
            forall|j: int|
                0 <= j < found@.len() ==> 0 <= #[trigger] found@[j] < i && collides(*state, found@[j] as int),
            forall|n: int| 0 <= n < i && collides(*state, n) ==> found@.contains(n as usize),
            forall|j: int, k: int| 0 <= j < k < found@.len() ==> found@[j] < found@[k],
        decreases 4 - i,
    {
        let g = state.ghosts[i];
        if g.row == state.pac_row && g.col == state.pac_col {
            let ghost before = found@;
            found.push(i);
            proof {
                assert(found@[before.len() as int] == i);
                assert forall|n: int| 0 <= n < i + 1 && collides(*state, n) implies found@.contains(n as usize) by {
                    if n < i {
                        let j = choose|j: int| 0 <= j < before.len() && before[j] == n as usize;
                        assert(found@[j] == n as usize);
                    }
                }
            }
        }
        i += 1;
    }
    found
}

/// Settles the encounters of the player with the ghosts.
pub fn check_collision(state: &mut GameState)
    requires
        old(state).wf(),
        collision_fits(*old(state)),
    ensures
        final(state).wf(),
        collision_settled(*old(state), *final(state)),
{
    let collided = collided_ghosts(state);
    if collided.len() == 0 {
        return ;
    }
    if state.powerd_up {
        let ghost streak = state.ghosts_in_a_row as int;
        let ghost total = collided@.len();
        let mut n: usize = 0;
        while n < collided.len()
            invariant
                n <= collided@.len(),
                total == collided@.len(),
                total == collisions(*old(state), 4),
                streak == old(state).ghosts_in_a_row,
                streak >= 1,
                old(state).wf(),
                old(state).score + capture_points(streak, total) <= i32::MAX,
                forall|j: int|
                    0 <= j < collided@.len() ==> 0 <= #[trigger] collided@[j] < 4 && collides(
                        *old(state),
                        collided@[j] as int,
                    ),
                forall|j: int, k: int| 0 <= j < k < collided@.len() ==> collided@[j] < collided@[k],
                *state == (GameState {
                    ghosts: state.ghosts,
                    score: (old(state).score + capture_points(streak, n as nat)) as i32,
                    ghosts_in_a_row: streak_after(streak, n as nat) as i32,
                    ..*old(state)
                }),
                state.score == old(state).score + capture_points(streak, n as nat),
                state.ghosts_in_a_row == streak_after(streak, n as nat),
                forall|i: int|
                    0 <= i < 4 ==> #[trigger] state.ghosts[i] == if exists|j: int|
                        0 <= j < n && collided@[j] == i {
                        GhostAgent::spawned(old(state).ghost_spawns[i].0, old(state).ghost_spawns[i].1)
                    } else {
                        old(state).ghosts[i]
                    },
            decreases collided@.len() - n,
        {
            let i = collided[n];
            proof {
                lemma_captures_grow(streak, (n + 1) as nat, total);
                lemma_captures_grow(streak, 0, n as nat);
                lemma_streak_below_points(streak, (n + 1) as nat);
            }
            state.score += state.ghosts_in_a_row * 20;
            state.ghosts_in_a_row *= 2;
            let (spawn_r, spawn_c) = state.ghost_spawns[i];
            let ghost before = *state;
            reset_ghost(&mut state.ghosts[i], spawn_r, spawn_c);
            proof {
                assert forall|m: int| 0 <= m < 4 implies #[trigger] state.ghosts[m] == if exists|j: int|
                    0 <= j < n + 1 && collided@[j] == m {
                    GhostAgent::spawned(old(state).ghost_spawns[m].0, old(state).ghost_spawns[m].1)
                } else {
                    old(state).ghosts[m]
                } by {
                    if m == i {
                        assert(collided@[n as int] == m);
                    } else {
                        assert(state.ghosts[m] == before.ghosts[m]);
                        if exists|j: int| 0 <= j < n + 1 && collided@[j] == m {
                            let j = choose|j: int| 0 <= j < n + 1 && collided@[j] == m;
                            assert(j < n);
                        }
                    }
                }
            }
            n += 1;
        }
        proof {
            assert forall|i: int| 0 <= i < 4 implies #[trigger] state.ghosts[i] == if collides(*old(state), i) {
                GhostAgent::spawned(old(state).ghost_spawns[i].0, old(state).ghost_spawns[i].1)
            } else {
                old(state).ghosts[i]
            } by {
                if collides(*old(state), i) {
                    assert(collided@.contains(i as usize));
                    let j = choose|j: int| 0 <= j < collided@.len() && collided@[j] == i as usize;
                    assert(0 <= j < n && collided@[j] == i);
                }
            }
            lemma_captures_grow(streak, 0, total);
        }
    } else {
        state.lives -= 1;
        if state.lives < 0 {
            return ;
        }
        reset_pacman(state);
    }
}

/// No more ghosts stand on the player's cell than there are.
pub proof fn lemma_collisions_bound(s: GameState, n: int)
    requires
        0 <= n,
    ensures
        collisions(s, n) <= n,
    decreases n,
{
    if n > 0 {
        lemma_collisions_bound(s, n - 1);
    }
}

/// With a streak that is not negative, more captures are worth more points
/// and leave no shorter streak behind.
pub proof fn lemma_captures_grow(streak: int, j: nat, k: nat)
    requires
        streak >= 0,
        j <= k,
    ensures
        0 <= streak_after(streak, j) <= streak_after(streak, k),
        0 <= capture_points(streak, j) <= capture_points(streak, k),
        streak <= streak_after(streak, j),
    decreases k,
{
    if j < k {
        lemma_captures_grow(streak, j, (k - 1) as nat);
        lemma_captures_grow(streak, 0, (k - 1) as nat);
    } else if k > 0 {
        lemma_captures_grow(streak, (j - 1) as nat, (k - 1) as nat);
    }
}

/// After a capture the streak is no more than the points made, so a score
/// that fits leaves a streak that fits.
pub proof fn lemma_streak_below_points(streak: int, k: nat)
    requires
        streak >= 0,
        k >= 1,
    ensures
        streak_after(streak, k) <= capture_points(streak, k),
    decreases k,
{
    lemma_captures_grow(streak, 0, (k - 1) as nat);
    if k > 1 {
        lemma_streak_below_points(streak, (k - 1) as nat);
    } else {
        assert(streak_after(streak, 0) == streak);
        assert(capture_points(streak, 0) == 0);
    }
}

/// Captures made in two goes count as if made in one.
pub proof fn lemma_captures_add(streak: int, j: nat, k: nat)
    ensures
        streak_after(streak, j + k) == streak_after(streak_after(streak, j), k),
        capture_points(streak, j + k) == capture_points(streak, j) + capture_points(streak_after(streak, j), k),
    decreases k,
{
    if k > 0 {
        lemma_captures_add(streak, j, (k - 1) as nat);
        assert((j + k - 1) as nat == j + (k - 1) as nat);
    }
}

/// `k` captures multiply the streak by two to the `k`, and together they are
/// worth twenty times the streak times one less than two to the `k`.
pub proof fn lemma_captures_in_a_row(streak: int, k: nat)
    ensures
        streak_after(streak, k) == streak * two_to(k),
        capture_points(streak, k) == 20 * streak * (two_to(k) - 1),
    decreases k,
{
    if k > 0 {
        lemma_captures_in_a_row(streak, (k - 1) as nat);
        let p = two_to((k - 1) as nat);
        assert(2 * (streak * p) == streak * (2 * p)) by (nonlinear_arith);
        assert(20 * streak * (p - 1) + 20 * (streak * p) == 20 * streak * (2 * p - 1)) by (nonlinear_arith);
    } else {
        assert(streak * 1 == streak);
        assert(20 * streak * 0 == 0);
    }
}

/// A player that is powered up and meets `k` ghosts at once sends each of
/// them back to its spawn cell, scores twenty times the streak times one
/// less than two to the `k`, and multiplies the streak by two to the `k`.
pub proof fn lemma_captures_settled(pre: GameState, post: GameState)
    requires
        pre.wf(),
        pre.powerd_up,
        collision_fits(pre),
        collision_settled(pre, post),
    ensures
        post.score == pre.score + 20 * pre.ghosts_in_a_row * (two_to(collisions(pre, 4)) - 1),
        post.ghosts_in_a_row == pre.ghosts_in_a_row * two_to(collisions(pre, 4)),
        forall|i: int|
            0 <= i < 4 && collides(pre, i) ==> #[trigger] post.ghosts[i] == GhostAgent::spawned(
                pre.ghost_spawns[i].0,
                pre.ghost_spawns[i].1,
            ),
        forall|i: int| 0 <= i < 4 && !collides(pre, i) ==> #[trigger] post.ghosts[i] == pre.ghosts[i],
        post.lives == pre.lives,
        post.powerd_up,
{
    let k = collisions(pre, 4);
    lemma_captures_in_a_row(pre.ghosts_in_a_row as int, k);
    lemma_captures_grow(pre.ghosts_in_a_row as int, 0, k);
    if k > 0 {
        lemma_streak_below_points(pre.ghosts_in_a_row as int, k);
    } else {
        assert(pre.ghosts_in_a_row * 1 == pre.ghosts_in_a_row) by (nonlinear_arith);
        assert(20 * pre.ghosts_in_a_row * 0 == 0) by (nonlinear_arith);
        assert(forall|i: int| 0 <= i < 4 ==> !collides(pre, i)) by {
            reveal_with_fuel(collisions, 5);
        }
    }
}

/// A player that is not powered up and meets a ghost loses a life. With a
/// life left the round starts over: everyone is back on their spawn cells
/// and no power-up is under way. With none left nobody is moved.
pub proof fn lemma_life_lost(pre: GameState, post: GameState)
    requires
        pre.wf(),
        !pre.powerd_up,
        collisions(pre, 4) > 0,
        collision_fits(pre),
        collision_settled(pre, post),
    ensures
        post.lives == pre.lives - 1,
        post.score == pre.score,
        post.lives >= 0 ==> {
            &&& (post.pac_row, post.pac_col) == pre.pac_spawn
            &&& forall|i: int|
                0 <= i < 4 ==> ((#[trigger] post.ghosts[i]).row, post.ghosts[i].col) == pre.ghost_spawns[i]
            &&& !post.powerd_up
            &&& post.ghosts_in_a_row == 0
            &&& post.power_end_time is None
        },
        post.lives < 0 ==> post == (GameState { lives: post.lives, ..pre }),
{
}


} // verus!
