//! The session from tick to tick: the order of a tick, the power-up
//! running out, bonus lives, and the end of the session.

use crate::game_state::{is_heading, GameState, SessionStatus, POWER_UP_MILLIS};
use crate::encounters::{
    capture_points, check_collision, collision_fits, collision_settled, collisions, lemma_captures_add,
    lemma_captures_grow, lemma_collisions_bound, lemma_streak_below_points, streak_after,
};
use crate::ghosts::{ghosts_moved, move_ghosts_with};
use crate::player::{move_pacman, pacman_moved};
use crate::random::RandomSource;
use vstd::prelude::*;

verus! {

/// The power-up has run out by the time `now`.
pub open spec fn power_expired(s: GameState, now: u64) -> bool {
    s.power_end_time matches Some(end) && now >= end
}

/// The state after the clock was looked at: a power-up that has run out is
/// over, and the streak of captures with it.
pub open spec fn after_expiry(s: GameState, now: u64) -> GameState {
    if power_expired(s, now) {
        GameState { powerd_up: false, ghosts_in_a_row: 0, power_end_time: None, ..s }
    } else {
        s
    }
}

/// The state after the score was looked at: a score above the threshold
/// earns a life and doubles the threshold.
pub open spec fn after_bonus(s: GameState) -> GameState {
    if s.score > s.free_life {
        GameState { lives: (s.lives + 1) as i32, free_life: (s.free_life * 2) as i32, ..s }
    } else {
        s
    }
}

/// A bonus life can be counted and the threshold doubled within `i32`.
pub open spec fn bonus_fits(s: GameState) -> bool {
    s.score > s.free_life ==> s.lives < i32::MAX && i32::MIN <= s.free_life * 2 <= i32::MAX
}

/// The session has come to its end: no life is left, or no pellet.
pub open spec fn has_ended(s: GameState) -> bool {
    s.lives < 0 || s.food_left <= 0
}

/// Whatever a tick may do stays within the integers: there is room for one
/// power-up and eight captures on the score, for two lost lives and one won,
/// for one pellet less, for doubling the threshold, and for five seconds on
/// the clock.
pub open spec fn tick_fits(s: GameState, now: u64) -> bool {
    &&& now <= u64::MAX - POWER_UP_MILLIS
    &&& s.food_left > i32::MIN
    &&& i32::MIN + 2 <= s.lives < i32::MAX
    &&& s.score + 5 + capture_points(
        if s.ghosts_in_a_row > 1 {
            s.ghosts_in_a_row as int
        } else {
            1
        },
        8,
    ) <= i32::MAX
    &&& i32::MIN <= s.free_life * 2 <= i32::MAX
}

/// Eight captures in a row are worth 5100 times the streak they start at.
pub proof fn lemma_eight_captures(streak: int)
    ensures
        capture_points(streak, 8) == 5100 * streak,
{
    reveal_with_fuel(capture_points, 9);
    reveal_with_fuel(streak_after, 9);
}

/// Whether a tick at the time `now` stays within the integers.
pub fn can_tick(state: &GameState, now: u64) -> (fits: bool)
    ensures
        fits == tick_fits(*state, now),
{
    let streak: i64 = if state.ghosts_in_a_row > 1 {
        state.ghosts_in_a_row as i64
    } else {
        1
    };
    proof {
        lemma_eight_captures(streak as int);
    }
    now <= u64::MAX - POWER_UP_MILLIS && state.food_left > i32::MIN && state.lives >= i32::MIN + 2 && state.lives
        < i32::MAX && state.score as i64 + 5 + 5100 * streak <= i32::MAX as i64 && state.free_life >= i32::MIN / 2
        && state.free_life <= i32::MAX / 2
}

/// `post` is `pre` one tick later, at the time `now`.
///
/// A session that is over stays as it is. In a running one the player
/// moves, encounters are settled, the ghosts take their turn, encounters
/// are settled again, the clock and the score are looked at, and the
/// session is over if it has then come to its end.
pub open spec fn ticked(pre: GameState, post: GameState, now: u64) -> bool {
    if pre.status is Over {
        post == pre
    } else {
        exists|s1: GameState, s2: GameState, s3: GameState, s4: GameState|
            {
                &&& #[trigger] pacman_moved(pre, s1, now)
                &&& #[trigger] collision_settled(s1, s2)
                &&& #[trigger] ghosts_moved(s2, s3)
                &&& #[trigger] collision_settled(s3, s4)
                &&& post == (GameState {
                    status: if has_ended(after_bonus(after_expiry(s4, now))) {
                        SessionStatus::Over
                    } else {
                        SessionStatus::Active
                    },
                    ..after_bonus(after_expiry(s4, now))
                })
            }
    }
}

/// Turns the player towards `(dir_r, dir_c)`; the next move goes that way.
pub fn set_direction(state: &mut GameState, dir_r: i16, dir_c: i16)
    requires
        old(state).wf(),
        is_heading(dir_r as int, dir_c as int),
    ensures
        final(state).wf(),
        *final(state) == (GameState { pac_dir_r: dir_r, pac_dir_c: dir_c, ..*old(state) }),
{
    state.pac_dir_r = dir_r;
    state.pac_dir_c = dir_c;
}

/// Ends a power-up that has run out by the time `now`.
pub fn expire_power_up(state: &mut GameState, now: u64)
    ensures
        *final(state) == after_expiry(*old(state), now),
        old(state).wf() ==> final(state).wf(),
{
    if let Some(end) = state.power_end_time {
        if now >= end {
            state.powerd_up = false;
            state.ghosts_in_a_row = 0;
            state.power_end_time = None;
        }
    }
}

/// Awards a life for a score above the threshold, and doubles the threshold.
pub fn award_free_life(state: &mut GameState)
    requires
        bonus_fits(*old(state)),
    ensures
        *final(state) == after_bonus(*old(state)),
        old(state).wf() ==> final(state).wf(),
{
    if state.score > state.free_life {
        state.lives += 1;
        state.free_life *= 2;
    }
}

/// One tick of the session at the time `now`, in milliseconds, with the
/// ghosts' draws taken from `rng`. Says whether the session goes on.
pub fn tick<R: RandomSource>(state: &mut GameState, now: u64, rng: &mut R) -> (status: SessionStatus)
    requires
        old(state).wf(),
        old(state).status is Active ==> tick_fits(*old(state), now),
    ensures
        final(state).wf(),
        status == final(state).status,
        ticked(*old(state), *final(state), now),
        final(state).status is Over <==> old(state).status is Over || has_ended(*final(state)),
{
    if state.status == SessionStatus::Over {
        return SessionStatus::Over;
    }
    let ghost streak: int = if state.ghosts_in_a_row > 1 {
        state.ghosts_in_a_row as int
    } else {
        1
    };
    proof {
        lemma_captures_grow(streak, 0, 8);
    }
    move_pacman(state, now);
    let ghost s1 = *state;
    let ghost k1 = collisions(s1, 4);
    proof {
        lemma_collisions_bound(s1, 4);
        lemma_captures_grow(streak, k1, 8);
        assert(s1.powerd_up ==> s1.ghosts_in_a_row == streak);
        assert(s1.score <= old(state).score + 5);
        assert(s1.lives == old(state).lives);
        assert(capture_points(streak, k1) <= capture_points(streak, 8));
        assert(old(state).score + 5 + capture_points(streak, 8) <= i32::MAX);
        if s1.powerd_up {
            assert(s1.score + capture_points(s1.ghosts_in_a_row as int, k1) <= i32::MAX);
        } else {
            assert(s1.lives > i32::MIN);
        }
    }
    check_collision(state);
    let ghost s2 = *state;
    move_ghosts_with(state, rng);
    let ghost s3 = *state;
    let ghost k3 = collisions(s3, 4);
    proof {
        lemma_collisions_bound(s3, 4);
        assert(s3.score == s2.score && s3.ghosts_in_a_row == s2.ghosts_in_a_row && s3.powerd_up == s2.powerd_up
            && s3.lives == s2.lives);
        if s3.powerd_up {
            if s1.powerd_up && k1 > 0 {
                lemma_captures_add(streak, k1, k3);
                lemma_captures_grow(streak, k1 + k3, 8);
                lemma_captures_grow(streak, 0, k1);
                lemma_streak_below_points(streak, k1);
                assert(s2.score == s1.score + capture_points(streak, k1));
                assert(s2.ghosts_in_a_row == streak_after(streak, k1));
            } else {
                lemma_captures_grow(streak, k3, 8);
                assert(s2.score == s1.score);
                assert(s2.ghosts_in_a_row == streak);
            }
            assert(s3.score + capture_points(s3.ghosts_in_a_row as int, k3) <= i32::MAX);
        } else {
            assert(s3.lives >= s1.lives - 1);
        }
        assert(collision_fits(s3));
    }
    check_collision(state);
    let ghost s4 = *state;
    expire_power_up(state, now);
    award_free_life(state);
    if state.lives < 0 || state.food_left <= 0 {
        state.status = SessionStatus::Over;
    }
    proof {
        assert(pacman_moved(*old(state), s1, now));
        assert(collision_settled(s1, s2));
        assert(ghosts_moved(s2, s3));
        assert(collision_settled(s3, s4));
    }
    state.status
}


/// A tick ends the session when no life or no pellet is left after it, and
/// only then; and once the session is over, another tick changes nothing,
/// the score least of all.
pub proof fn lemma_over_is_final(before: GameState, ended: GameState, after: GameState, now: u64, later: u64)
    requires
        before.status is Active,
        ticked(before, ended, now),
        ticked(ended, after, later),
    ensures
        ended.status is Over <==> ended.lives < 0 || ended.food_left <= 0,
        ended.status is Over ==> after == ended,
{
}


} // verus!
