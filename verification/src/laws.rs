//! Laws of the simulation: properties that hold of every tick, stated over
//! the same spec pipeline that `advance` is proved against.

use vstd::prelude::*;

use crate::world::{
    GameState, wf, initial_wave, lemma_initial_wave_bounds, MAX_PLAYER_X, MAX_PLAYER_Y, MAX_SHOTS,
};
use crate::engine::{
    advance_post, any_hits_player, chosen_shooter, collide, fire_happens, front_rank_indices,
    is_front_rank, lemma_alien_bounds_transfer, lemma_alien_shot_bound_transfer,
    lemma_front_rank_to_range, lemma_mask_filter_sub, lemma_shot_bound_transfer,
    lemma_step_alien_shots_bounds, lemma_step_player_shots_bounds,
    lemma_surviving_alien_shots_sub, mask_filter, post_collision_aliens, spawned_shot,
    step_alien_shots, step_player_shots, surviving_alien_shots, tick_lost_on_hit,
};

verus! {

/// After a tick, no player shot sits at or above the top margin and no alien
/// shot sits below the board: off-board projectiles never survive `advance`.
pub proof fn lemma_shots_stay_on_board(pre: GameState, post: GameState, elapsed_nanos: u64, fired: bool)
    requires
        wf(pre),
        advance_post(pre, post, elapsed_nanos, fired),
    ensures
        forall|i: int| 0 <= i < post.shots@.len() ==> (#[trigger] post.shots@[i]).y > 1,
        forall|i: int| 0 <= i < post.alien_shots@.len()
            ==> (#[trigger] post.alien_shots@[i]).y < MAX_PLAYER_Y + 2,
{
    let shots1 = step_player_shots(pre.shots@);
    let ashots1 = step_alien_shots(pre.alien_shots@);
    lemma_step_player_shots_bounds(pre.shots@);
    lemma_step_alien_shots_bounds(pre.alien_shots@);
    lemma_surviving_alien_shots_sub(ashots1, pre.player);
    if !pre.game_over {
        let masks = collide(shots1, pre.aliens@);
        lemma_mask_filter_sub(shots1, masks.1);
        lemma_mask_filter_sub(pre.aliens@, masks.0);
        let aliens1 = mask_filter(pre.aliens@, masks.0);
        if fired {
            lemma_front_rank_to_range(aliens1, aliens1.len() as int);
        }
        lemma_shot_bound_transfer(mask_filter(shots1, masks.1), shots1, 2);
        lemma_alien_shot_bound_transfer(
            surviving_alien_shots(ashots1, pre.player),
            ashots1,
            (MAX_PLAYER_Y + 1) as int,
        );
        lemma_alien_bounds_transfer(aliens1, pre.aliens@, MAX_PLAYER_X as int, MAX_PLAYER_Y as int);
    }
}

/// The live player-shot count never exceeds the cap: it holds before a tick
/// (by well-formedness) and still holds after.
pub proof fn lemma_shot_cap_preserved(pre: GameState, post: GameState, elapsed_nanos: u64, fired: bool)
    requires
        wf(pre),
        advance_post(pre, post, elapsed_nanos, fired),
    ensures
        pre.shots@.len() <= MAX_SHOTS,
        post.shots@.len() <= MAX_SHOTS,
{
    let shots1 = step_player_shots(pre.shots@);
    lemma_step_player_shots_bounds(pre.shots@);
    if !pre.game_over {
        let masks = collide(shots1, pre.aliens@);
        lemma_mask_filter_sub(shots1, masks.1);
    }
}

/// However many alien shots overlap the player on one tick, together they
/// cost exactly one life.
pub proof fn lemma_hit_costs_one_life(pre: GameState, post: GameState, elapsed_nanos: u64, fired: bool)
    requires
        wf(pre),
        !pre.game_over,
        advance_post(pre, post, elapsed_nanos, fired),
        any_hits_player(step_alien_shots(pre.alien_shots@), pre.player),
    ensures
        post.lives == pre.lives - 1,
{
}

/// Killing the last alien of a wave respawns a full formation on the same
/// tick and clears every shot, the player's and the swarm's alike.
pub proof fn lemma_cleared_wave_respawns(pre: GameState, post: GameState, elapsed_nanos: u64, fired: bool)
    requires
        wf(pre),
        !pre.game_over,
        !tick_lost_on_hit(pre),
        post_collision_aliens(pre).len() == 0,
        advance_post(pre, post, elapsed_nanos, fired),
    ensures
        post.aliens@ == initial_wave(),
        post.aliens@.len() > 0,
        post.shots@.len() == 0,
        post.alien_shots@.len() == 0,
{
    lemma_initial_wave_bounds();
}

/// A tick that fires never picks a shielded alien: the shot that appears
/// comes from a front-rank member of the post-collision formation — one
/// with no other alien strictly below it in an overlapping column range.
pub proof fn lemma_fired_shot_is_front_rank(pre: GameState, post: GameState, elapsed_nanos: u64)
    requires
        wf(pre),
        advance_post(pre, post, elapsed_nanos, true),
    ensures
        post.alien_shots@.len() > 0,
        exists|i: int| 0 <= i < post_collision_aliens(pre).len()
            && is_front_rank(post_collision_aliens(pre), i)
            && post.alien_shots@.last() == spawned_shot(post_collision_aliens(pre)[i]),
{
    let aliens1 = post_collision_aliens(pre);
    lemma_mask_filter_sub(pre.aliens@, collide(step_player_shots(pre.shots@), pre.aliens@).0);
    assert(aliens1.len() <= pre.aliens@.len());
    lemma_front_rank_to_range(aliens1, aliens1.len() as int);
    let cands = front_rank_indices(aliens1);
    let pick = (elapsed_nanos as usize) as int % (cands.len() as int);
    assert(fire_happens(aliens1, elapsed_nanos));
    assert(0 <= pick < cands.len());
    let i = cands[pick] as int;
    assert(0 <= i < aliens1.len());
    assert(is_front_rank(aliens1, i));
    assert(chosen_shooter(aliens1, elapsed_nanos) == aliens1[i]);
    assert(post.alien_shots@.last() == spawned_shot(aliens1[i]));
}

} // verus!
