//! The simulation engine: one `advance` call moves the world forward by one
//! tick. The spec functions below pin down exactly what a tick does —
//! projectile motion, player-hit resolution, shot/alien collision with
//! first-match tie-breaking, front-rank alien firing, wave progression, and
//! edge-triggered swarm movement — and `advance_post` strings them together
//! in the order the tick applies them.

use vstd::prelude::*;

use crate::world::{
    Alien, AlienDirection, AlienShot, GameState, Player, Shot,
    initial_wave, lemma_initial_wave_bounds, wf,
    ALIEN_FIRE_INTERVAL_NANOS, MAX_PLAYER_X, MAX_PLAYER_Y,
};

verus! {

// ------------------------------------------------------------------
// Projectile motion
// ------------------------------------------------------------------

/// One tick of player-shot motion: every shot rises one row, then shots at or
/// above the top margin (y <= 1) are discarded, keeping the original order.
pub open spec fn step_player_shots(s: Seq<Shot>) -> Seq<Shot>
    decreases s.len(),
{
    if s.len() == 0 {
        Seq::empty()
    } else {
        let moved = (Shot { x: s.last().x, y: (s.last().y - 1) as u16 });
        let rest = step_player_shots(s.drop_last());
        if moved.y > 1 {
            rest.push(moved)
        } else {
            rest
        }
    }
}

/// One tick of alien-shot motion: every shot falls one row, then shots below
/// the board (y >= MAX_PLAYER_Y + 2) are discarded, keeping the order.
pub open spec fn step_alien_shots(s: Seq<AlienShot>) -> Seq<AlienShot>
    decreases s.len(),
{
    if s.len() == 0 {
        Seq::empty()
    } else {
        let moved = (AlienShot { x: s.last().x, y: (s.last().y + 1) as u16 });
        let rest = step_alien_shots(s.drop_last());
        if moved.y < MAX_PLAYER_Y + 2 {
            rest.push(moved)
        } else {
            rest
        }
    }
}

// ------------------------------------------------------------------
// Alien shots versus the player
// ------------------------------------------------------------------

/// Whether an alien shot's cell lies inside the player's 3-wide, 2-tall box
/// (half-open on the right and bottom).
pub open spec fn hits_player(s: AlienShot, p: Player) -> bool {
    &&& p.x <= s.x < p.x + 3
    &&& p.y <= s.y < p.y + 2
}

/// Whether any shot of the batch overlaps the player this tick. All
/// simultaneous hits together cost exactly one life.
pub open spec fn any_hits_player(s: Seq<AlienShot>, p: Player) -> bool {
    exists|i: int| 0 <= i < s.len() && hits_player(#[trigger] s[i], p)
}

/// The alien shots that did not hit the player, in order: every overlapping
/// shot is consumed.
pub open spec fn surviving_alien_shots(s: Seq<AlienShot>, p: Player) -> Seq<AlienShot>
    decreases s.len(),
{
    if s.len() == 0 {
        Seq::empty()
    } else {
        let rest = surviving_alien_shots(s.drop_last(), p);
        if hits_player(s.last(), p) {
            rest
        } else {
            rest.push(s.last())
        }
    }
}

// ------------------------------------------------------------------
// Player shots versus aliens
// ------------------------------------------------------------------

/// Whether a player shot's cell lies inside an alien's 3-wide, 2-tall box.
pub open spec fn shot_hits_alien(s: Shot, a: Alien) -> bool {
    &&& a.x <= s.x < a.x + 3
    &&& a.y <= s.y < a.y + 2
}

/// Index of the first still-live alien at or after position `j` that the shot
/// overlaps, scanning the formation in order; the first match wins, not the
/// nearest.
pub open spec fn first_hit_from(s: Shot, aliens: Seq<Alien>, alive: Seq<bool>, j: int) -> Option<int>
    decreases aliens.len() - j,
{
    if j < 0 || j >= aliens.len() {
        None
    } else if alive[j] && shot_hits_alien(s, aliens[j]) {
        Some(j)
    } else {
        first_hit_from(s, aliens, alive, j + 1)
    }
}

/// The mark phase of shot/alien collision, processing shots from index `i`
/// on: each shot consumes at most the first live alien it overlaps, a dead
/// alien absorbs no further shots, and every kill adds one to the tally.
/// Returns the alien liveness mask, the shot keep mask, and the kill count.
pub open spec fn collide_from(
    shots: Seq<Shot>,
    aliens: Seq<Alien>,
    alive: Seq<bool>,
    keep: Seq<bool>,
    i: int,
    kills: nat,
) -> (Seq<bool>, Seq<bool>, nat)
    decreases shots.len() - i,
{
    if i < 0 || i >= shots.len() {
        (alive, keep, kills)
    } else {
        match first_hit_from(shots[i], aliens, alive, 0) {
            Some(j) => collide_from(
                shots,
                aliens,
                alive.update(j, false),
                keep.update(i, false),
                i + 1,
                kills + 1,
            ),
            None => collide_from(shots, aliens, alive, keep, i + 1, kills),
        }
    }
}

/// The full mark phase: all aliens start live, all shots start kept.
pub open spec fn collide(shots: Seq<Shot>, aliens: Seq<Alien>) -> (Seq<bool>, Seq<bool>, nat) {
    collide_from(
        shots,
        aliens,
        Seq::new(aliens.len(), |k: int| true),
        Seq::new(shots.len(), |k: int| true),
        0,
        0,
    )
}

/// The elements of `s` among the first `n` whose mask bit is set, in order:
/// the compact phase after marking.
pub open spec fn mask_filter_to<T>(s: Seq<T>, m: Seq<bool>, n: int) -> Seq<T>
    decreases n,
{
    if n <= 0 || n > s.len() || n > m.len() {
        Seq::empty()
    } else {
        let rest = mask_filter_to(s, m, n - 1);
        if m[n - 1] {
            rest.push(s[n - 1])
        } else {
            rest
        }
    }
}

/// The elements of `s` whose mask bit is set, in order.
pub open spec fn mask_filter<T>(s: Seq<T>, m: Seq<bool>) -> Seq<T> {
    mask_filter_to(s, m, s.len() as int)
}

// ------------------------------------------------------------------
// Alien firing
// ------------------------------------------------------------------

/// Column overlap: alien `a`'s anchor column lies within alien `b`'s 3-wide
/// footprint.
pub open spec fn covers(b: Alien, a: Alien) -> bool {
    b.x <= a.x < b.x + 3
}

/// A front-rank alien has no other alien strictly below it within an
/// overlapping column range; only front-rank aliens may fire.
pub open spec fn is_front_rank(aliens: Seq<Alien>, i: int) -> bool {
    forall|j: int| 0 <= j < aliens.len()
        ==> !(#[trigger] covers(aliens[j], aliens[i]) && aliens[i].y < aliens[j].y)
}

/// Indices, in formation order, of the front-rank aliens among the first `n`.
pub open spec fn front_rank_to(aliens: Seq<Alien>, n: int) -> Seq<usize>
    decreases n,
{
    if n <= 0 || n > aliens.len() {
        Seq::empty()
    } else {
        let rest = front_rank_to(aliens, n - 1);
        if is_front_rank(aliens, n - 1) {
            rest.push((n - 1) as usize)
        } else {
            rest
        }
    }
}

/// Indices of all front-rank aliens, in formation order.
pub open spec fn front_rank_indices(aliens: Seq<Alien>) -> Seq<usize> {
    front_rank_to(aliens, aliens.len() as int)
}

/// Whether the swarm fires this tick: the cooldown has elapsed, the swarm is
/// non-empty, and a front-rank candidate exists.
pub open spec fn fire_happens(aliens: Seq<Alien>, elapsed_nanos: u64) -> bool {
    &&& elapsed_nanos > ALIEN_FIRE_INTERVAL_NANOS
    &&& aliens.len() > 0
    &&& front_rank_indices(aliens).len() > 0
}

/// The candidate the swarm picks: the elapsed nanoseconds modulo the
/// candidate count select one front-rank alien — a deterministic jitter
/// source, not a true random draw.
pub open spec fn chosen_shooter(aliens: Seq<Alien>, elapsed_nanos: u64) -> Alien {
    let cands = front_rank_indices(aliens);
    aliens[cands[(elapsed_nanos as usize) as int % (cands.len() as int)] as int]
}

/// The shot an alien spawns: one cell below its box, at its center column.
pub open spec fn spawned_shot(a: Alien) -> AlienShot {
    AlienShot { x: (a.x + 1) as u16, y: (a.y + 2) as u16 }
}

// ------------------------------------------------------------------
// Swarm movement
// ------------------------------------------------------------------

/// Whether an alien stands at the horizontal boundary of the current
/// direction. The right-hand check triggers one cell before the wall proper:
/// that asymmetry is deliberate and affects visible stacking at the right
/// wall.
pub open spec fn wall_blocked(a: Alien, dir: AlienDirection) -> bool {
    match dir {
        AlienDirection::Left => a.x == 0,
        AlienDirection::Right => a.x >= MAX_PLAYER_X - 1,
    }
}

/// Whether any alien of the formation is at the boundary of direction `dir`.
pub open spec fn at_wall(aliens: Seq<Alien>, dir: AlienDirection) -> bool {
    exists|i: int| 0 <= i < aliens.len() && wall_blocked(#[trigger] aliens[i], dir)
}

/// The opposite horizontal direction.
pub open spec fn flip(dir: AlienDirection) -> AlienDirection {
    match dir {
        AlienDirection::Left => AlienDirection::Right,
        AlienDirection::Right => AlienDirection::Left,
    }
}

/// The formation after its first `upto` aliens dropped one row; the descent
/// stops mid-formation on the tick the swarm reaches the player's row.
pub open spec fn descend_upto(s: Seq<Alien>, upto: int) -> Seq<Alien> {
    Seq::new(s.len(), |k: int| if k < upto {
        (Alien { x: s[k].x, y: (s[k].y + 1) as u16 })
    } else {
        s[k]
    })
}

/// First alien whose box, after dropping one row, reaches the player's row —
/// the alien whose descent loses the game.
pub open spec fn first_invader_from(s: Seq<Alien>, player_y: u16, i: int) -> Option<int>
    decreases s.len() - i,
{
    if i < 0 || i >= s.len() {
        None
    } else if s[i].y + 2 >= player_y {
        Some(i)
    } else {
        first_invader_from(s, player_y, i + 1)
    }
}

/// The formation shifted one cell in direction `dir`.
pub open spec fn shifted(s: Seq<Alien>, dir: AlienDirection) -> Seq<Alien> {
    Seq::new(s.len(), |k: int| (Alien {
        x: (match dir {
            AlienDirection::Left => s[k].x - 1,
            AlienDirection::Right => s[k].x + 1,
        }) as u16,
        y: s[k].y,
    }))
}

// ------------------------------------------------------------------
// The whole tick
// ------------------------------------------------------------------

/// The post-collision formation of a tick: what is left of the swarm after
/// the moved player shots struck it.
pub open spec fn post_collision_aliens(pre: GameState) -> Seq<Alien> {
    mask_filter(pre.aliens@, collide(step_player_shots(pre.shots@), pre.aliens@).0)
}

/// Whether this tick ends the game by draining the last life: an alien shot
/// overlaps the player and no spare life is left.
pub open spec fn tick_lost_on_hit(pre: GameState) -> bool {
    any_hits_player(step_alien_shots(pre.alien_shots@), pre.player) && pre.lives == 1
}

/// What one `advance` call does, relating the pre-state, the post-state, the
/// nanoseconds elapsed since the swarm last fired, and whether it fired this
/// tick. A terminal world is frozen. Otherwise the tick runs: projectile
/// motion, player-hit resolution (stopping the tick when the last life is
/// lost), shot/alien collision, front-rank firing, wave respawn on an empty
/// swarm (which also ends the tick), and finally edge-triggered swarm
/// movement with its own loss condition.
pub open spec fn advance_post(pre: GameState, post: GameState, elapsed_nanos: u64, fired: bool) -> bool {
    if pre.game_over {
        &&& post.player == pre.player
        &&& post.shots@ == pre.shots@
        &&& post.aliens@ == pre.aliens@
        &&& post.alien_shots@ == pre.alien_shots@
        &&& post.alien_direction == pre.alien_direction
        &&& post.score == pre.score
        &&& post.lives == pre.lives
        &&& post.game_over
        &&& !fired
    } else {
        let shots1 = step_player_shots(pre.shots@);
        let ashots1 = step_alien_shots(pre.alien_shots@);
        let hit = any_hits_player(ashots1, pre.player);
        let ashots2 = surviving_alien_shots(ashots1, pre.player);
        let player1 = if hit {
            (Player { x: MAX_PLAYER_X / 2, y: pre.player.y })
        } else {
            pre.player
        };
        let lives1 = if hit {
            (pre.lives - 1) as u8
        } else {
            pre.lives
        };
        if hit && lives1 == 0 {
            &&& post.player == player1
            &&& post.shots@ == shots1
            &&& post.aliens@ == pre.aliens@
            &&& post.alien_shots@ == ashots2
            &&& post.alien_direction == pre.alien_direction
            &&& post.score == pre.score
            &&& post.lives == 0
            &&& post.game_over
            &&& !fired
        } else {
            let masks = collide(shots1, pre.aliens@);
            let aliens1 = mask_filter(pre.aliens@, masks.0);
            let shots2 = mask_filter(shots1, masks.1);
            let score1 = (pre.score + 10 * masks.2) as u32;
            let fires = fire_happens(aliens1, elapsed_nanos);
            let ashots3 = if fires {
                ashots2.push(spawned_shot(chosen_shooter(aliens1, elapsed_nanos)))
            } else {
                ashots2
            };
            &&& fired == fires
            &&& post.player == player1
            &&& post.lives == lives1
            &&& post.score == score1
            &&& if aliens1.len() == 0 {
                &&& post.aliens@ == initial_wave()
                &&& post.shots@ == Seq::<Shot>::empty()
                &&& post.alien_shots@ == Seq::<AlienShot>::empty()
                &&& post.alien_direction == pre.alien_direction
                &&& !post.game_over
            } else {
                &&& post.shots@ == shots2
                &&& post.alien_shots@ == ashots3
                &&& if at_wall(aliens1, pre.alien_direction) {
                    &&& post.alien_direction == flip(pre.alien_direction)
                    &&& (match first_invader_from(aliens1, player1.y, 0) {
                        Some(k) => post.aliens@ == descend_upto(aliens1, k + 1) && post.game_over,
                        None => post.aliens@ == descend_upto(aliens1, aliens1.len() as int)
                            && !post.game_over,
                    })
                } else {
                    &&& post.alien_direction == pre.alien_direction
                    &&& post.aliens@ == shifted(aliens1, pre.alien_direction)
                    &&& !post.game_over
                }
            }
        }
    }
}

// ------------------------------------------------------------------
// Facts about the pipeline
// ------------------------------------------------------------------

/// Moving the player shots never lengthens the batch, and every surviving
/// shot sits strictly below the top margin.
pub proof fn lemma_step_player_shots_bounds(s: Seq<Shot>)
    ensures
        step_player_shots(s).len() <= s.len(),
        forall|k: int| 0 <= k < step_player_shots(s).len()
            ==> (#[trigger] step_player_shots(s)[k]).y >= 2,
    decreases s.len(),
{
    if s.len() > 0 {
        lemma_step_player_shots_bounds(s.drop_last());
    }
}

/// Moving the alien shots never lengthens the batch, and every surviving
/// shot sits at or above the row just below the player.
pub proof fn lemma_step_alien_shots_bounds(s: Seq<AlienShot>)
    ensures
        step_alien_shots(s).len() <= s.len(),
        forall|k: int| 0 <= k < step_alien_shots(s).len()
            ==> (#[trigger] step_alien_shots(s)[k]).y <= MAX_PLAYER_Y + 1,
    decreases s.len(),
{
    if s.len() > 0 {
        lemma_step_alien_shots_bounds(s.drop_last());
    }
}

/// Consuming the overlapping alien shots keeps a subset: every survivor was
/// already in the batch.
pub proof fn lemma_surviving_alien_shots_sub(s: Seq<AlienShot>, p: Player)
    ensures
        surviving_alien_shots(s, p).len() <= s.len(),
        forall|k: int| 0 <= k < surviving_alien_shots(s, p).len()
            ==> s.contains(#[trigger] surviving_alien_shots(s, p)[k]),
    decreases s.len(),
{
    if s.len() > 0 {
        lemma_surviving_alien_shots_sub(s.drop_last(), p);
        let sur = surviving_alien_shots(s, p);
        let rest = surviving_alien_shots(s.drop_last(), p);
        assert forall|k: int| 0 <= k < sur.len() implies s.contains(#[trigger] sur[k]) by {
            if k < rest.len() {
                assert(sur[k] == surviving_alien_shots(s.drop_last(), p)[k]);
                let j = choose|j: int| 0 <= j < s.drop_last().len() && s.drop_last()[j] == rest[k];
                assert(s[j] == sur[k]);
            } else {
                assert(sur[k] == s[s.len() - 1]);
            }
        }
    }
}

/// Compacting by a mask keeps a subset: every kept element was already in
/// the sequence, and the result is never longer.
pub proof fn lemma_mask_filter_to_sub<T>(s: Seq<T>, m: Seq<bool>, n: int)
    ensures
        mask_filter_to(s, m, n).len() <= s.len(),
        n >= 0 ==> mask_filter_to(s, m, n).len() <= n,
        forall|k: int| 0 <= k < mask_filter_to(s, m, n).len()
            ==> s.contains(#[trigger] mask_filter_to(s, m, n)[k]),
    decreases n,
{
    if n <= 0 || n > s.len() || n > m.len() {
        assert(mask_filter_to(s, m, n).len() == 0);
    } else {
        lemma_mask_filter_to_sub(s, m, n - 1);
        let cur = mask_filter_to(s, m, n);
        let rest = mask_filter_to(s, m, n - 1);
        assert(rest.len() <= n - 1);
        assert(cur.len() <= n);
        assert forall|k: int| 0 <= k < cur.len() implies s.contains(#[trigger] cur[k]) by {
            if k < rest.len() {
                assert(cur[k] == mask_filter_to(s, m, n - 1)[k]);
            } else {
                assert(cur[k] == s[n - 1]);
            }
        }
    }
}

/// The same, for the full mask.
pub proof fn lemma_mask_filter_sub<T>(s: Seq<T>, m: Seq<bool>)
    ensures
        mask_filter(s, m).len() <= s.len(),
        forall|k: int| 0 <= k < mask_filter(s, m).len()
            ==> s.contains(#[trigger] mask_filter(s, m)[k]),
{
    lemma_mask_filter_to_sub(s, m, s.len() as int);
    assert forall|k: int| 0 <= k < mask_filter(s, m).len()
        implies s.contains(#[trigger] mask_filter(s, m)[k]) by {
        assert(mask_filter(s, m)[k] == mask_filter_to(s, m, s.len() as int)[k]);
    }
}

/// Every front-rank candidate index points into the formation, at an alien
/// that really is front-rank.
pub proof fn lemma_front_rank_to_range(aliens: Seq<Alien>, n: int)
    requires
        aliens.len() <= usize::MAX,
    ensures
        forall|k: int| 0 <= k < front_rank_to(aliens, n).len()
            ==> 0 <= (#[trigger] front_rank_to(aliens, n)[k]) < aliens.len()
                && is_front_rank(aliens, front_rank_to(aliens, n)[k] as int),
    decreases n,
{
    if !(n <= 0 || n > aliens.len()) {
        lemma_front_rank_to_range(aliens, n - 1);
        assert(((n - 1) as usize) as int == n - 1);
        let cur = front_rank_to(aliens, n);
        let rest = front_rank_to(aliens, n - 1);
        assert forall|k: int| 0 <= k < cur.len()
            implies 0 <= (#[trigger] cur[k]) < aliens.len()
                && is_front_rank(aliens, cur[k] as int) by {
            if k < rest.len() {
                assert(cur[k] == front_rank_to(aliens, n - 1)[k]);
            } else {
                assert(cur[k] == (n - 1) as usize);
            }
        }
    }
}

/// Each shot kills at most one alien, so the kill tally of the mark phase is
/// bounded by the number of shots still to process.
pub proof fn lemma_collide_from_kills(
    shots: Seq<Shot>,
    aliens: Seq<Alien>,
    alive: Seq<bool>,
    keep: Seq<bool>,
    i: int,
    kills: nat,
)
    requires
        0 <= i <= shots.len(),
    ensures
        collide_from(shots, aliens, alive, keep, i, kills).2 <= kills + shots.len() - i,
    decreases shots.len() - i,
{
    if i < shots.len() {
        match first_hit_from(shots[i], aliens, alive, 0) {
            Some(j) => {
                lemma_collide_from_kills(
                    shots,
                    aliens,
                    alive.update(j, false),
                    keep.update(i, false),
                    i + 1,
                    kills + 1,
                );
            }
            None => {
                lemma_collide_from_kills(shots, aliens, alive, keep, i + 1, kills);
            }
        }
    }
}

// ------------------------------------------------------------------
// Executable phases
// ------------------------------------------------------------------

/// Moves every player shot one row up and drops the ones that reach the top
/// margin.
fn step_player_shots_exec(shots: &Vec<Shot>) -> (out: Vec<Shot>)
    requires
        forall|i: int| 0 <= i < shots@.len() ==> (#[trigger] shots@[i]).y >= 1,
    ensures
        out@ == step_player_shots(shots@),
{
    let mut out: Vec<Shot> = Vec::new();
    let mut i: usize = 0;
    while i < shots.len()
        invariant
            i <= shots@.len(),
            forall|k: int| 0 <= k < shots@.len() ==> (#[trigger] shots@[k]).y >= 1,
            out@ == step_player_shots(shots@.take(i as int)),
        decreases shots@.len() - i,
    {
        let s = shots[i];
        let moved = Shot { x: s.x, y: s.y - 1 };
        if moved.y > 1 {
            out.push(moved);
        }
        proof {
            assert(shots@.take(i + 1).drop_last() =~= shots@.take(i as int));
            assert(shots@.take(i + 1).last() == shots@[i as int]);
        }
        i = i + 1;
    }
    proof {
        assert(shots@.take(shots@.len() as int) =~= shots@);
    }
    out
}

/// Moves every alien shot one row down and drops the ones that leave the
/// board.
fn step_alien_shots_exec(shots: &Vec<AlienShot>) -> (out: Vec<AlienShot>)
    requires
        forall|i: int| 0 <= i < shots@.len() ==> (#[trigger] shots@[i]).y + 1 <= u16::MAX,
    ensures
        out@ == step_alien_shots(shots@),
{
    let mut out: Vec<AlienShot> = Vec::new();
    let mut i: usize = 0;
    while i < shots.len()
        invariant
            i <= shots@.len(),
            forall|k: int| 0 <= k < shots@.len() ==> (#[trigger] shots@[k]).y + 1 <= u16::MAX,
            out@ == step_alien_shots(shots@.take(i as int)),
        decreases shots@.len() - i,
    {
        let s = shots[i];
        let moved = AlienShot { x: s.x, y: s.y + 1 };
        if moved.y < MAX_PLAYER_Y + 2 {
            out.push(moved);
        }
        proof {
            assert(shots@.take(i + 1).drop_last() =~= shots@.take(i as int));
            assert(shots@.take(i + 1).last() == shots@[i as int]);
        }
        i = i + 1;
    }
    proof {
        assert(shots@.take(shots@.len() as int) =~= shots@);
    }
    out
}

/// Tests every alien shot against the player's box, consuming the
/// overlapping ones; reports whether any overlapped.
fn strip_player_hits(shots: &Vec<AlienShot>, player: &Player) -> (r: (Vec<AlienShot>, bool))
    requires
        player.x + 3 <= u16::MAX,
        player.y + 2 <= u16::MAX,
    ensures
        r.0@ == surviving_alien_shots(shots@, *player),
        r.1 == any_hits_player(shots@, *player),
{
    let mut out: Vec<AlienShot> = Vec::new();
    let mut hit = false;
    let mut i: usize = 0;
    while i < shots.len()
        invariant
            i <= shots@.len(),
            player.x + 3 <= u16::MAX,
            player.y + 2 <= u16::MAX,
            out@ == surviving_alien_shots(shots@.take(i as int), *player),
            hit == any_hits_player(shots@.take(i as int), *player),
        decreases shots@.len() - i,
    {
        let s = shots[i];
        proof {
            assert(shots@.take(i + 1).drop_last() =~= shots@.take(i as int));
            assert(shots@.take(i + 1).last() == shots@[i as int]);
        }
        if s.x >= player.x && s.x < player.x + 3 && s.y >= player.y && s.y < player.y + 2 {
            hit = true;
            proof {
                assert(hits_player(shots@.take(i + 1)[i as int], *player));
            }
        } else {
            out.push(s);
            proof {
                if any_hits_player(shots@.take(i + 1), *player) {
                    let j = choose|j: int| 0 <= j < shots@.take(i + 1).len()
                        && hits_player(#[trigger] shots@.take(i + 1)[j], *player);
                    assert(j < i + 1);
                    assert(j != i);
                    assert(shots@.take(i as int)[j] == shots@.take(i + 1)[j]);
                    assert(any_hits_player(shots@.take(i as int), *player));
                }
                if any_hits_player(shots@.take(i as int), *player) {
                    let j = choose|j: int| 0 <= j < shots@.take(i as int).len()
                        && hits_player(#[trigger] shots@.take(i as int)[j], *player);
                    assert(shots@.take(i + 1)[j] == shots@.take(i as int)[j]);
                    assert(any_hits_player(shots@.take(i + 1), *player));
                }
            }
        }
        i = i + 1;
    }
    proof {
        assert(shots@.take(shots@.len() as int) =~= shots@);
    }
    (out, hit)
}

/// Builds a mask of `n` set bits: everything starts live, everything starts
/// kept.
fn true_mask(n: usize) -> (v: Vec<bool>)
    ensures
        v@ == (Seq::new(n as nat, |k: int| true)),
{
    let mut v: Vec<bool> = Vec::new();
    let mut k: usize = 0;
    while k < n
        invariant
            k <= n,
            v@.len() == k as int,
            forall|j: int| 0 <= j < k as int ==> (#[trigger] v@[j]) == true,
        decreases n - k,
    {
        v.push(true);
        k = k + 1;
    }
    proof {
        assert(v@ =~= Seq::new(n as nat, |k: int| true));
    }
    v
}

/// Scans the formation in order for the first still-live alien the shot
/// overlaps.
fn find_first_hit(s: Shot, aliens: &Vec<Alien>, alive: &Vec<bool>) -> (r: Option<usize>)
    requires
        alive@.len() == aliens@.len(),
        forall|j: int| 0 <= j < aliens@.len()
            ==> (#[trigger] aliens@[j]).x + 3 <= u16::MAX && aliens@[j].y + 2 <= u16::MAX,
    ensures
        (match r {
            Some(j) => j < aliens@.len() && first_hit_from(s, aliens@, alive@, 0) == Some(j as int),
            None => first_hit_from(s, aliens@, alive@, 0) is None,
        }),
{
    let mut j: usize = 0;
    while j < aliens.len()
        invariant
            j <= aliens@.len(),
            alive@.len() == aliens@.len(),
            forall|k: int| 0 <= k < aliens@.len()
                ==> (#[trigger] aliens@[k]).x + 3 <= u16::MAX && aliens@[k].y + 2 <= u16::MAX,
            first_hit_from(s, aliens@, alive@, 0) == first_hit_from(s, aliens@, alive@, j as int),
        decreases aliens@.len() - j,
    {
        if alive[j] {
            let a = aliens[j];
            if s.x >= a.x && s.x < a.x + 3 && s.y >= a.y && s.y < a.y + 2 {
                return Some(j);
            }
        }
        j = j + 1;
    }
    None
}

/// The mark phase: processes the shots in order, each consuming the first
/// live alien it overlaps. Returns the alien liveness mask, the shot keep
/// mask, and the kill count.
fn collide_exec(shots: &Vec<Shot>, aliens: &Vec<Alien>) -> (r: (Vec<bool>, Vec<bool>, usize))
    requires
        forall|j: int| 0 <= j < aliens@.len()
            ==> (#[trigger] aliens@[j]).x + 3 <= u16::MAX && aliens@[j].y + 2 <= u16::MAX,
    ensures
        r.0@ == collide(shots@, aliens@).0,
        r.1@ == collide(shots@, aliens@).1,
        r.2 as nat == collide(shots@, aliens@).2,
        r.0@.len() == aliens@.len(),
        r.1@.len() == shots@.len(),
{
    let mut alive = true_mask(aliens.len());
    let mut keep = true_mask(shots.len());
    let mut kills: usize = 0;
    let mut i: usize = 0;
    proof {
        assert(alive@ =~= Seq::new(aliens@.len(), |k: int| true));
        assert(keep@ =~= Seq::new(shots@.len(), |k: int| true));
    }
    while i < shots.len()
        invariant
            i <= shots@.len(),
            kills <= i,
            alive@.len() == aliens@.len(),
            keep@.len() == shots@.len(),
            forall|j: int| 0 <= j < aliens@.len()
                ==> (#[trigger] aliens@[j]).x + 3 <= u16::MAX && aliens@[j].y + 2 <= u16::MAX,
            collide(shots@, aliens@) == collide_from(
                shots@,
                aliens@,
                alive@,
                keep@,
                i as int,
                kills as nat,
            ),
        decreases shots@.len() - i,
    {
        let s = shots[i];
        let ghost alive_before = alive@;
        let ghost keep_before = keep@;
        match find_first_hit(s, aliens, &alive) {
            Some(j) => {
                alive.set(j, false);
                keep.set(i, false);
                kills = kills + 1;
                proof {
                    assert(alive@ == alive_before.update(j as int, false));
                    assert(keep@ == keep_before.update(i as int, false));
                    assert(collide_from(shots@, aliens@, alive_before, keep_before, i as int, (kills - 1) as nat)
                        == collide_from(shots@, aliens@, alive@, keep@, i + 1, kills as nat));
                }
            }
            None => {
                proof {
                    assert(collide_from(shots@, aliens@, alive_before, keep_before, i as int, kills as nat)
                        == collide_from(shots@, aliens@, alive@, keep@, i + 1, kills as nat));
                }
            }
        }
        i = i + 1;
    }
    (alive, keep, kills)
}

/// The compact phase: keeps the elements whose mask bit is set.
fn apply_mask<T: Copy>(s: &Vec<T>, m: &Vec<bool>) -> (out: Vec<T>)
    requires
        m@.len() == s@.len(),
    ensures
        out@ == mask_filter(s@, m@),
{
    let mut out: Vec<T> = Vec::new();
    let mut i: usize = 0;
    while i < s.len()
        invariant
            i <= s@.len(),
            m@.len() == s@.len(),
            out@ == mask_filter_to(s@, m@, i as int),
        decreases s@.len() - i,
    {
        if m[i] {
            out.push(s[i]);
        }
        i = i + 1;
    }
    out
}

/// Collects the indices of the front-rank aliens, in formation order.
fn front_rank_exec(aliens: &Vec<Alien>) -> (idxs: Vec<usize>)
    requires
        forall|j: int| 0 <= j < aliens@.len() ==> (#[trigger] aliens@[j]).x + 3 <= u16::MAX,
    ensures
        idxs@ == front_rank_indices(aliens@),
{
    let mut idxs: Vec<usize> = Vec::new();
    let mut i: usize = 0;
    while i < aliens.len()
        invariant
            i <= aliens@.len(),
            forall|j: int| 0 <= j < aliens@.len() ==> (#[trigger] aliens@[j]).x + 3 <= u16::MAX,
            idxs@ == front_rank_to(aliens@, i as int),
        decreases aliens@.len() - i,
    {
        let a = aliens[i];
        let mut front = true;
        let mut j: usize = 0;
        while j < aliens.len()
            invariant
                j <= aliens@.len(),
                i < aliens@.len(),
                a == aliens@[i as int],
                forall|k: int| 0 <= k < aliens@.len() ==> (#[trigger] aliens@[k]).x + 3 <= u16::MAX,
                front <==> (forall|k: int| 0 <= k < j as int
                    ==> !(#[trigger] covers(aliens@[k], aliens@[i as int])
                        && aliens@[i as int].y < aliens@[k].y)),
            decreases aliens@.len() - j,
        {
            let b = aliens[j];
            if a.x >= b.x && a.x < b.x + 3 && a.y < b.y {
                front = false;
                proof {
                    assert(covers(aliens@[j as int], aliens@[i as int])
                        && aliens@[i as int].y < aliens@[j as int].y);
                }
            }
            j = j + 1;
        }
        proof {
            assert(front == is_front_rank(aliens@, i as int));
        }
        if front {
            idxs.push(i);
        }
        i = i + 1;
    }
    idxs
}

// ------------------------------------------------------------------
// Facts about the invasion scan and bound transfer
// ------------------------------------------------------------------

/// When everything before `i` stays clear of the player's row and alien `i`
/// does not, the scan finds exactly alien `i`.
proof fn lemma_first_invader_seek(s: Seq<Alien>, player_y: u16, j: int, i: int)
    requires
        0 <= j <= i < s.len(),
        forall|k: int| j <= k < i ==> (#[trigger] s[k]).y + 2 < player_y,
        s[i].y + 2 >= player_y,
    ensures
        first_invader_from(s, player_y, j) == Some(i),
    decreases i - j,
{
    if j < i {
        lemma_first_invader_seek(s, player_y, j + 1, i);
    }
}

/// When every alien stays clear of the player's row, the scan finds nothing.
proof fn lemma_first_invader_none(s: Seq<Alien>, player_y: u16, j: int)
    requires
        0 <= j <= s.len(),
        forall|k: int| j <= k < s.len() ==> (#[trigger] s[k]).y + 2 < player_y,
    ensures
        first_invader_from(s, player_y, j) is None,
    decreases s.len() - j,
{
    if j < s.len() {
        lemma_first_invader_none(s, player_y, j + 1);
    }
}

/// Conversely, an empty scan means every alien stays clear of the player's
/// row.
proof fn lemma_first_invader_none_means(s: Seq<Alien>, player_y: u16, j: int)
    requires
        0 <= j <= s.len(),
        first_invader_from(s, player_y, j) is None,
    ensures
        forall|k: int| j <= k < s.len() ==> (#[trigger] s[k]).y + 2 < player_y,
    decreases s.len() - j,
{
    if j < s.len() {
        lemma_first_invader_none_means(s, player_y, j + 1);
    }
}

/// Transfers the coordinate bounds of a formation to any subset of it.
pub proof fn lemma_alien_bounds_transfer(sub: Seq<Alien>, sup: Seq<Alien>, xb: int, yb: int)
    requires
        forall|k: int| 0 <= k < sub.len() ==> sup.contains(#[trigger] sub[k]),
        forall|j: int| 0 <= j < sup.len() ==> (#[trigger] sup[j]).x < xb,
        forall|j: int| 0 <= j < sup.len() ==> (#[trigger] sup[j]).y + 2 <= yb,
    ensures
        forall|k: int| 0 <= k < sub.len() ==> (#[trigger] sub[k]).x < xb,
        forall|k: int| 0 <= k < sub.len() ==> (#[trigger] sub[k]).y + 2 <= yb,
{
    assert forall|k: int| 0 <= k < sub.len()
        implies (#[trigger] sub[k]).x < xb && sub[k].y + 2 <= yb by {
        let j = choose|j: int| 0 <= j < sup.len() && sup[j] == sub[k];
    }
}

/// Transfers a lower bound on the rows of a shot batch to any subset of it.
pub proof fn lemma_shot_bound_transfer(sub: Seq<Shot>, sup: Seq<Shot>, lb: int)
    requires
        forall|k: int| 0 <= k < sub.len() ==> sup.contains(#[trigger] sub[k]),
        forall|j: int| 0 <= j < sup.len() ==> (#[trigger] sup[j]).y >= lb,
    ensures
        forall|k: int| 0 <= k < sub.len() ==> (#[trigger] sub[k]).y >= lb,
{
    assert forall|k: int| 0 <= k < sub.len() implies (#[trigger] sub[k]).y >= lb by {
        let j = choose|j: int| 0 <= j < sup.len() && sup[j] == sub[k];
    }
}

/// Transfers an upper bound on the rows of an alien-shot batch to any subset
/// of it.
pub proof fn lemma_alien_shot_bound_transfer(sub: Seq<AlienShot>, sup: Seq<AlienShot>, ub: int)
    requires
        forall|k: int| 0 <= k < sub.len() ==> sup.contains(#[trigger] sub[k]),
        forall|j: int| 0 <= j < sup.len() ==> (#[trigger] sup[j]).y <= ub,
    ensures
        forall|k: int| 0 <= k < sub.len() ==> (#[trigger] sub[k]).y <= ub,
{
    assert forall|k: int| 0 <= k < sub.len() implies (#[trigger] sub[k]).y <= ub by {
        let j = choose|j: int| 0 <= j < sup.len() && sup[j] == sub[k];
    }
}

// ------------------------------------------------------------------
// Firing and movement, executable
// ------------------------------------------------------------------

/// The firing phase: when the cooldown has elapsed and a front-rank
/// candidate exists, the candidate picked by the elapsed-nanosecond jitter
/// fires one shot from just below its box. At most one shot spawns per tick.
fn maybe_fire(aliens: &Vec<Alien>, alien_shots: &mut Vec<AlienShot>, elapsed_nanos: u64) -> (fired: bool)
    requires
        forall|j: int| 0 <= j < aliens@.len()
            ==> (#[trigger] aliens@[j]).x + 3 <= u16::MAX && aliens@[j].y + 2 <= u16::MAX,
    ensures
        fired == fire_happens(aliens@, elapsed_nanos),
        final(alien_shots)@ == (if fire_happens(aliens@, elapsed_nanos) {
            old(alien_shots)@.push(spawned_shot(chosen_shooter(aliens@, elapsed_nanos)))
        } else {
            old(alien_shots)@
        }),
{
    if elapsed_nanos > ALIEN_FIRE_INTERVAL_NANOS && aliens.len() > 0 {
        let cands = front_rank_exec(aliens);
        if cands.len() > 0 {
            let pick = (elapsed_nanos as usize) % cands.len();
            let idx = cands[pick];
            proof {
                lemma_front_rank_to_range(aliens@, aliens@.len() as int);
                assert(cands@[pick as int] == front_rank_indices(aliens@)[pick as int]);
            }
            let shooter = aliens[idx];
            alien_shots.push(AlienShot { x: shooter.x + 1, y: shooter.y + 2 });
            return true;
        }
    }
    false
}

/// Moves the whole formation for one tick: when an alien stands at the
/// boundary of the current direction, the direction flips and the formation
/// descends one row, stopping the moment an alien's box reaches the player's
/// row; otherwise the formation shifts one cell sideways.
fn move_swarm(aliens: &mut Vec<Alien>, dir: &mut AlienDirection, player_y: u16) -> (invaded: bool)
    requires
        forall|i: int| 0 <= i < old(aliens)@.len() ==> (#[trigger] old(aliens)@[i]).x < MAX_PLAYER_X,
        forall|i: int| 0 <= i < old(aliens)@.len()
            ==> (#[trigger] old(aliens)@[i]).y + 2 <= MAX_PLAYER_Y,
    ensures
        (if at_wall(old(aliens)@, *old(dir)) {
            &&& *final(dir) == flip(*old(dir))
            &&& (match first_invader_from(old(aliens)@, player_y, 0) {
                Some(k) => final(aliens)@ == descend_upto(old(aliens)@, k + 1) && invaded,
                None => final(aliens)@ == descend_upto(old(aliens)@, old(aliens)@.len() as int)
                    && !invaded,
            })
        } else {
            &&& *final(dir) == *old(dir)
            &&& final(aliens)@ == shifted(old(aliens)@, *old(dir))
            &&& !invaded
        }),
{
    let d = *dir;
    let mut wall = false;
    let mut i: usize = 0;
    while i < aliens.len()
        invariant
            i <= aliens@.len(),
            aliens@ == old(aliens)@,
            d == *old(dir),
            wall <==> (exists|k: int| 0 <= k < i as int
                && wall_blocked(#[trigger] aliens@[k], d)),
        decreases aliens@.len() - i,
    {
        let a = aliens[i];
        let blocked = match d {
            AlienDirection::Left => a.x == 0,
            AlienDirection::Right => a.x >= MAX_PLAYER_X - 1,
        };
        if blocked {
            wall = true;
            proof {
                assert(wall_blocked(aliens@[i as int], d));
            }
        }
        i = i + 1;
    }
    proof {
        assert(wall == at_wall(aliens@, d));
    }
    if wall {
        *dir = match d {
            AlienDirection::Left => AlienDirection::Right,
            AlienDirection::Right => AlienDirection::Left,
        };
        let ghost orig = aliens@;
        let mut i: usize = 0;
        while i < aliens.len()
            invariant
                i <= orig.len(),
                aliens@.len() == orig.len(),
                orig == old(aliens)@,
                at_wall(orig, *old(dir)),
                *dir == flip(*old(dir)),
                forall|k: int| 0 <= k < orig.len() ==> (#[trigger] orig[k]).y + 2 <= MAX_PLAYER_Y,
                forall|k: int| i as int <= k < orig.len() ==> (#[trigger] aliens@[k]) == orig[k],
                forall|k: int| 0 <= k < i as int
                    ==> (#[trigger] aliens@[k]) == (Alien { x: orig[k].x, y: (orig[k].y + 1) as u16 }),
                forall|k: int| 0 <= k < i as int ==> (#[trigger] orig[k]).y + 2 < player_y,
            decreases orig.len() - i,
        {
            let a = aliens[i];
            let moved = Alien { x: a.x, y: a.y + 1 };
            aliens.set(i, moved);
            if moved.y + 1 >= player_y {
                proof {
                    lemma_first_invader_seek(orig, player_y, 0, i as int);
                    assert(aliens@ =~= descend_upto(orig, i as int + 1));
                }
                return true;
            }
            i = i + 1;
        }
        proof {
            lemma_first_invader_none(orig, player_y, 0);
            assert(aliens@ =~= descend_upto(orig, orig.len() as int));
        }
        false
    } else {
        let ghost orig = aliens@;
        let mut i: usize = 0;
        while i < aliens.len()
            invariant
                i <= orig.len(),
                aliens@.len() == orig.len(),
                d == *dir,
                !at_wall(orig, d),
                forall|k: int| 0 <= k < orig.len() ==> (#[trigger] orig[k]).x < MAX_PLAYER_X,
                forall|k: int| i as int <= k < orig.len() ==> (#[trigger] aliens@[k]) == orig[k],
                forall|k: int| 0 <= k < i as int ==> (#[trigger] aliens@[k]) == shifted(orig, d)[k],
            decreases orig.len() - i,
        {
            let a = aliens[i];
            proof {
                assert(!wall_blocked(orig[i as int], d));
            }
            let moved = match d {
                AlienDirection::Left => Alien { x: a.x - 1, y: a.y },
                AlienDirection::Right => Alien { x: a.x + 1, y: a.y },
            };
            aliens.set(i, moved);
            proof {
                assert(aliens@[i as int] == shifted(orig, d)[i as int]);
            }
            i = i + 1;
        }
        proof {
            assert(aliens@ =~= shifted(orig, d));
        }
        false
    }
}

// ------------------------------------------------------------------
// The tick itself
// ------------------------------------------------------------------

/// Advances the world by one tick. `elapsed_nanos` is the wall-clock time
/// since the swarm last fired; the caller resets its clock whenever the call
/// returns true. A terminal world is left untouched. The score headroom in
/// the precondition is what keeps the per-tick score gain (at most 10 points
/// per live shot) inside `u32`.
#[verifier::rlimit(60)]
pub fn advance(state: &mut GameState, elapsed_nanos: u64) -> (fired: bool)
    requires
        wf(*old(state)),
        old(state).score + 100 <= u32::MAX,
    ensures
        wf(*final(state)),
        advance_post(*old(state), *final(state), elapsed_nanos, fired),
{
    if state.game_over {
        return false;
    }

    let ghost pre = *old(state);
    let ghost shots1 = step_player_shots(pre.shots@);
    let ghost ashots1 = step_alien_shots(pre.alien_shots@);

    // 1. projectile motion
    let moved_shots = step_player_shots_exec(&state.shots);
    state.shots = moved_shots;
    let moved_alien_shots = step_alien_shots_exec(&state.alien_shots);
    state.alien_shots = moved_alien_shots;
    proof {
        lemma_step_player_shots_bounds(pre.shots@);
        lemma_step_alien_shots_bounds(pre.alien_shots@);
    }

    // 2. player-hit detection
    let (surviving, hit) = strip_player_hits(&state.alien_shots, &state.player);
    state.alien_shots = surviving;
    proof {
        lemma_surviving_alien_shots_sub(ashots1, pre.player);
        lemma_alien_shot_bound_transfer(
            surviving_alien_shots(ashots1, pre.player),
            ashots1,
            (MAX_PLAYER_Y + 1) as int,
        );
    }
    if hit {
        state.lives = state.lives - 1;
        state.player = Player { x: MAX_PLAYER_X / 2, y: state.player.y };
        if state.lives == 0 {
            state.game_over = true;
            return false;
        }
    }

    // 3. player shots versus aliens
    let ghost masks = collide(shots1, pre.aliens@);
    let ghost aliens1 = mask_filter(pre.aliens@, masks.0);
    let ghost shots2 = mask_filter(shots1, masks.1);
    let (alive, keep, kills) = collide_exec(&state.shots, &state.aliens);
    let remaining_aliens = apply_mask(&state.aliens, &alive);
    state.aliens = remaining_aliens;
    let remaining_shots = apply_mask(&state.shots, &keep);
    state.shots = remaining_shots;
    proof {
        lemma_collide_from_kills(
            shots1,
            pre.aliens@,
            Seq::new(pre.aliens@.len(), |k: int| true),
            Seq::new(shots1.len(), |k: int| true),
            0,
            0,
        );
        assert(kills <= shots1.len());
        lemma_mask_filter_sub(pre.aliens@, masks.0);
        lemma_mask_filter_sub(shots1, masks.1);
        lemma_alien_bounds_transfer(aliens1, pre.aliens@, MAX_PLAYER_X as int, MAX_PLAYER_Y as int);
        lemma_shot_bound_transfer(shots2, shots1, 2);
    }
    state.score = state.score + 10 * (kills as u32);

    // 4. alien firing
    let fired = maybe_fire(&state.aliens, &mut state.alien_shots, elapsed_nanos);
    proof {
        if fired {
            lemma_front_rank_to_range(aliens1, aliens1.len() as int);
            let cands = front_rank_indices(aliens1);
            let pick = (elapsed_nanos as usize) as int % (cands.len() as int);
            assert(0 <= pick < cands.len());
            assert(0 <= cands[pick] < aliens1.len());
            assert(chosen_shooter(aliens1, elapsed_nanos) == aliens1[cands[pick] as int]);
        }
    }

    // 5. level progression
    if state.aliens.len() == 0 {
        crate::world::spawn_new_wave(state);
        proof {
            lemma_initial_wave_bounds();
        }
        return fired;
    }

    // 6. swarm movement
    let invaded = move_swarm(&mut state.aliens, &mut state.alien_direction, state.player.y);
    if invaded {
        state.game_over = true;
    }
    proof {
        if at_wall(aliens1, pre.alien_direction) {
            match first_invader_from(aliens1, pre.player.y, 0) {
                Some(k) => {}
                None => {
                    lemma_first_invader_none_means(aliens1, pre.player.y, 0);
                }
            }
        } else {
            assert forall|k: int| 0 <= k < state.aliens@.len()
                implies (#[trigger] state.aliens@[k]).x < MAX_PLAYER_X by {
                assert(state.aliens@[k] == shifted(aliens1, pre.alien_direction)[k]);
                assert(!wall_blocked(aliens1[k], pre.alien_direction));
            }
        }
    }
    fired
}

} // verus!
