//! One-tick scenarios of the simulation engine.

use invaders::engine::advance;
use invaders::world::{
    Alien, AlienDirection, AlienShot, GameState, Player, Shot, INITIAL_LIVES, MAX_PLAYER_X,
    MAX_PLAYER_Y,
};

const COOLDOWN_OVER: u64 = 800_000_000;

fn quiet_state() -> GameState {
    GameState {
        player: Player { x: MAX_PLAYER_X / 2, y: MAX_PLAYER_Y },
        shots: Vec::new(),
        aliens: vec![Alien { x: 10, y: 2 }],
        alien_shots: Vec::new(),
        alien_direction: AlienDirection::Right,
        score: 0,
        lives: INITIAL_LIVES,
        game_over: false,
    }
}

#[test]
fn player_shot_rises_one_row() {
    let mut s = quiet_state();
    s.shots = vec![Shot { x: 5, y: 10 }];
    advance(&mut s, 0);
    assert_eq!(s.shots, vec![Shot { x: 5, y: 9 }]);
}

#[test]
fn player_shot_expires_at_top_margin() {
    let mut s = quiet_state();
    s.shots = vec![Shot { x: 5, y: 2 }];
    advance(&mut s, 0);
    assert!(s.shots.is_empty());
}

#[test]
fn alien_shot_falls_one_row() {
    let mut s = quiet_state();
    s.alien_shots = vec![AlienShot { x: 5, y: 10 }];
    advance(&mut s, 0);
    assert_eq!(s.alien_shots, vec![AlienShot { x: 5, y: 11 }]);
}

#[test]
fn alien_shot_expires_below_board() {
    let mut s = quiet_state();
    s.alien_shots = vec![AlienShot { x: 5, y: 21 }];
    advance(&mut s, 0);
    assert!(s.alien_shots.is_empty());
}

#[test]
fn hit_costs_a_life_and_recenters_the_player() {
    let mut s = quiet_state();
    s.player.x = 5;
    // lands on (6, 20), inside the player's box; the other shot misses
    s.alien_shots = vec![AlienShot { x: 6, y: 19 }, AlienShot { x: 30, y: 5 }];
    advance(&mut s, 0);
    assert_eq!(s.lives, 2);
    assert_eq!(s.player, Player { x: 19, y: 20 });
    assert_eq!(s.alien_shots, vec![AlienShot { x: 30, y: 6 }]);
    assert!(!s.game_over);
}

#[test]
fn simultaneous_hits_cost_exactly_one_life() {
    let mut s = quiet_state();
    s.player.x = 5;
    s.alien_shots = vec![AlienShot { x: 5, y: 19 }, AlienShot { x: 7, y: 19 }];
    advance(&mut s, 0);
    assert_eq!(s.lives, 2);
    assert!(s.alien_shots.is_empty());
}

#[test]
fn last_life_hit_ends_the_game_before_the_swarm_moves() {
    let mut s = quiet_state();
    s.player.x = 5;
    s.lives = 1;
    s.alien_shots = vec![AlienShot { x: 6, y: 19 }];
    // at the boundary: were the movement step to run, the swarm would react
    s.aliens = vec![Alien { x: 37, y: 2 }];
    let fired = advance(&mut s, COOLDOWN_OVER);
    assert!(!fired);
    assert_eq!(s.lives, 0);
    assert!(s.game_over);
    assert_eq!(s.aliens, vec![Alien { x: 37, y: 2 }]);
    assert_eq!(s.alien_direction, AlienDirection::Right);
    assert!(s.alien_shots.is_empty());
}

#[test]
fn shot_over_alien_scores_and_consumes_both() {
    let mut s = quiet_state();
    s.player.x = 18;
    s.aliens = vec![Alien { x: 2, y: 2 }, Alien { x: 30, y: 2 }];
    // rises to (3, 2), inside the box (2,2)-(4,3)
    s.shots = vec![Shot { x: 3, y: 3 }];
    advance(&mut s, 0);
    assert_eq!(s.score, 10);
    assert!(s.shots.is_empty());
    // the survivor then stepped one cell right
    assert_eq!(s.aliens, vec![Alien { x: 31, y: 2 }]);
}

#[test]
fn each_kill_scores_ten() {
    let mut s = quiet_state();
    s.aliens = vec![Alien { x: 2, y: 2 }, Alien { x: 10, y: 2 }, Alien { x: 30, y: 2 }];
    s.shots = vec![Shot { x: 3, y: 3 }, Shot { x: 11, y: 3 }];
    advance(&mut s, 0);
    assert_eq!(s.score, 20);
    assert!(s.shots.is_empty());
    assert_eq!(s.aliens, vec![Alien { x: 31, y: 2 }]);
}

#[test]
fn shot_consumes_first_alien_in_formation_order() {
    let mut s = quiet_state();
    s.aliens = vec![Alien { x: 2, y: 2 }, Alien { x: 4, y: 2 }];
    // rises to (4, 2), overlapping both boxes; the first one in order dies
    s.shots = vec![Shot { x: 4, y: 3 }];
    advance(&mut s, 0);
    assert_eq!(s.score, 10);
    assert_eq!(s.aliens, vec![Alien { x: 5, y: 2 }]);
}

#[test]
fn clearing_the_wave_respawns_and_clears_shots() {
    let mut s = quiet_state();
    s.aliens = vec![Alien { x: 2, y: 2 }];
    s.shots = vec![Shot { x: 3, y: 3 }];
    s.alien_shots = vec![AlienShot { x: 30, y: 5 }];
    advance(&mut s, 0);
    assert_eq!(s.score, 10);
    assert_eq!(s.aliens.len(), 12);
    assert_eq!(s.aliens[0], Alien { x: 2, y: 2 });
    assert_eq!(s.aliens[11], Alien { x: 27, y: 6 });
    assert!(s.shots.is_empty());
    assert!(s.alien_shots.is_empty());
    assert!(!s.game_over);
}

#[test]
fn right_boundary_flips_direction_and_descends() {
    let mut s = quiet_state();
    s.aliens = vec![Alien { x: 37, y: 2 }, Alien { x: 10, y: 6 }];
    advance(&mut s, 0);
    assert_eq!(s.alien_direction, AlienDirection::Left);
    assert_eq!(s.aliens, vec![Alien { x: 37, y: 3 }, Alien { x: 10, y: 7 }]);
}

#[test]
fn left_boundary_flips_direction_and_descends() {
    let mut s = quiet_state();
    s.alien_direction = AlienDirection::Left;
    s.aliens = vec![Alien { x: 0, y: 5 }];
    advance(&mut s, 0);
    assert_eq!(s.alien_direction, AlienDirection::Right);
    assert_eq!(s.aliens, vec![Alien { x: 0, y: 6 }]);
}

#[test]
fn swarm_reaching_player_row_ends_the_game() {
    let mut s = quiet_state();
    s.aliens = vec![Alien { x: 37, y: 18 }];
    advance(&mut s, 0);
    assert!(s.game_over);
    assert_eq!(s.aliens, vec![Alien { x: 37, y: 19 }]);
}

#[test]
fn front_rank_alien_fires_after_cooldown() {
    let mut s = quiet_state();
    // stacked column: only the lower alien is front-rank
    s.aliens = vec![Alien { x: 5, y: 2 }, Alien { x: 5, y: 6 }];
    let fired = advance(&mut s, COOLDOWN_OVER);
    assert!(fired);
    assert_eq!(s.alien_shots, vec![AlienShot { x: 6, y: 8 }]);
}

#[test]
fn no_fire_before_cooldown_elapses() {
    let mut s = quiet_state();
    s.aliens = vec![Alien { x: 5, y: 2 }];
    let fired = advance(&mut s, 750_000_000);
    assert!(!fired);
    assert!(s.alien_shots.is_empty());
}

#[test]
fn terminal_world_is_frozen() {
    let mut s = quiet_state();
    s.game_over = true;
    s.lives = 0;
    s.score = 70;
    s.shots = vec![Shot { x: 5, y: 10 }];
    s.alien_shots = vec![AlienShot { x: 6, y: 10 }];
    let fired = advance(&mut s, COOLDOWN_OVER);
    assert!(!fired);
    assert_eq!(s.score, 70);
    assert_eq!(s.shots, vec![Shot { x: 5, y: 10 }]);
    assert_eq!(s.alien_shots, vec![AlienShot { x: 6, y: 10 }]);
    assert_eq!(s.aliens, vec![Alien { x: 10, y: 2 }]);
    assert!(s.game_over);
}

#[test]
fn shot_cap_holds_across_ticks() {
    let mut s = quiet_state();
    for _ in 0..30 {
        s.fire();
        advance(&mut s, 0);
        assert!(s.shots.len() <= 10);
    }
}

#[test]
fn player_box_is_half_open_on_the_right() {
    // x in [player.x, player.x + 3): column 21 hits, column 22 misses
    let mut s = quiet_state();
    s.player.x = 19;
    s.alien_shots = vec![AlienShot { x: 22, y: 19 }];
    advance(&mut s, 0);
    assert_eq!(s.lives, 3);
    assert_eq!(s.alien_shots, vec![AlienShot { x: 22, y: 20 }]);

    let mut s = quiet_state();
    s.player.x = 19;
    s.alien_shots = vec![AlienShot { x: 21, y: 19 }];
    advance(&mut s, 0);
    assert_eq!(s.lives, 2);
    assert!(s.alien_shots.is_empty());
}

#[test]
fn player_box_covers_both_rows() {
    // y in [20, 22): a shot falling onto row 21 still hits
    let mut s = quiet_state();
    s.player.x = 19;
    s.alien_shots = vec![AlienShot { x: 20, y: 20 }];
    advance(&mut s, 0);
    assert_eq!(s.lives, 2);
}

#[test]
fn elapsed_nanos_pick_the_shooter_deterministically() {
    // two front-rank candidates: an even tick count picks the first
    let mut s = quiet_state();
    s.aliens = vec![Alien { x: 2, y: 6 }, Alien { x: 20, y: 6 }];
    let fired = advance(&mut s, 800_000_000);
    assert!(fired);
    assert_eq!(s.alien_shots, vec![AlienShot { x: 3, y: 8 }]);

    // ... and an odd one the second
    let mut s = quiet_state();
    s.aliens = vec![Alien { x: 2, y: 6 }, Alien { x: 20, y: 6 }];
    let fired = advance(&mut s, 800_000_001);
    assert!(fired);
    assert_eq!(s.alien_shots, vec![AlienShot { x: 21, y: 8 }]);
}
