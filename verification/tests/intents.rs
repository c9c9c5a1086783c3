//! Player intents: movement clamping and the fire cap.

use invaders::world::{
    new_game, Alien, AlienDirection, AlienShot, GameState, Player, Shot, INITIAL_LIVES,
    MAX_PLAYER_X, MAX_PLAYER_Y, MAX_SHOTS,
};

fn base_state() -> GameState {
    GameState {
        player: Player { x: MAX_PLAYER_X / 2, y: MAX_PLAYER_Y },
        shots: Vec::new(),
        aliens: vec![Alien { x: 10, y: 2 }],
        alien_shots: Vec::new(),
        alien_direction: AlienDirection::Right,
        score: 0,
        lives: INITIAL_LIVES,
        game_over: false,
    }
}

#[test]
fn new_game_starts_centered_with_full_wave() {
    let s = new_game();
    assert_eq!(s.player, Player { x: 19, y: 20 });
    assert_eq!(s.score, 0);
    assert_eq!(s.lives, 3);
    assert!(!s.game_over);
    assert_eq!(s.alien_direction, AlienDirection::Right);
    assert!(s.shots.is_empty());
    assert!(s.alien_shots.is_empty());
    assert_eq!(s.aliens.len(), 12);
    let mut expected = Vec::new();
    for row in 0..2u16 {
        for col in 0..6u16 {
            expected.push(Alien { x: col * 5 + 2, y: row * 4 + 2 });
        }
    }
    assert_eq!(s.aliens, expected);
}

#[test]
fn move_left_shifts_one_cell() {
    let mut s = base_state();
    s.player.x = 10;
    s.move_left();
    assert_eq!(s.player, Player { x: 9, y: 20 });
}

#[test]
fn move_left_stops_at_wall() {
    let mut s = base_state();
    s.player.x = 0;
    s.move_left();
    assert_eq!(s.player.x, 0);
}

#[test]
fn move_right_shifts_one_cell() {
    let mut s = base_state();
    s.player.x = 10;
    s.move_right();
    assert_eq!(s.player, Player { x: 11, y: 20 });
}

#[test]
fn move_right_stops_where_the_vessel_touches_the_wall() {
    let mut s = base_state();
    s.player.x = 36;
    s.move_right();
    assert_eq!(s.player.x, 36);
}

#[test]
fn movement_ignored_after_game_over() {
    let mut s = base_state();
    s.player.x = 10;
    s.game_over = true;
    s.move_left();
    s.move_right();
    assert_eq!(s.player.x, 10);
}

#[test]
fn fire_spawns_shot_at_the_muzzle() {
    let mut s = base_state();
    s.player.x = 10;
    s.fire();
    assert_eq!(s.shots, vec![Shot { x: 11, y: 19 }]);
}

#[test]
fn fire_at_cap_leaves_shots_unchanged() {
    let mut s = base_state();
    for i in 0..MAX_SHOTS as u16 {
        s.shots.push(Shot { x: i, y: 10 });
    }
    let before = s.shots.clone();
    s.fire();
    assert_eq!(s.shots, before);
    assert_eq!(s.shots.len(), MAX_SHOTS);
}

#[test]
fn fire_ignored_after_game_over() {
    let mut s = base_state();
    s.game_over = true;
    s.fire();
    assert!(s.shots.is_empty());
}

#[test]
fn fire_cap_not_reached_allows_tenth_shot() {
    let mut s = base_state();
    for i in 0..(MAX_SHOTS as u16 - 1) {
        s.shots.push(Shot { x: i, y: 10 });
    }
    s.fire();
    assert_eq!(s.shots.len(), MAX_SHOTS);
}

#[test]
fn spawn_new_wave_refills_and_clears_shots() {
    let mut s = base_state();
    s.shots = vec![Shot { x: 5, y: 10 }];
    s.alien_shots = vec![AlienShot { x: 6, y: 10 }];
    s.score = 120;
    s.lives = 2;
    invaders::world::spawn_new_wave(&mut s);
    assert!(s.shots.is_empty());
    assert!(s.alien_shots.is_empty());
    assert_eq!(s.aliens.len(), 12);
    assert_eq!(s.aliens[6], Alien { x: 2, y: 6 });
    assert_eq!(s.score, 120);
    assert_eq!(s.lives, 2);
}
