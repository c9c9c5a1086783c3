//! The world model: entities, board constants, the well-formedness invariant,
//! wave spawning, and the player intents (move left, move right, fire).

use vstd::prelude::*;

verus! {

/// Rightmost cell of the board: x ranges over [0, MAX_PLAYER_X].
pub const MAX_PLAYER_X: u16 = 38;
/// The row the player occupies; y ranges over [0, MAX_PLAYER_Y].
pub const MAX_PLAYER_Y: u16 = 20;
pub const ALIEN_ROWS: u16 = 2;
pub const ALIEN_COLS: u16 = 6;
pub const HORIZONTAL_SPACING: u16 = 5;
pub const VERTICAL_SPACING: u16 = 4;
/// Cap on simultaneously live player shots.
pub const MAX_SHOTS: usize = 10;
/// Cooldown between alien shots, in nanoseconds.
pub const ALIEN_FIRE_INTERVAL_NANOS: u64 = 750_000_000;
pub const INITIAL_LIVES: u8 = 3;

/// The player's vessel: a 3-wide, 2-tall box anchored at its top-left cell.
#[derive(Clone, Copy, PartialEq, Eq, Structural, Debug)]
pub struct Player {
    pub x: u16,
    pub y: u16,
}

/// One alien: a 3-wide, 2-tall box anchored at its top-left cell.
#[derive(Clone, Copy, PartialEq, Eq, Structural, Debug)]
pub struct Alien {
    pub x: u16,
    pub y: u16,
}

/// A player shot: a single cell travelling upward one row per tick.
#[derive(Clone, Copy, PartialEq, Eq, Structural, Debug)]
pub struct Shot {
    pub x: u16,
    pub y: u16,
}

/// An alien shot: a single cell travelling downward one row per tick.
#[derive(Clone, Copy, PartialEq, Eq, Structural, Debug)]
pub struct AlienShot {
    pub x: u16,
    pub y: u16,
}

/// The horizontal direction shared by the whole alien formation.
#[derive(Clone, Copy, PartialEq, Eq, Structural, Debug)]
pub enum AlienDirection {
    Left,
    Right,
}

/// The whole simulation state, owned by the driver loop and threaded through
/// `advance` once per tick.
#[derive(Debug)]
pub struct GameState {
    pub player: Player,
    pub shots: Vec<Shot>,
    pub aliens: Vec<Alien>,
    pub alien_shots: Vec<AlienShot>,
    pub alien_direction: AlienDirection,
    pub score: u32,
    pub lives: u8,
    pub game_over: bool,
}

/// Well-formedness of a world state. Established by `new_game` and preserved
/// by every intent and by `advance`; it is what keeps all the coordinate
/// arithmetic of a tick within `u16`.
pub open spec fn wf(s: GameState) -> bool {
    &&& s.player.y == MAX_PLAYER_Y
    &&& s.player.x + 2 <= MAX_PLAYER_X
    &&& s.shots@.len() <= MAX_SHOTS
    &&& (forall|i: int| 0 <= i < s.shots@.len() ==> (#[trigger] s.shots@[i]).y >= 2)
    &&& (forall|i: int| 0 <= i < s.alien_shots@.len() ==> (#[trigger] s.alien_shots@[i]).y <= MAX_PLAYER_Y + 1)
    &&& s.aliens@.len() <= ALIEN_ROWS * ALIEN_COLS
    &&& (forall|i: int| 0 <= i < s.aliens@.len() ==> (#[trigger] s.aliens@[i]).x < MAX_PLAYER_X)
    &&& (!s.game_over ==> forall|i: int| 0 <= i < s.aliens@.len() ==> (#[trigger] s.aliens@[i]).y + 2 <= MAX_PLAYER_Y)
    &&& (!s.game_over ==> s.lives >= 1)
}

/// The fresh rectangular formation a wave spawns with: ALIEN_ROWS x ALIEN_COLS
/// aliens, row-major, spaced HORIZONTAL_SPACING x VERTICAL_SPACING, offset
/// (2, 2) from the board origin.
pub open spec fn initial_wave() -> Seq<Alien> {
    Seq::new((ALIEN_ROWS * ALIEN_COLS) as nat, |k: int| (Alien {
        x: ((k % (ALIEN_COLS as int)) * (HORIZONTAL_SPACING as int) + 2) as u16,
        y: ((k / (ALIEN_COLS as int)) * (VERTICAL_SPACING as int) + 2) as u16,
    }))
}

/// Every alien of a fresh wave sits strictly inside the walls and well above
/// the player's row.
pub proof fn lemma_initial_wave_bounds()
    ensures
        initial_wave().len() == ALIEN_ROWS * ALIEN_COLS,
        forall|k: int| 0 <= k < initial_wave().len() ==> (#[trigger] initial_wave()[k]).x < MAX_PLAYER_X,
        forall|k: int| 0 <= k < initial_wave().len() ==> (#[trigger] initial_wave()[k]).y + 2 <= MAX_PLAYER_Y,
{
    assert forall|k: int| 0 <= k < initial_wave().len() implies
        (#[trigger] initial_wave()[k]).x < MAX_PLAYER_X
        && (#[trigger] initial_wave()[k]).y + 2 <= MAX_PLAYER_Y by {
        assert(0 <= k % (ALIEN_COLS as int) < ALIEN_COLS as int);
        assert(0 <= k / (ALIEN_COLS as int) < ALIEN_ROWS as int);
    }
}

/// Clears every live shot and repopulates the alien formation. Called once at
/// game start and again on the tick the last alien of a wave dies.
pub fn spawn_new_wave(state: &mut GameState)
    ensures
        final(state).aliens@ == initial_wave(),
        final(state).shots@ == Seq::<Shot>::empty(),
        final(state).alien_shots@ == Seq::<AlienShot>::empty(),
        final(state).player == old(state).player,
        final(state).alien_direction == old(state).alien_direction,
        final(state).score == old(state).score,
        final(state).lives == old(state).lives,
        final(state).game_over == old(state).game_over,
{
    state.shots = Vec::new();
    state.alien_shots = Vec::new();
    let total: u16 = ALIEN_ROWS * ALIEN_COLS;
    let mut aliens: Vec<Alien> = Vec::new();
    let mut k: u16 = 0;
    while k < total
        invariant
            total == ALIEN_ROWS * ALIEN_COLS,
            k <= total,
            aliens@.len() == k as int,
            forall|j: int| 0 <= j < k as int ==> (#[trigger] aliens@[j]) == initial_wave()[j],
        decreases total - k,
    {
        let col: u16 = k % ALIEN_COLS;
        let row: u16 = k / ALIEN_COLS;
        aliens.push(Alien { x: col * HORIZONTAL_SPACING + 2, y: row * VERTICAL_SPACING + 2 });
        k = k + 1;
    }
    proof {
        assert(aliens@ =~= initial_wave());
    }
    state.aliens = aliens;
}

/// A freshly started game: player centered on the bottom row, no shots, a
/// full wave, swarm heading right, full lives.
pub fn new_game() -> (s: GameState)
    ensures
        wf(s),
        s.player == (Player { x: MAX_PLAYER_X / 2, y: MAX_PLAYER_Y }),
        s.shots@ == Seq::<Shot>::empty(),
        s.alien_shots@ == Seq::<AlienShot>::empty(),
        s.aliens@ == initial_wave(),
        s.alien_direction == AlienDirection::Right,
        s.score == 0,
        s.lives == INITIAL_LIVES,
        !s.game_over,
{
    let mut state = GameState {
        player: Player { x: MAX_PLAYER_X / 2, y: MAX_PLAYER_Y },
        shots: Vec::new(),
        aliens: Vec::new(),
        alien_shots: Vec::new(),
        alien_direction: AlienDirection::Right,
        score: 0,
        lives: INITIAL_LIVES,
        game_over: false,
    };
    spawn_new_wave(&mut state);
    proof {
        lemma_initial_wave_bounds();
    }
    state
}

impl GameState {
    /// The move-left intent: shifts the player one cell left, unless the game
    /// is over or the player already touches the left wall.
    pub fn move_left(&mut self)
        ensures
            final(self).player.y == old(self).player.y,
            final(self).player.x == (if !old(self).game_over && old(self).player.x > 0 {
                (old(self).player.x - 1) as u16
            } else {
                old(self).player.x
            }),
            final(self).shots@ == old(self).shots@,
            final(self).aliens@ == old(self).aliens@,
            final(self).alien_shots@ == old(self).alien_shots@,
            final(self).alien_direction == old(self).alien_direction,
            final(self).score == old(self).score,
            final(self).lives == old(self).lives,
            final(self).game_over == old(self).game_over,
            wf(*old(self)) ==> wf(*final(self)),
    {
        if self.player.x > 0 && !self.game_over {
            self.player.x = self.player.x - 1;
        }
    }

    /// The move-right intent: shifts the player one cell right, unless the
    /// game is over or the 3-wide vessel already touches the right wall.
    pub fn move_right(&mut self)
        ensures
            final(self).player.y == old(self).player.y,
            final(self).player.x == (if !old(self).game_over && old(self).player.x + 2 < MAX_PLAYER_X {
                (old(self).player.x + 1) as u16
            } else {
                old(self).player.x
            }),
            final(self).shots@ == old(self).shots@,
            final(self).aliens@ == old(self).aliens@,
            final(self).alien_shots@ == old(self).alien_shots@,
            final(self).alien_direction == old(self).alien_direction,
            final(self).score == old(self).score,
            final(self).lives == old(self).lives,
            final(self).game_over == old(self).game_over,
            wf(*old(self)) ==> wf(*final(self)),
    {
        if self.player.x < MAX_PLAYER_X - 2 && !self.game_over {
            self.player.x = self.player.x + 1;
        }
    }

    /// The fire intent: spawns one player shot at the vessel's muzzle, one
    /// cell above its center column. Silently dropped when the game is over
    /// or the cap of MAX_SHOTS live shots is already reached.
    pub fn fire(&mut self)
        requires
            wf(*old(self)),
        ensures
            wf(*final(self)),
            final(self).shots@ == (if !old(self).game_over && old(self).shots@.len() < MAX_SHOTS {
                old(self).shots@.push(Shot {
                    x: (old(self).player.x + 1) as u16,
                    y: (old(self).player.y - 1) as u16,
                })
            } else {
                old(self).shots@
            }),
            final(self).player == old(self).player,
            final(self).aliens@ == old(self).aliens@,
            final(self).alien_shots@ == old(self).alien_shots@,
            final(self).alien_direction == old(self).alien_direction,
            final(self).score == old(self).score,
            final(self).lives == old(self).lives,
            final(self).game_over == old(self).game_over,
    {
        if self.shots.len() < MAX_SHOTS && !self.game_over {
            let shot = Shot { x: self.player.x + 1, y: self.player.y - 1 };
            self.shots.push(shot);
        }
    }
}

} // verus!
