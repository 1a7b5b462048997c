//! The rules of the maze game that do not depend on positions in world
//! units: the map and its grid, weapons, enemy kinds, doors, and the
//! pseudo-random sequence that spreads the shots.

use vstd::prelude::*;

verus! {

/// Cell code of a floor cell.
pub const FLOOR: u8 = 0;

/// Cell code of a wall cell (and of everything outside the grid).
pub const WALL: u8 = 1;

/// Cell code of a door cell.
pub const DOOR: u8 = 2;

/// Texture slots of the maze.
pub const TEX_FLOOR: u32 = 0;

pub const TEX_WALL: u32 = 1;

pub const TEX_DOOR: u32 = 2;

pub const TEX_CEIL: u32 = 3;

/// Starting and full player health.
pub const MAX_HEALTH: i32 = 100;

/// The maze, 15x15. `#` = wall, `.` = floor, `D` = door, `P` = player
/// spawn, `E` = spider enemy, `W` = wuson enemy.
pub const MAP: &'static str = "###############
#P....#..#...E#
#.##..#..#.##.#
#.#D#.#..#.#..#
#.#..#D#..#.#.#
#D#..#..#.#D#.#
#..##..##..#..#
#.#..E..#..##D#
#.#..#D#..#...#
#..####..##..D#
#D..#..#.#..W.#
#..#.#..#..##.#
#.#.#..#.#..#.#
#..E..#....#..#
###############";

// ---------------------------------------------------------------- weapons

/// The guns, in switching order.
#[derive(Clone, Copy, Debug, PartialEq, Eq, Structural)]
pub enum Weapon {
    Pistol,
    Smg,
    Shotgun,
}

pub open spec fn weapon_number(w: Weapon) -> u32 {
    match w {
        Weapon::Pistol => 0,
        Weapon::Smg => 1,
        Weapon::Shotgun => 2,
    }
}

/// Health taken from the enemy that a ray of `w` hits.
pub open spec fn weapon_damage(w: Weapon) -> i32 {
    match w {
        Weapon::Pistol => 25,
        Weapon::Smg => 9,
        Weapon::Shotgun => 15,
    }
}

impl Weapon {
    /// All weapons, in the order of their numbers.
    pub fn all() -> (r: [Weapon; 3])
        ensures
            r@ == seq![Weapon::Pistol, Weapon::Smg, Weapon::Shotgun],
    {
        let r = [Weapon::Pistol, Weapon::Smg, Weapon::Shotgun];
        assert(r@ =~= seq![Weapon::Pistol, Weapon::Smg, Weapon::Shotgun]);
        r
    }

    /// The weapon's number: its place in `all`.
    pub fn index(&self) -> (r: u32)
        ensures
            r == weapon_number(*self),
    {
        match self {
            Weapon::Pistol => 0,
            Weapon::Smg => 1,
            Weapon::Shotgun => 2,
        }
    }

    /// Rays per shot.
    pub fn pellets(&self) -> (r: i32)
        ensures
            r == (match *self {
                Weapon::Shotgun => 6i32,
                _ => 1i32,
            }),
    {
        match self {
            Weapon::Pistol => 1,
            Weapon::Smg => 1,
            Weapon::Shotgun => 6,
        }
    }

    /// Health taken from the enemy that a ray hits.
    pub fn damage(&self) -> (r: i32)
        ensures
            r == weapon_damage(*self),
    {
        match self {
            Weapon::Pistol => 25,
            Weapon::Smg => 9,
            Weapon::Shotgun => 15,
        }
    }

    /// The weapon after a switch request: -1 (or any negative number)
    /// keeps the current one, 0..=2 picks that weapon, a larger number
    /// keeps the current one.
    pub fn select(self, switch: i32) -> (r: Weapon)
        ensures
            r == (if 0 <= switch < 3 {
                seq![Weapon::Pistol, Weapon::Smg, Weapon::Shotgun][switch as int]
            } else {
                self
            }),
    {
        let all = Weapon::all();
        let k: usize = if switch < 0 {
            0
        } else {
            switch as usize
        };
        if k < 3 && switch >= 0 {
            all[k]
        } else {
            self
        }
    }
}

/// Health left to an enemy hit by a ray of `w`.
pub fn enemy_hit(health: i32, w: Weapon) -> (r: i32)
    requires
        health - weapon_damage(w) >= i32::MIN,
    ensures
        r == health - weapon_damage(w),
{
    health - w.damage()
}

// ---------------------------------------------------------------- enemies

/// The two enemy models.
#[derive(Clone, Copy, Debug, PartialEq, Eq, Structural)]
pub enum EnemyKind {
    Spider,
    Wuson,
}

/// Health an attack of an enemy of `kind` takes from the player.
pub open spec fn attack_damage_of(kind: EnemyKind) -> i32 {
    match kind {
        EnemyKind::Spider => 8,
        EnemyKind::Wuson => 15,
    }
}

impl EnemyKind {
    /// Health an enemy starts with.
    pub fn start_health(&self) -> (r: i32)
        ensures
            r == (match *self {
                EnemyKind::Spider => 40i32,
                EnemyKind::Wuson => 90i32,
            }),
    {
        match self {
            EnemyKind::Spider => 40,
            EnemyKind::Wuson => 90,
        }
    }

    /// Health an attack of this enemy takes from the player.
    pub fn attack_damage(&self) -> (r: i32)
        ensures
            r == attack_damage_of(*self),
    {
        match self {
            EnemyKind::Spider => 8,
            EnemyKind::Wuson => 15,
        }
    }
}

/// Player health after an attack of an enemy of `kind`.
pub fn player_hit(health: i32, kind: EnemyKind) -> (r: i32)
    requires
        health - attack_damage_of(kind) >= i32::MIN,
    ensures
        r == health - attack_damage_of(kind),
{
    health - kind.attack_damage()
}

// ---------------------------------------------------------------- doors

/// Where a sliding door is in its cycle.
#[derive(Clone, Copy, Debug, PartialEq, Eq, Structural)]
pub enum DoorState {
    Closed,
    Opening,
    Open,
    Closing,
}

/// The state after the player uses the door: a closed door starts
/// opening, an open one starts closing, a moving one keeps moving.
pub open spec fn door_toggled(s: DoorState) -> DoorState {
    match s {
        DoorState::Closed => DoorState::Opening,
        DoorState::Open => DoorState::Closing,
        _ => s,
    }
}

/// The state after one update; `done` tells whether the current phase has
/// ended this update (fully open while opening, hold time over while open,
/// fully shut while closing).
pub open spec fn door_advanced(s: DoorState, done: bool) -> DoorState {
    if done {
        match s {
            DoorState::Opening => DoorState::Open,
            DoorState::Open => DoorState::Closing,
            DoorState::Closing => DoorState::Closed,
            DoorState::Closed => DoorState::Closed,
        }
    } else {
        s
    }
}

impl DoorState {
    /// The state after the player uses the door.
    pub fn toggled(self) -> (r: DoorState)
        ensures
            r == door_toggled(self),
    {
        match self {
            DoorState::Closed => DoorState::Opening,
            DoorState::Open => DoorState::Closing,
            _ => self,
        }
    }

    /// The state after one update.
    pub fn advanced(self, done: bool) -> (r: DoorState)
        ensures
            r == door_advanced(self, done),
    {
        if !done {
            return self;
        }
        match self {
            DoorState::Opening => DoorState::Open,
            DoorState::Open => DoorState::Closing,
            DoorState::Closing => DoorState::Closed,
            DoorState::Closed => DoorState::Closed,
        }
    }
}

// ---------------------------------------------------------------- random

/// The next state of the shot-spread generator (a 32-bit linear
/// congruential step).
pub fn next_rng(rng: u32) -> (r: u32)
    ensures
        r as int == (rng as int * 1103515245 + 12345) % 0x1_0000_0000,
{
    let m = rng.wrapping_mul(1103515245);
    let r = m.wrapping_add(12345);
    proof {
        let a = rng as int * 1103515245;
        vstd::arithmetic::div_mod::lemma_add_mod_noop(a, 12345, 0x1_0000_0000);
        vstd::arithmetic::div_mod::lemma_small_mod(12345nat, 0x1_0000_0000nat);
        vstd::arithmetic::div_mod::lemma_mod_twice(a, 0x1_0000_0000);
    }
    r
}

/// The 24 high bits of a generator state: the numerator of a uniform
/// sample in [0, 1) over 2^24.
pub fn rng_bits(rng: u32) -> (r: u32)
    ensures
        r as int == rng as int / 256,
        r < 0x100_0000,
{
    let r = rng >> 8;
    assert(rng >> 8 == rng / 256) by (bit_vector);
    r
}

} // verus!
