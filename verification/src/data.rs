//! The per-tick player state that the analysis reads.

use vstd::prelude::*;

verus! {

/// A position in the map, each coordinate held as the raw bits of a signed
/// fixed-point number with 5 fractional bits.
#[derive(Clone, Copy, Debug, PartialEq, Eq, Structural)]
pub struct Position {
    pub x: i32,
    pub y: i32,
}

/// A velocity, each component held as the raw bits of a signed fixed-point
/// number with 8 fractional bits.
#[derive(Clone, Copy, Debug, PartialEq, Eq, Structural)]
pub struct Velocity {
    pub x: i32,
    pub y: i32,
}

/// The horizontal movement input.
#[derive(Clone, Copy, Debug, PartialEq, Eq, Structural)]
pub enum Direction {
    Left,
    /// No horizontal input.
    Neutral,
    Right,
}

/// The life cycle of the hook.
#[derive(Clone, Copy, Debug, PartialEq, Eq, Structural)]
pub enum HookState {
    Retracted,
    Idle,
    RetractStart,
    Retracting,
    RetractEnd,
    Flying,
    Grabbed,
}

#[derive(Clone, Copy, Debug, PartialEq, Eq, Structural)]
pub enum ActiveWeapon {
    Hammer,
    Pistol,
    Shotgun,
    Grenade,
    Rifle,
    Ninja,
}

#[derive(Clone, Copy, Debug, PartialEq, Eq, Structural)]
pub enum Emote {
    Normal,
    Pain,
    Happy,
    Surprise,
    Angry,
    Blink,
}

/// Everything recorded about one player at one tick.
///
/// Times are in ticks, angles are the raw bits of a signed fixed-point
/// number with 8 fractional bits.
#[derive(Clone, Copy, Debug, PartialEq, Eq, Structural)]
pub struct Inputs {
    pub tick: i32,
    pub pos: Position,
    pub vel: Velocity,
    pub angle: i32,
    pub direction: Direction,
    pub hook_state: HookState,
    pub hook_tick: i32,
    pub hook_pos: Position,
    pub hook_direction: Velocity,
    pub health: i32,
    pub armor: i32,
    pub ammo_count: i32,
    pub weapon: ActiveWeapon,
    pub emote: Emote,
    pub attack_tick: i32,
    pub freeze_end: i32,
    pub jumps: i32,
    pub tele_checkpoint: i32,
    pub strong_weak_id: i32,
    pub jumped_total: i32,
    pub ninja_activation_tick: i32,
    pub target: Position,
}

} // verus!
