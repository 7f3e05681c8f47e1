pub mod bullet;
pub mod codec;
pub mod player;
pub mod team;

use vstd::prelude::*;

verus! {

/// Length in bytes of a projectile identity on the wire.
pub const BULLET_ID_LEN: usize = 8;

/// Length in bytes of a participant identity on the wire.
pub const PLAYER_ID_MAX: usize = 8;

/// Units a projectile moves per physics tick.
pub const BULLET_UPDATE_MOVEMENT: u32 = 10;

/// Milliseconds between physics ticks.
pub const BULLET_UPDATE_INTERVAL: u64 = 50;

/// Minimum milliseconds between two fires by the same participant.
pub const PLAYER_FIRE_INTERVAL: u64 = 400;

/// Minimum milliseconds between two applied position updates.
pub const PLAYER_UPDATE_INTERVAL: u64 = 50;

/// Score at which a team wins the match.
pub const GAME_END_SCORE: u32 = 5;

} // verus!
