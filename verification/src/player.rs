use vstd::prelude::*;
use crate::bullet::{Bullet, BULLET_RADIUS};
use crate::{PLAYER_FIRE_INTERVAL, PLAYER_UPDATE_INTERVAL};

verus! {

/// A joined participant: horizontal position and the timestamps that drive
/// rate limiting. All times are milliseconds on one monotonic clock.
#[derive(Clone, Copy, Debug, PartialEq, Eq, Structural)]
pub struct Player {
    pub x: u32,
    pub max_x: u32,
    pub max_y: u32,
    pub last_fired: u64,
    pub last_updated: u64,
}

/// Milliseconds elapsed from `last` to `now` (zero if the clock reads
/// earlier than the stamp).
pub open spec fn elapsed(last: u64, now: u64) -> u64 {
    if now >= last {
        (now - last) as u64
    } else {
        0u64
    }
}

/// A fire intent is honoured only when the fire cooldown has passed since
/// the participant's last confirmed fire.
pub open spec fn can_fire(p: Player, now: u64) -> bool {
    elapsed(p.last_fired, now) >= PLAYER_FIRE_INTERVAL
}

/// A position update is applied only when the position cooldown has passed
/// since the last applied update.
pub open spec fn can_update_pos(p: Player, now: u64) -> bool {
    elapsed(p.last_updated, now) >= PLAYER_UPDATE_INTERVAL
}

/// The participant after a confirmed fire at `now`.
pub open spec fn after_fire(p: Player, now: u64) -> Player {
    Player { last_fired: now, ..p }
}

/// The participant after an applied position update to `x` at `now`.
pub open spec fn after_pos(p: Player, x: u32, now: u64) -> Player {
    Player { x, last_updated: now, ..p }
}

/// Rate limiting: once a fire is confirmed at `t1`, a second intent any
/// time less than the fire cooldown later is dropped.
pub proof fn lemma_fire_rate_limited(p: Player, t1: u64, t2: u64)
    requires
        t1 <= t2,
        t2 - t1 < PLAYER_FIRE_INTERVAL,
    ensures
        !can_fire(after_fire(p, t1), t2),
{
}

impl Player {
    /// A fresh participant standing at the middle column, joined at `now_ms`.
    pub fn new(max_x: u32, max_y: u32, now_ms: u64) -> (r: Player)
        ensures
            r == (Player {
                x: max_x / 2,
                max_x,
                max_y,
                last_fired: now_ms,
                last_updated: now_ms,
            }),
    {
        Player { x: max_x / 2, max_x, max_y, last_fired: now_ms, last_updated: now_ms }
    }

    /// Move to an absolute horizontal position (the server trusts the
    /// reported value).
    pub fn move_to(&mut self, x: u32)
        ensures
            *final(self) == (Player { x, ..*old(self) }),
    {
        self.x = x;
    }

    /// Confirm a fire at `now_ms`: stamp the time and spawn an outgoing
    /// projectile at this participant's column, on the team's base row.
    pub fn fire(&mut self, now_ms: u64) -> (r: Bullet)
        requires
            old(self).max_y >= 2,
        ensures
            *final(self) == after_fire(*old(self), now_ms),
            r == (Bullet {
                x: old(self).x,
                y: (old(self).max_y - 2) as u32,
                radius: BULLET_RADIUS,
                max_y: old(self).max_y,
            }),
    {
        self.last_fired = now_ms;
        Bullet::new(self.x, self.max_y - 2, self.max_y)
    }

    /// Milliseconds since the last confirmed fire, as of `now_ms`.
    pub fn last_fired(&self, now_ms: u64) -> (r: u64)
        ensures
            r == elapsed(self.last_fired, now_ms),
    {
        if now_ms >= self.last_fired {
            now_ms - self.last_fired
        } else {
            0
        }
    }
}

} // verus!
