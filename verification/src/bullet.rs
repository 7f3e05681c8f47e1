use vstd::prelude::*;
use crate::BULLET_UPDATE_MOVEMENT;

verus! {

/// Collision radius shared by every projectile.
pub const BULLET_RADIUS: u32 = 10;

/// A projectile in flight: a fixed column, a vertical position moved every
/// tick, a fixed travel bound and a fixed collision radius.
#[derive(Clone, Copy, Debug, PartialEq, Eq, Structural)]
pub struct Bullet {
    pub x: u32,
    pub y: u32,
    pub radius: u32,
    pub max_y: u32,
}

/// One outgoing step: the vertical position drops by the tick step, floored
/// at zero (the far boundary).
pub open spec fn fly_step(b: Bullet) -> Bullet {
    Bullet {
        y: if b.y >= BULLET_UPDATE_MOVEMENT {
            (b.y - BULLET_UPDATE_MOVEMENT) as u32
        } else {
            0u32
        },
        ..b
    }
}

/// One incoming step: the vertical position grows by the tick step, capped
/// at the base line `max_y`.
pub open spec fn fall_step(b: Bullet) -> Bullet {
    Bullet {
        y: if b.y + BULLET_UPDATE_MOVEMENT <= b.max_y {
            (b.y + BULLET_UPDATE_MOVEMENT) as u32
        } else {
            b.max_y
        },
        ..b
    }
}

/// Circle overlap: two projectiles collide iff the sum of their radii
/// strictly exceeds the distance between centers. Tangency is no hit.
pub open spec fn collides(a: Bullet, b: Bullet) -> bool {
    (a.radius + b.radius) * (a.radius + b.radius) > (a.x - b.x) * (a.x - b.x) + (a.y - b.y) * (a.y
        - b.y)
}

/// Collision is symmetric in the pair.
pub proof fn lemma_collides_symmetric(a: Bullet, b: Bullet)
    ensures
        collides(a, b) == collides(b, a),
{
    let dx = a.x - b.x;
    let dy = a.y - b.y;
    assert(dx * dx == (-dx) * (-dx) && dy * dy == (-dy) * (-dy)) by (nonlinear_arith);
}

impl Bullet {
    pub fn new(x: u32, y: u32, max_y: u32) -> (r: Bullet)
        ensures
            r == (Bullet { x, y, radius: BULLET_RADIUS, max_y }),
    {
        Bullet { x, y, radius: BULLET_RADIUS, max_y }
    }

    /// Advance one tick toward the far boundary; the result says whether the
    /// projectile is still in flight (it has not flown past the top).
    pub fn fly(&mut self) -> (r: bool)
        ensures
            *final(self) == fly_step(*old(self)),
            r == (final(self).y > 0),
    {
        if self.y >= BULLET_UPDATE_MOVEMENT {
            self.y = self.y - BULLET_UPDATE_MOVEMENT;
        } else {
            self.y = 0;
        }
        self.y > 0
    }

    /// Advance one tick toward the defending base; the result says whether
    /// the projectile is still short of the base line.
    pub fn fall(&mut self) -> (r: bool)
        requires
            old(self).y <= old(self).max_y,
        ensures
            *final(self) == fall_step(*old(self)),
            r == (final(self).y < final(self).max_y),
    {
        if self.max_y - self.y >= BULLET_UPDATE_MOVEMENT {
            self.y = self.y + BULLET_UPDATE_MOVEMENT;
        } else {
            self.y = self.max_y;
        }
        self.y < self.max_y
    }

    pub fn x(&self) -> (r: u32)
        ensures
            r == self.x,
    {
        self.x
    }

    pub fn y(&self) -> (r: u32)
        ensures
            r == self.y,
    {
        self.y
    }

    /// Circle collision test against another projectile.
    pub fn collides_with(&self, other: &Self) -> (r: bool)
        ensures
            r == collides(*self, *other),
    {
        let r1 = self.radius as i128 + other.radius as i128;
        let dx = self.x as i128 - other.x as i128;
        let dy = self.y as i128 - other.y as i128;
        proof {
            assert(r1 * r1 <= 0x40000000000000000 && dx * dx <= 0x40000000000000000 && dy * dy
                <= 0x40000000000000000 && r1 * r1 >= 0 && dx * dx >= 0 && dy * dy >= 0)
                by (nonlinear_arith)
                requires
                    -0x200000000 <= r1 <= 0x200000000,
                    -0x200000000 <= dx <= 0x200000000,
                    -0x200000000 <= dy <= 0x200000000,
            ;
        }
        r1 * r1 > dx * dx + dy * dy
    }
}

} // verus!
