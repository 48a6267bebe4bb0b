use vstd::prelude::*;

verus! {

/// Ticks that a newly fired projectile lives.
pub const BULLET_LIFE: i32 = 600;

/// Nominal travel speed recorded on a newly fired projectile.
pub const BULLET_SPEED: u32 = 300;

/// A projectile's own state: its nominal speed and the ticks it has left.
#[derive(Clone, Copy, Debug, PartialEq, Eq, Structural)]
pub struct Bullet {
    pub speed: u32,
    pub life: i32,
}

impl Bullet {
    /// The bullet after `n` ticks of aging.
    pub open spec fn aged(self, n: nat) -> Bullet
        decreases n,
    {
        if n == 0 {
            self
        } else {
            let p = self.aged((n - 1) as nat);
            Bullet { life: (p.life - 1) as i32, ..p }
        }
    }

    /// A projectile as a turret fires it.
    pub fn fired() -> (r: Bullet)
        ensures
            r.speed == BULLET_SPEED,
            r.life == BULLET_LIFE,
    {
        Bullet { speed: BULLET_SPEED, life: BULLET_LIFE }
    }

    /// One tick of aging: the remaining life drops by one, and the result
    /// says whether the projectile is spent and is to be removed.
    pub fn age(&mut self) -> (expired: bool)
        requires
            old(self).life > i32::MIN,
        ensures
            *final(self) == old(self).aged(1),
            final(self).life == old(self).life - 1,
            final(self).speed == old(self).speed,
            expired == (final(self).life <= 0),
    {
        proof {
            assert(old(self).aged(0) == *old(self));
        }
        self.life = self.life - 1;
        self.life <= 0
    }
}

/// A projectile fired with `life` ticks to live, `life` at least one, stays
/// for ticks `1 .. life` and is spent on tick `life`, when its remaining life
/// is zero: no reader of a live projectile sees a negative life.
pub proof fn lemma_bullet_lifetime(b: Bullet, n: nat)
    requires
        b.life >= 1,
        n <= b.life,
    ensures
        b.aged(n).life == b.life - n,
        b.aged(n).speed == b.speed,
        b.aged(n).life >= 0,
        n < b.life ==> b.aged(n).life > 0,
        n == b.life ==> b.aged(n).life == 0,
    decreases n,
{
    if n > 0 {
        lemma_bullet_lifetime(b, (n - 1) as nat);
    }
}

} // verus!
