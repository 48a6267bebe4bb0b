use vstd::prelude::*;
use crate::geometry::Offset;
use vstd::arithmetic::div_mod::{lemma_fundamental_div_mod, lemma_fundamental_div_mod_converse, lemma_mod_pos_bound};

verus! {

/// Ticks between two shots of a turret built with `Turret::default`.
pub const DEFAULT_TICKS_TO_SHOOT: i32 = 30;

/// Why a turret configuration was refused.
#[derive(Clone, Copy, Debug, PartialEq, Eq, Structural)]
pub enum TurretError {
    /// No muzzle offset was given.
    NoOffsets,
    /// The cooldown was zero or negative.
    NonPositiveCooldown,
}

/// Timed projectile emitter that cycles through its muzzle offsets.
///
/// Every call of `shoot` is one tick: the counter of ticks since the last
/// shot grows, and once it has reached `ticks_to_shoot` while the turret is
/// shooting, the turret fires, resets the counter and counts the shot. The
/// offset of a shot is chosen by the shot count *after* it was incremented.
pub struct Turret {
    pub bullet_spawn_offsets: Vec<Offset>,
    pub ticks_to_shoot: i32,
    pub ticks_since_shot: i32,
    pub is_shooting: bool,
    pub total_shot: usize,
}

/// The tick counter after one tick; it stops growing at the top of its range.
pub open spec fn ticked(ticks: int) -> int {
    if ticks < i32::MAX {
        ticks + 1
    } else {
        ticks
    }
}

/// The index of the offset used by the shot that brought the count to `total`.
pub open spec fn chosen_index(total: int, len: int) -> int {
    total % len
}

impl Turret {
    /// The configuration is usable: at least one offset and a positive cooldown.
    pub open spec fn wf(&self) -> bool {
        &&& self.bullet_spawn_offsets@.len() > 0
        &&& self.ticks_to_shoot > 0
    }

    /// Whether the next tick fires.
    pub open spec fn fires(&self) -> bool {
        &&& self.ticks_to_shoot <= ticked(self.ticks_since_shot as int)
        &&& self.is_shooting
    }

    /// The offset of the shot that brings the shot count to `total`.
    pub open spec fn offset_for(&self, total: int) -> Offset {
        self.bullet_spawn_offsets@[chosen_index(total, self.bullet_spawn_offsets@.len() as int)]
    }

    /// The turret after one tick.
    pub open spec fn step(self) -> Turret {
        if self.fires() {
            Turret { ticks_since_shot: 0, total_shot: (self.total_shot + 1) as usize, ..self }
        } else {
            Turret { ticks_since_shot: ticked(self.ticks_since_shot as int) as i32, ..self }
        }
    }

    /// The turret after `n` ticks.
    pub open spec fn run(self, n: nat) -> Turret
        decreases n,
    {
        if n == 0 {
            self
        } else {
            self.run((n - 1) as nat).step()
        }
    }

    /// A turret with the given offsets and cooldown, idle and with no shot
    /// fired; refused when there is no offset or the cooldown is not positive.
    pub fn new(bullet_spawn_offsets: Vec<Offset>, ticks_to_shoot: i32) -> (r: Result<Turret, TurretError>)
        ensures
            bullet_spawn_offsets@.len() == 0 <==> r matches Err(TurretError::NoOffsets),
            bullet_spawn_offsets@.len() > 0 && ticks_to_shoot <= 0
                <==> r matches Err(TurretError::NonPositiveCooldown),
            r is Ok <==> bullet_spawn_offsets@.len() > 0 && ticks_to_shoot > 0,
            r matches Ok(t) ==> {
                &&& t.wf()
                &&& t.bullet_spawn_offsets@ == bullet_spawn_offsets@
                &&& t.ticks_to_shoot == ticks_to_shoot
                &&& t.ticks_since_shot == 0
                &&& !t.is_shooting
                &&& t.total_shot == 0
            },
    {
        if bullet_spawn_offsets.len() == 0 {
            Err(TurretError::NoOffsets)
        } else if ticks_to_shoot <= 0 {
            Err(TurretError::NonPositiveCooldown)
        } else {
            Ok(
                Turret {
                    bullet_spawn_offsets,
                    ticks_to_shoot,
                    ticks_since_shot: 0,
                    is_shooting: false,
                    total_shot: 0,
                },
            )
        }
    }

    /// Advances the tick counter by one, holding it at the top of its range.
    fn tick(&mut self)
        ensures
            *final(self) == (Turret {
                ticks_since_shot: ticked(old(self).ticks_since_shot as int) as i32,
                ..*old(self)
            }),
    {
        if self.ticks_since_shot < i32::MAX {
            self.ticks_since_shot = self.ticks_since_shot + 1;
        }
    }

    /// One tick of the turret: returns the muzzle offset of the shot fired on
    /// this tick, or `None` when it does not fire.
    pub fn shoot(&mut self) -> (r: Option<Offset>)
        requires
            old(self).wf(),
            old(self).total_shot < usize::MAX,
        ensures
            *final(self) == old(self).step(),
            final(self).wf(),
            r is Some <==> old(self).fires(),
            old(self).fires() ==> {
                &&& final(self).total_shot == old(self).total_shot + 1
                &&& final(self).ticks_since_shot == 0
                &&& r == Some(old(self).offset_for(old(self).total_shot + 1))
            },
            !old(self).fires() ==> {
                &&& final(self).total_shot == old(self).total_shot
                &&& final(self).ticks_since_shot == ticked(old(self).ticks_since_shot as int)
            },
    {
        self.tick();
        if self.ticks_to_shoot <= self.ticks_since_shot && self.is_shooting {
            self.ticks_since_shot = 0;
            self.total_shot = self.total_shot + 1;
            Some(self.choose_bullet_offset())
        } else {
            None
        }
    }

    /// The offset that the current shot count selects.
    fn choose_bullet_offset(&self) -> (r: Offset)
        requires
            self.wf(),
        ensures
            r == self.offset_for(self.total_shot as int),
    {
        self.bullet_spawn_offsets[self.total_shot % self.bullet_spawn_offsets.len()]
    }

    /// Turns firing on or off, as the trigger is held or released.
    pub fn set_shooting(&mut self, pressed: bool)
        ensures
            *final(self) == (Turret { is_shooting: pressed, ..*old(self) }),
    {
        self.is_shooting = pressed;
    }
}

impl Default for Turret {
    /// Two symmetric muzzles, a cooldown of thirty ticks, idle, nothing fired.
    fn default() -> (r: Turret)
        ensures
            r.bullet_spawn_offsets@ == seq![Offset { x: 25, y: 30 }, Offset { x: -25i32, y: 30 }],
            r.ticks_to_shoot == DEFAULT_TICKS_TO_SHOOT,
            r.ticks_since_shot == 0,
            !r.is_shooting,
            r.total_shot == 0,
            r.wf(),
    {
        let mut offsets: Vec<Offset> = Vec::new();
        offsets.push(Offset::new(25, 30));
        offsets.push(Offset::new(-25, 30));
        proof {
            assert(offsets@ =~= seq![Offset { x: 25, y: 30 }, Offset { x: -25i32, y: 30 }]);
        }
        Turret {
            bullet_spawn_offsets: offsets,
            ticks_to_shoot: DEFAULT_TICKS_TO_SHOOT,
            ticks_since_shot: 0,
            is_shooting: false,
            total_shot: 0,
        }
    }
}

/// Facts on one tick of a counter that restarts at zero every `k` ticks.
proof fn lemma_tick_mod(n: int, k: int)
    requires
        n >= 1,
        k > 0,
    ensures
        (n - 1) % k == k - 1 ==> n % k == 0 && n / k == (n - 1) / k + 1,
        (n - 1) % k != k - 1 ==> n % k == (n - 1) % k + 1 && n / k == (n - 1) / k,
        0 <= (n - 1) % k < k,
{
    lemma_fundamental_div_mod(n - 1, k);
    lemma_mod_pos_bound(n - 1, k);
    let q = (n - 1) / k;
    let r = (n - 1) % k;
    if r == k - 1 {
        assert(n == (q + 1) * k + 0) by (nonlinear_arith)
            requires
                n - 1 == k * q + r,
                r == k - 1,
        ;
        lemma_fundamental_div_mod_converse(n, k, q + 1, 0);
    } else {
        assert(n == q * k + (r + 1)) by (nonlinear_arith)
            requires
                n - 1 == k * q + r,
        ;
        lemma_fundamental_div_mod_converse(n, k, q, r + 1);
    }
}

/// A shooting turret that starts with its counter at zero fires on tick `n`
/// (counting the first tick as one) exactly when `n` is a multiple of its
/// cooldown `k`: first on tick `k`, then every `k` ticks and never more
/// often. After `n` ticks it has fired `n / k` times and its counter is
/// `n % k`.
pub proof fn lemma_cooldown(t: Turret, n: nat)
    requires
        t.wf(),
        t.is_shooting,
        t.ticks_since_shot == 0,
        t.total_shot + n <= usize::MAX,
    ensures
        t.run(n).ticks_since_shot == (n as int) % (t.ticks_to_shoot as int),
        t.run(n).total_shot == t.total_shot + (n as int) / (t.ticks_to_shoot as int),
        t.run(n).bullet_spawn_offsets == t.bullet_spawn_offsets,
        t.run(n).ticks_to_shoot == t.ticks_to_shoot,
        t.run(n).is_shooting,
        n >= 1 ==> (t.run((n - 1) as nat).fires() <==> (n as int) % (t.ticks_to_shoot as int) == 0),
    decreases n,
{
    let k = t.ticks_to_shoot as int;
    if n > 0 {
        lemma_cooldown(t, (n - 1) as nat);
        lemma_tick_mod(n as int, k);
        let prev = t.run((n - 1) as nat);
        assert(ticked(prev.ticks_since_shot as int) == prev.ticks_since_shot + 1);
    } else {
        assert(0int % k == 0) by {
            lemma_fundamental_div_mod_converse(0, k, 0, 0);
        }
        assert(0int / k == 0) by {
            lemma_fundamental_div_mod_converse(0, k, 0, 0);
        }
    }
}

/// A turret that is never shooting never fires, however many ticks pass:
/// its shot count stays where it was.
pub proof fn lemma_inactive_never_fires(t: Turret, n: nat)
    requires
        !t.is_shooting,
    ensures
        !t.run(n).fires(),
        !t.run(n).is_shooting,
        t.run(n).total_shot == t.total_shot,
    decreases n,
{
    if n > 0 {
        lemma_inactive_never_fires(t, (n - 1) as nat);
    }
}

/// How many of the shots `s + 1 ..= s + n` select offset `idx` out of `len`.
pub open spec fn hits(s: int, len: int, idx: int, n: nat) -> nat
    decreases n,
{
    if n == 0 {
        0
    } else {
        hits(s, len, idx, (n - 1) as nat) + if chosen_index(s + n, len) == idx {
            1nat
        } else {
            0nat
        }
    }
}

/// Within `len` consecutive shots each offset is selected once.
proof fn lemma_hits_block(s: int, len: int, idx: int, n: nat)
    requires
        s >= 0,
        len > 0,
        0 <= idx < len,
        n <= len,
    ensures
        ({
            let r = s % len;
            let first = if idx > r {
                idx - r
            } else {
                idx - r + len
            };
            hits(s, len, idx, n) == if n >= first {
                1nat
            } else {
                0nat
            }
        }),
    decreases n,
{
    lemma_fundamental_div_mod(s, len);
    lemma_mod_pos_bound(s, len);
    if n > 0 {
        lemma_hits_block(s, len, idx, (n - 1) as nat);
        let q = s / len;
        let r = s % len;
        if r + n < len {
            assert(s + n == q * len + (r + n)) by (nonlinear_arith)
                requires
                    s == len * q + r,
            ;
            lemma_fundamental_div_mod_converse(s + n, len, q, r + n);
        } else {
            assert(s + n == (q + 1) * len + (r + n - len)) by (nonlinear_arith)
                requires
                    s == len * q + r,
            ;
            lemma_fundamental_div_mod_converse(s + n, len, q + 1, r + n - len);
        }
    }
}

/// Adding `len` shots adds exactly one selection of each offset.
proof fn lemma_hits_shift(s: int, len: int, idx: int, n: nat)
    requires
        s >= 0,
        len > 0,
        0 <= idx < len,
    ensures
        hits(s, len, idx, n + len as nat) == hits(s, len, idx, n) + 1,
    decreases n,
{
    if n == 0 {
        lemma_hits_block(s, len, idx, len as nat);
        lemma_mod_pos_bound(s, len);
    } else {
        lemma_hits_shift(s, len, idx, (n - 1) as nat);
        let a = s + n;
        lemma_fundamental_div_mod(a, len);
        lemma_mod_pos_bound(a, len);
        let q = a / len;
        let r = a % len;
        assert(a + len == (q + 1) * len + r) by (nonlinear_arith)
            requires
                a == len * q + r,
        ;
        lemma_fundamental_div_mod_converse(a + len, len, q + 1, r);
        assert((n + len as nat - 1) as nat == (n - 1) as nat + len as nat);
    }
}

/// Counting and order of the offset indices picked by consecutive shots.
proof fn lemma_hits_cycle(s: nat, len: nat, m: nat, idx: nat)
    requires
        len > 0,
        idx < len,
    ensures
        hits(s as int, len as int, idx as int, m * len) == m,
        forall|j: int|
            j >= 0 ==> #[trigger] chosen_index(s + j + 1, len as int) == (chosen_index(
                s + j,
                len as int,
            ) + 1) % (len as int),
    decreases m,
{
    if m > 0 {
        lemma_hits_cycle(s, len, (m - 1) as nat, idx);
        assert(m * len == (m - 1) * len + len) by (nonlinear_arith);
        lemma_hits_shift(s as int, len as int, idx as int, ((m - 1) * len) as nat);
    } else {
        assert(0 * len == 0);
    }
    assert forall|j: int| j >= 0 implies #[trigger] chosen_index(s + j + 1, len as int) == (
    chosen_index(s + j, len as int) + 1) % (len as int) by {
        let a = s + j;
        lemma_fundamental_div_mod(a, len as int);
        lemma_mod_pos_bound(a, len as int);
        let q = a / len as int;
        let r = a % len as int;
        if r + 1 < len {
            assert(a + 1 == q * len + (r + 1)) by (nonlinear_arith)
                requires
                    a == len * q + r,
            ;
            lemma_fundamental_div_mod_converse(a + 1, len as int, q, r + 1);
            lemma_fundamental_div_mod_converse(r + 1, len as int, 0, r + 1);
        } else {
            assert(a + 1 == (q + 1) * len + 0) by (nonlinear_arith)
                requires
                    a == len * q + r,
                    r + 1 == len,
            ;
            lemma_fundamental_div_mod_converse(a + 1, len as int, q + 1, 0);
            lemma_fundamental_div_mod_converse(r + 1, len as int, 1, 0);
        }
    }
}

/// Over `m * len` consecutive shots of a turret with `len` offsets, from any
/// shot count, every offset is selected exactly `m` times. The shots take the
/// offsets in cyclic order, and the first one takes the index after the
/// current count, so a turret that has not fired yet starts at index one.
pub proof fn lemma_round_robin(t: Turret, m: nat, idx: nat)
    requires
        t.wf(),
        idx < t.bullet_spawn_offsets@.len(),
    ensures
        ({
            let len = t.bullet_spawn_offsets@.len() as int;
            &&& hits(t.total_shot as int, len, idx as int, m * (len as nat)) == m
            &&& forall|j: int|
                j >= 0 ==> #[trigger] chosen_index(t.total_shot + j + 1, len) == (chosen_index(
                    t.total_shot + j,
                    len,
                ) + 1) % len
            &&& t.total_shot == 0 ==> chosen_index(t.total_shot + 1, len) == 1int % len
        }),
{
    lemma_hits_cycle(t.total_shot as nat, t.bullet_spawn_offsets@.len(), m, idx);
}

} // verus!
