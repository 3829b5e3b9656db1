//! The state an AI character carries.

use crate::ability::ability::AbilityType;
use crate::ability::service::half_toward_zero;
use crate::geometry::Vec2;
use vstd::prelude::*;

verus! {

/// A point, as the bit patterns of its two `f32` coordinates.
pub type Point = Vec2;

/// A broadcast the broker delivered to one AI character.
pub struct InboundMessage {
    pub topic: [u8; 32],
    pub payload: Vec<u8>,
}

/// The waypoints an AI character patrols, in a cycle, and the one it heads
/// for.
pub struct PatrolRoute {
    pub waypoints: Vec<Point>,
    pub current: usize,
}

/// What an AI character's behaviour tree wants done.
#[derive(Debug, Clone, Copy, PartialEq, Eq, Structural)]
pub enum AiIntent {
    MoveTo(Point),
    CastAbility(AbilityType, Option<Point>),
    Idle,
}

/// An AI character's vital statistics.
#[derive(Debug, Clone, Copy, PartialEq, Eq, Structural)]
pub struct AiStats {
    pub health: i32,
    pub max_health: i32,
    pub mana: i32,
}

impl PatrolRoute {
    /// A route heads for one of its waypoints.
    pub open spec fn wf(&self) -> bool {
        self.current < self.waypoints@.len()
    }

    /// The waypoint the route heads for.
    pub fn target(&self) -> (p: Point)
        requires
            self.wf(),
        ensures
            p == self.waypoints@[self.current as int],
    {
        self.waypoints[self.current]
    }

    /// Heads for the next waypoint, back to the first after the last.
    pub fn advance(&mut self)
        requires
            old(self).wf(),
        ensures
            final(self).wf(),
            final(self).waypoints@ == old(self).waypoints@,
            final(self).current == (old(self).current + 1) % (old(self).waypoints@.len() as int),
    {
        let n = self.waypoints.len();
        self.current = (self.current + 1) % n;
    }
}

impl AiStats {
    /// The stats an AI character starts with.
    pub fn spawned() -> (s: AiStats)
        ensures
            s == (AiStats { health: 100, max_health: 100, mana: 50 }),
    {
        AiStats { health: 100, max_health: 100, mana: 50 }
    }

    /// Whether health is below half its maximum, the half rounded toward
    /// zero.
    pub fn is_low_health(&self) -> (b: bool)
        ensures
            b == (self.health < half_toward_zero(self.max_health as int)),
    {
        let m = self.max_health as i64;
        let half: i64 = if m >= 0 {
            m / 2
        } else {
            -((-m) / 2)
        };
        (self.health as i64) < half
    }
}

/// One step of a patrol: when the character has reached the waypoint it
/// heads for, the route moves on; the character is then told to move to
/// the route's waypoint.
pub fn patrol_step(route: &mut PatrolRoute, reached: bool) -> (i: AiIntent)
    requires
        old(route).wf(),
    ensures
        final(route).wf(),
        final(route).waypoints@ == old(route).waypoints@,
        final(route).current == (if reached {
            ((old(route).current + 1) % (old(route).waypoints@.len() as int)) as usize
        } else {
            old(route).current
        }),
        i == AiIntent::MoveTo(final(route).waypoints@[final(route).current as int]),
{
    if reached {
        route.advance();
    }
    AiIntent::MoveTo(route.target())
}

/// The waypoint index after `k` steps along a route of `len` waypoints.
pub open spec fn advanced(current: int, len: int, k: nat) -> int
    decreases k,
{
    if k == 0 {
        current
    } else {
        (advanced(current, len, (k - 1) as nat) + 1) % len
    }
}

proof fn lemma_advanced(current: int, len: int, k: nat)
    requires
        0 <= current < len,
    ensures
        advanced(current, len, k) == (current + k) % len,
    decreases k,
{
    if k > 0 {
        lemma_advanced(current, len, (k - 1) as nat);
        let a = current + k - 1;
        assert(((a % len) + 1) % len == (a + 1) % len) by {
            vstd::arithmetic::div_mod::lemma_add_mod_noop(a, 1, len);
            vstd::arithmetic::div_mod::lemma_mod_twice(a, len);
            if len > 1 {
                vstd::arithmetic::div_mod::lemma_small_mod(1, len as nat);
            }
        }
    } else {
        vstd::arithmetic::div_mod::lemma_small_mod(current as nat, len as nat);
    }
}

/// A patrol comes back to where it started: stepping once per waypoint
/// returns the route to the waypoint it headed for.
pub proof fn law_patrol_returns_to_start(current: int, len: int)
    requires
        0 <= current < len,
    ensures
        advanced(current, len, len as nat) == current,
{
    lemma_advanced(current, len, len as nat);
    assert((current + len) % len == current) by {
        vstd::arithmetic::div_mod::lemma_mod_add_multiples_vanish(current, len);
        vstd::arithmetic::div_mod::lemma_small_mod(current as nat, len as nat);
    }
}

} // verus!
