use vstd::prelude::*;

use crate::flags::CollisionFlags;
use crate::geom::{Vec2i, pos_in_range, size_in_range};

verus! {

/// Weight given to colliders that must never yield and that anchor (lock)
/// every side they push on: immovable geometry and death zones.
pub const WEIGHT_INFINITE: u64 = u64::MAX;

/// Weight of sensors and win zones: heavy enough to never be displaced,
/// but without the anchoring behaviour of [`WEIGHT_INFINITE`], so their
/// contact record starts each tick empty and shows what touched them.
pub const WEIGHT_TERMINAL: u64 = u64::MAX - 1;

/// Bodies at least this heavy count as static: they go into the spatial
/// grid instead of the movable working set.
pub const STATIC_THRESHOLD: u64 = 1000;

/// Largest velocity magnitude, in world units per second, the integrator
/// keeps; faster values are clamped when gravity or drag would exceed it.
pub const VEL_LIMIT: i64 = 0x400_0000_0000;

/// Largest drag coefficient, in thousandths per second.
pub const DRAG_LIMIT: i64 = 100_000;

/// Largest gravity acceleration, in world units per tick.
pub const GRAVITY_LIMIT: i64 = 1_000_000;

/// Longest frame delta, in milliseconds, a tick accepts.
pub const DT_LIMIT_MS: u32 = 1000;

/// What a collider does when something overlaps it.
#[derive(Debug, Clone, Copy, PartialEq, Eq, Structural)]
pub enum ColliderKind {
    /// Blocks movement; the weight decides who yields when two movable
    /// bodies push each other. Weights at or above [`STATIC_THRESHOLD`]
    /// are treated as immovable terrain.
    Movable(u64),
    /// Ends the run when the tracked player touches it.
    Death,
    /// Records contact without blocking movement; buttons watch it.
    Sensor,
    /// Ends the level on contact.
    Win,
    /// No collision response at all; doors use it while open.
    Inert,
}

impl ColliderKind {
    /// The push priority of this kind. Death zones anchor like immovable
    /// terrain; sensors and win zones are merely never displaced; inert
    /// colliders weigh nothing.
    pub open spec fn spec_weight(self) -> u64 {
        match self {
            ColliderKind::Movable(w) => w,
            ColliderKind::Death => WEIGHT_INFINITE,
            ColliderKind::Sensor => WEIGHT_TERMINAL,
            ColliderKind::Win => WEIGHT_TERMINAL,
            ColliderKind::Inert => 0,
        }
    }

    pub fn weight(self) -> (r: u64)
        ensures
            r == self.spec_weight(),
    {
        match self {
            ColliderKind::Movable(w) => w,
            ColliderKind::Death => WEIGHT_INFINITE,
            ColliderKind::Sensor => WEIGHT_TERMINAL,
            ColliderKind::Win => WEIGHT_TERMINAL,
            ColliderKind::Inert => 0,
        }
    }

    /// Whether a collider of this kind blocks and displaces: only movable
    /// colliders take part in pushing.
    pub open spec fn spec_blocks(self) -> bool {
        self is Movable
    }
}

impl Default for ColliderKind {
    /// Colliders default to immovable terrain.
    fn default() -> (r: ColliderKind)
        ensures
            r == ColliderKind::Movable(WEIGHT_INFINITE),
    {
        ColliderKind::Movable(WEIGHT_INFINITE)
    }
}

/// The collision shape and state of one entity: a centered axis-aligned
/// box, the response kind, and the contact record of the current tick.
#[derive(Debug, Clone, Copy, PartialEq, Eq, Structural)]
pub struct Collider {
    pub size: Vec2i,
    pub kind: ColliderKind,
    pub flags: CollisionFlags,
}

impl Collider {
    pub open spec fn spec_weight(self) -> u64 {
        self.kind.spec_weight()
    }

    pub fn weight(&self) -> (r: u64)
        ensures
            r == self.spec_weight(),
    {
        self.kind.weight()
    }
}

/// Per-entity motion state. `linvel` is in world units per second; `drag`
/// is a per-axis damping coefficient in thousandths per second.
#[derive(Debug, Clone, Copy, PartialEq, Eq, Structural)]
pub struct Velocity {
    pub linvel: Vec2i,
    pub drag: Vec2i,
}

impl Default for Velocity {
    /// At rest, with the stock damping of 0.95 per second on both axes.
    fn default() -> (r: Velocity)
        ensures
            r == (Velocity { linvel: Vec2i { x: 0, y: 0 }, drag: Vec2i { x: 950, y: 950 } }),
    {
        Velocity { linvel: Vec2i { x: 0, y: 0 }, drag: Vec2i { x: 950, y: 950 } }
    }
}

/// Constant downward acceleration, in world units per tick.
#[derive(Debug, Clone, Copy, PartialEq, Eq, Structural)]
pub struct Gravity(pub i64);

impl Default for Gravity {
    fn default() -> (r: Gravity)
        ensures
            r == Gravity(100),
    {
        Gravity(100)
    }
}

/// One simulated entity: a placed collider, and optionally motion state.
/// Bodies without a velocity never have their position written; bodies
/// without gravity simply do not fall.
#[derive(Debug, Clone, Copy, PartialEq, Eq, Structural)]
pub struct Body {
    pub position: Vec2i,
    pub collider: Collider,
    pub velocity: Option<Velocity>,
    pub gravity: Option<Gravity>,
}

impl Body {
    /// Whether the solver iterates this body as part of the movable
    /// working set (light) rather than filing it in the spatial grid
    /// (heavy or special).
    pub open spec fn spec_is_movable(self) -> bool {
        self.collider.spec_weight() < STATIC_THRESHOLD
    }

    pub fn is_movable(&self) -> (r: bool)
        ensures
            r == self.spec_is_movable(),
    {
        self.collider.weight() < STATIC_THRESHOLD
    }
}

pub open spec fn velocity_in_range(v: Velocity) -> bool {
    &&& -VEL_LIMIT <= v.linvel.x <= VEL_LIMIT
    &&& -VEL_LIMIT <= v.linvel.y <= VEL_LIMIT
    &&& 0 <= v.drag.x <= DRAG_LIMIT
    &&& 0 <= v.drag.y <= DRAG_LIMIT
}

/// A body the engine can simulate: bounded position, positive bounded
/// size, and bounded motion state where present.
pub open spec fn body_wf(b: Body) -> bool {
    &&& pos_in_range(b.position)
    &&& size_in_range(b.collider.size)
    &&& match b.velocity {
        Some(v) => velocity_in_range(v),
        None => true,
    }
    &&& match b.gravity {
        Some(g) => 0 <= g.0 <= GRAVITY_LIMIT,
        None => true,
    }
}

/// The full entity set of one tick, keyed by index.
#[derive(Debug, PartialEq, Eq)]
pub struct World {
    pub bodies: Vec<Body>,
}

pub open spec fn world_wf(w: World) -> bool {
    forall|i: int| 0 <= i < w.bodies.len() ==> body_wf(#[trigger] w.bodies[i])
}

impl World {
    pub fn new() -> (r: World)
        ensures
            r.bodies@.len() == 0,
            world_wf(r),
    {
        World { bodies: Vec::new() }
    }

    /// Adds a body and returns its index, the id every later query uses.
    pub fn add(&mut self, b: Body) -> (id: usize)
        requires
            body_wf(b),
        ensures
            final(self).bodies@ == old(self).bodies@.push(b),
            id == old(self).bodies@.len(),
            world_wf(*old(self)) ==> world_wf(*final(self)),
    {
        let id = self.bodies.len();
        self.bodies.push(b);
        proof {
            assert(forall|i: int|
                0 <= i < old(self).bodies@.len() ==> final(self).bodies@[i] == old(
                    self,
                ).bodies@[i]);
        }
        id
    }

    pub fn len(&self) -> (r: usize)
        ensures
            r == self.bodies@.len(),
    {
        self.bodies.len()
    }

    pub fn get(&self, id: usize) -> (r: Body)
        requires
            id < self.bodies@.len(),
        ensures
            r == self.bodies@[id as int],
    {
        self.bodies[id]
    }
}

} // verus!
