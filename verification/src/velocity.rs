use vstd::prelude::*;

use vstd::arithmetic::div_mod::{
    lemma_div_pos_is_pos, lemma_fundamental_div_mod, lemma_fundamental_div_mod_converse,
    lemma_mod_division_less_than_divisor,
};

use crate::geom::{POS_LIMIT, Vec2i};
use crate::world::{Body, DRAG_LIMIT, DT_LIMIT_MS, VEL_LIMIT, Velocity, World, world_wf};

verus! {

/// Integer division truncated toward zero, for a positive divisor. This is
/// the rounding every kinematic conversion uses, so that positive and
/// negative quantities round symmetrically and no drift accumulates in one
/// direction.
pub open spec fn trunc_div(a: int, b: int) -> int {
    if a >= 0 {
        a / b
    } else {
        -((-a) / b)
    }
}

pub open spec fn clamp_spec(v: int, lo: int, hi: int) -> int {
    if v < lo {
        lo
    } else if v > hi {
        hi
    } else {
        v
    }
}

/// The tentative whole-unit displacement along one axis for a frame:
/// velocity in units per second times the frame delta in milliseconds,
/// truncated toward zero.
pub open spec fn step_displacement_spec(v: int, dt_ms: int) -> int {
    trunc_div(v * dt_ms, 1000)
}

/// The velocity, in units per second, that explains a displacement of `d`
/// units over `dt_ms` milliseconds, truncated toward zero.
pub open spec fn derived_velocity_spec(d: int, dt_ms: int) -> int {
    trunc_div(d * 1000, dt_ms)
}

/// One frame of multiplicative damping: the velocity loses
/// `v * drag * dt` scaled by the two thousandths factors, and the result
/// is clamped into the representable velocity range.
pub open spec fn drag_decay_spec(v: int, drag: int, dt_ms: int) -> int {
    clamp_spec(
        v - trunc_div(trunc_div(v * drag, 1000) * dt_ms, 1000),
        -VEL_LIMIT as int,
        VEL_LIMIT as int,
    )
}

/// With no time elapsed, drag takes nothing: the decay of any in-range
/// velocity over a zero-length frame is the velocity itself.
pub proof fn lemma_drag_zero(v: int, drag: int)
    requires
        -VEL_LIMIT <= v <= VEL_LIMIT,
    ensures
        drag_decay_spec(v, drag, 0) == v,
{
    let q1 = trunc_div(v * drag, 1000);
    assert(q1 * 0 == 0) by (nonlinear_arith);
    lemma_fundamental_div_mod_converse(0, 1000, 0, 0);
    assert(trunc_div(0, 1000) == 0);
}

/// The quotient of a truncated division keeps the sign of the dividend
/// and its product with the divisor never exceeds the dividend in
/// magnitude.
pub proof fn lemma_trunc_div_abs(a: int, b: int)
    requires
        b >= 1,
    ensures
        a >= 0 ==> 0 <= trunc_div(a, b) && b * trunc_div(a, b) <= a,
        a < 0 ==> trunc_div(a, b) <= 0 && b * -trunc_div(a, b) <= -a,
        -trunc_div(a, b) <= -a || trunc_div(a, b) <= a,
        a >= 0 ==> trunc_div(a, b) <= a,
        a < 0 ==> -trunc_div(a, b) <= -a,
{
    let m = if a >= 0 {
        a
    } else {
        -a
    };
    lemma_fundamental_div_mod(m, b);
    lemma_mod_division_less_than_divisor(m, b);
    lemma_div_pos_is_pos(m, b);
    let q = m / b;
    assert(q <= b * q) by (nonlinear_arith)
        requires
            q >= 0,
            b >= 1,
    ;
}

/// Runtime truncated division by a positive divisor.
fn trunc_div_exec(a: i64, b: u64) -> (r: i64)
    requires
        1 <= b,
        i64::MIN < a,
    ensures
        r == trunc_div(a as int, b as int),
{
    proof {
        lemma_trunc_div_abs(a as int, b as int);
    }
    if a >= 0 {
        ((a as u64) / b) as i64
    } else {
        let m: u64 = (-a) as u64;
        -((m / b) as i64)
    }
}

pub fn step_displacement(v: i64, dt_ms: u32) -> (r: i64)
    requires
        -VEL_LIMIT <= v <= VEL_LIMIT,
        dt_ms <= DT_LIMIT_MS,
    ensures
        r == step_displacement_spec(v as int, dt_ms as int),
        -VEL_LIMIT <= r <= VEL_LIMIT,
{
    proof {
        assert(-(VEL_LIMIT * DT_LIMIT_MS as int) <= v * dt_ms <= VEL_LIMIT * DT_LIMIT_MS as int)
            by (nonlinear_arith)
            requires
                -VEL_LIMIT <= v <= VEL_LIMIT,
                0 <= dt_ms <= DT_LIMIT_MS,
        ;
        lemma_trunc_div_abs(v as int * dt_ms as int, 1000);
    }
    let prod: i64 = v * (dt_ms as i64);
    trunc_div_exec(prod, 1000)
}

pub fn derive_velocity(d: i64, dt_ms: u32) -> (r: i64)
    requires
        1 <= dt_ms <= DT_LIMIT_MS,
        -2 * POS_LIMIT <= d <= 2 * POS_LIMIT,
    ensures
        r == derived_velocity_spec(d as int, dt_ms as int),
        -VEL_LIMIT <= r <= VEL_LIMIT,
{
    proof {
        lemma_trunc_div_abs(d as int * 1000, dt_ms as int);
    }
    let prod: i64 = d * 1000;
    trunc_div_exec(prod, dt_ms as u64)
}

pub fn drag_decay(v: i64, drag: i64, dt_ms: u32) -> (r: i64)
    requires
        -VEL_LIMIT <= v <= VEL_LIMIT,
        0 <= drag <= DRAG_LIMIT,
        dt_ms <= DT_LIMIT_MS,
    ensures
        r == drag_decay_spec(v as int, drag as int, dt_ms as int),
        -VEL_LIMIT <= r <= VEL_LIMIT,
{
    proof {
        assert(-(VEL_LIMIT * DRAG_LIMIT as int) <= v * drag <= VEL_LIMIT * DRAG_LIMIT as int)
            by (nonlinear_arith)
            requires
                -VEL_LIMIT <= v <= VEL_LIMIT,
                0 <= drag <= DRAG_LIMIT,
        ;
        lemma_trunc_div_abs(v as int * drag as int, 1000);
    }
    let q1: i64 = trunc_div_exec(v * drag, 1000);
    proof {
        // 1000 * |q1| <= |v * drag| bounds q1 itself after dividing by the
        // literal factor.
        assert(-(VEL_LIMIT * DRAG_LIMIT as int) <= 1000 * (q1 as int) <= VEL_LIMIT
            * DRAG_LIMIT as int);
        assert(-(VEL_LIMIT * DRAG_LIMIT as int) <= q1 as int * dt_ms as int <= VEL_LIMIT
            * DRAG_LIMIT as int) by (nonlinear_arith)
            requires
                1000 * (q1 as int) <= VEL_LIMIT * DRAG_LIMIT as int,
                -(VEL_LIMIT * DRAG_LIMIT as int) <= 1000 * (q1 as int),
                0 <= dt_ms <= 1000,
        ;
        lemma_trunc_div_abs(q1 as int * dt_ms as int, 1000);
    }
    let q2: i64 = trunc_div_exec(q1 * (dt_ms as i64), 1000);
    let raw: i64 = v - q2;
    if raw < -VEL_LIMIT {
        -VEL_LIMIT
    } else if raw > VEL_LIMIT {
        VEL_LIMIT
    } else {
        raw
    }
}

/// How a body looks after one application of gravity: the vertical
/// velocity drops by the gravity constant (clamped into range) and
/// everything else is untouched. Bodies without both a velocity and a
/// gravity component are unchanged.
pub open spec fn gravity_applied(b_old: Body, b_new: Body) -> bool {
    match (b_old.velocity, b_old.gravity) {
        (Some(v), Some(g)) => {
            &&& b_new.position == b_old.position
            &&& b_new.collider == b_old.collider
            &&& b_new.gravity == b_old.gravity
            &&& b_new.velocity matches Some(nv) && nv.drag == v.drag && nv.linvel.x
                == v.linvel.x && nv.linvel.y as int == clamp_spec(
                v.linvel.y - g.0,
                -VEL_LIMIT as int,
                VEL_LIMIT as int,
            )
        },
        _ => b_new == b_old,
    }
}

/// Applies gravity to every falling body: subtracts the per-tick
/// acceleration from the vertical velocity, before collision resolution,
/// so that a resting body presses into its support in the same tick.
pub fn update_gravity(world: &mut World)
    requires
        world_wf(*old(world)),
    ensures
        world_wf(*final(world)),
        final(world).bodies@.len() == old(world).bodies@.len(),
        forall|i: int|
            0 <= i < old(world).bodies@.len() ==> gravity_applied(
                old(world).bodies@[i],
                #[trigger] final(world).bodies@[i],
            ),
{
    let n = world.bodies.len();
    let mut i: usize = 0;
    while i < n
        invariant
            n == world.bodies@.len(),
            n == old(world).bodies@.len(),
            i <= n,
            world_wf(*world),
            forall|j: int|
                0 <= j < i ==> gravity_applied(old(world).bodies@[j], #[trigger] world.bodies@[j]),
            forall|j: int| i <= j < n ==> world.bodies@[j] == old(world).bodies@[j],
        decreases n - i,
    {
        let b = world.bodies[i];
        match (b.velocity, b.gravity) {
            (Some(v), Some(g)) => {
                let dropped: i64 = v.linvel.y - g.0;
                let ny: i64 = if dropped < -VEL_LIMIT {
                    -VEL_LIMIT
                } else if dropped > VEL_LIMIT {
                    VEL_LIMIT
                } else {
                    dropped
                };
                let nb = Body {
                    velocity: Some(
                        Velocity { linvel: Vec2i { x: v.linvel.x, y: ny }, drag: v.drag },
                    ),
                    ..b
                };
                world.bodies.set(i, nb);
            },
            _ => {},
        }
        i = i + 1;
    }
}

/// How a body looks after one frame of drag: both velocity components
/// decay by their drag coefficient; everything else is untouched.
pub open spec fn drag_applied(b_old: Body, b_new: Body, dt_ms: int) -> bool {
    match b_old.velocity {
        Some(v) => {
            &&& b_new.position == b_old.position
            &&& b_new.collider == b_old.collider
            &&& b_new.gravity == b_old.gravity
            &&& b_new.velocity matches Some(nv) && nv.drag == v.drag && nv.linvel.x as int
                == drag_decay_spec(v.linvel.x as int, v.drag.x as int, dt_ms)
                && nv.linvel.y as int == drag_decay_spec(v.linvel.y as int, v.drag.y as int, dt_ms)
        },
        None => b_new == b_old,
    }
}

/// Applies drag decay to every moving body, after collision resolution,
/// using the pre-drag velocity and the frame delta.
pub fn apply_drag(world: &mut World, dt_ms: u32)
    requires
        world_wf(*old(world)),
        dt_ms <= DT_LIMIT_MS,
    ensures
        world_wf(*final(world)),
        final(world).bodies@.len() == old(world).bodies@.len(),
        forall|i: int|
            0 <= i < old(world).bodies@.len() ==> drag_applied(
                old(world).bodies@[i],
                #[trigger] final(world).bodies@[i],
                dt_ms as int,
            ),
{
    let n = world.bodies.len();
    let mut i: usize = 0;
    while i < n
        invariant
            n == world.bodies@.len(),
            n == old(world).bodies@.len(),
            i <= n,
            dt_ms <= DT_LIMIT_MS,
            world_wf(*world),
            forall|j: int|
                0 <= j < i ==> drag_applied(
                    old(world).bodies@[j],
                    #[trigger] world.bodies@[j],
                    dt_ms as int,
                ),
            forall|j: int| i <= j < n ==> world.bodies@[j] == old(world).bodies@[j],
        decreases n - i,
    {
        let b = world.bodies[i];
        match b.velocity {
            Some(v) => {
                let nx = drag_decay(v.linvel.x, v.drag.x, dt_ms);
                let ny = drag_decay(v.linvel.y, v.drag.y, dt_ms);
                let nb = Body {
                    velocity: Some(Velocity { linvel: Vec2i { x: nx, y: ny }, drag: v.drag }),
                    ..b
                };
                world.bodies.set(i, nb);
            },
            None => {},
        }
        i = i + 1;
    }
}

/// Velocity consistency: a velocity derived from a displacement, when
/// stepped over the same frame delta, reproduces that displacement to
/// within one unit of rounding.
pub proof fn lemma_velocity_consistency(d: int, dt_ms: int)
    requires
        1 <= dt_ms <= 1000,
    ensures
        d - 1 <= step_displacement_spec(derived_velocity_spec(d, dt_ms), dt_ms) <= d + 1,
{
    if d >= 0 {
        lemma_velocity_consistency_nonneg(d, dt_ms);
    } else {
        lemma_velocity_consistency_nonneg(-d, dt_ms);
        assert(derived_velocity_spec(d, dt_ms) == -derived_velocity_spec(-d, dt_ms));
        let v = derived_velocity_spec(-d, dt_ms);
        assert(step_displacement_spec(-v, dt_ms) == -step_displacement_spec(v, dt_ms)) by {
            assert((-v) * dt_ms == -(v * dt_ms)) by (nonlinear_arith);
        }
    }
}

proof fn lemma_velocity_consistency_nonneg(d: int, dt_ms: int)
    requires
        1 <= dt_ms <= 1000,
        0 <= d,
    ensures
        d - 1 <= step_displacement_spec(derived_velocity_spec(d, dt_ms), dt_ms) <= d,
{
    let p = d * 1000;
    lemma_fundamental_div_mod(p, dt_ms);
    lemma_mod_division_less_than_divisor(p, dt_ms);
    let q = p / dt_ms;
    let r = p % dt_ms;
    assert(q >= 0) by (nonlinear_arith)
        requires
            p >= 0,
            dt_ms >= 1,
            p == dt_ms * q + r,
            0 <= r < dt_ms,
    ;
    assert(derived_velocity_spec(d, dt_ms) == q);
    // Stepping q back over dt_ms: q * dt_ms == d * 1000 - r with 0 <= r < dt_ms <= 1000.
    assert(q * dt_ms == p - r) by (nonlinear_arith)
        requires
            p == dt_ms * q + r,
    ;
    assert(q * dt_ms >= 0) by (nonlinear_arith)
        requires
            q >= 0,
            dt_ms >= 0,
    ;
    if r == 0 {
        lemma_fundamental_div_mod_converse(p, 1000, d, 0);
        assert(step_displacement_spec(q, dt_ms) == d);
    } else {
        assert(p - r == (d - 1) * 1000 + (1000 - r)) by (nonlinear_arith)
            requires
                p == d * 1000,
        ;
        lemma_fundamental_div_mod_converse(p - r, 1000, d - 1, 1000 - r);
        assert(step_displacement_spec(q, dt_ms) == d - 1);
    }
}

} // verus!
