use vstd::prelude::*;

use crate::collide::{axis_hit, collide, collide_spec, halve, lemma_axis_hit_symm, overlaps, push_force};
use crate::flags::CollisionFlags;
use crate::geom::{Axis, POS_LIMIT, Side, Vec2i, pos_in_range};
use crate::partition::{
    PartitionEntry, SpatialPartition, WORLD_LIMIT, entry_wf, lemma_push_keeps_contains,
};
use crate::velocity::{
    apply_drag, clamp_spec, derive_velocity, derived_velocity_spec, drag_applied, drag_decay_spec,
    gravity_applied, lemma_drag_zero, step_displacement, step_displacement_spec, update_gravity,
};
use crate::world::{
    Body, Collider, ColliderKind, DT_LIMIT_MS, VEL_LIMIT, Velocity, WEIGHT_INFINITE, World,
    body_wf, velocity_in_range, world_wf,
};

verus! {

/// A discrete gameplay event reported by a tick. The consumer reacts
/// after the tick: a death restarts the level, a win advances it.
#[derive(Debug, Clone, Copy, PartialEq, Eq, Structural)]
pub enum GameEvent {
    Death,
    Win,
}

/// A fatal inconsistency. Such an error aborts the tick: partial physics
/// state would be worse than losing one frame, and the next tick starts
/// clean from the persisted component values.
#[derive(Debug, Clone, Copy, PartialEq, Eq, Structural)]
pub enum TickError {
    /// The tracked player id names no body.
    MissingEntity,
    /// The iterative solver exceeded its defensive iteration cap.
    NoConvergence,
    /// A push or integration step left the representable world range.
    OutOfWorld,
}

/// Death and win contacts seen during one axis pass, already deduplicated:
/// a tick reports each at most once however many overlaps produced it.
#[derive(Debug, Clone, Copy, PartialEq, Eq, Structural)]
pub struct PassEvents {
    pub death: bool,
    pub win: bool,
}

/// The solver's working arrays describe the world's bodies one for one
/// and hold representable positions.
pub open spec fn state_wf(world: World, pos: Seq<Vec2i>, flg: Seq<CollisionFlags>) -> bool {
    &&& world_wf(world)
    &&& pos.len() == world.bodies@.len()
    &&& flg.len() == world.bodies@.len()
    &&& forall|k: int| 0 <= k < pos.len() ==> pos_in_range(#[trigger] pos[k])
}

/// `movables` lists exactly the ids of the movable bodies.
pub open spec fn movables_ok(world: World, movables: Seq<usize>) -> bool {
    &&& forall|k: int|
        0 <= k < movables.len() ==> (#[trigger] movables[k]) < world.bodies@.len()
            && world.bodies@[movables[k] as int].spec_is_movable()
    &&& forall|id: int|
        0 <= id < world.bodies@.len() && (#[trigger] world.bodies@[id]).spec_is_movable()
            ==> movables.contains(id as usize)
}

/// Every snapshot in the grid names a real body, carries that body's
/// collider, and stands for a static (non-movable) body.
pub open spec fn partition_matches(world: World, partition: SpatialPartition) -> bool {
    forall|q: int|
        0 <= q < partition.filled@.len() ==> (#[trigger] partition.filled@[q]).id
            < world.bodies@.len() && partition.filled@[q].collider == world.bodies@[partition.filled@[q].id as int].collider
            && !world.bodies@[partition.filled@[q].id as int].spec_is_movable()
}

/// The pair (acting `i`, neighbor `j`) is one the solver promises to
/// part: two distinct movable bodies that both block.
pub open spec fn pair_applies(world: World, i: int, j: int) -> bool {
    &&& 0 <= i < world.bodies@.len()
    &&& 0 <= j < world.bodies@.len()
    &&& i != j
    &&& world.bodies@[i].spec_is_movable()
    &&& world.bodies@[j].spec_is_movable()
    &&& world.bodies@[i].collider.kind.spec_blocks()
    &&& world.bodies@[j].collider.kind.spec_blocks()
}

/// The pair (movable `i`, filed snapshot `q`) is one the solver promises
/// to part: a blocking movable against a blocking static it can discover
/// through the grid.
pub open spec fn static_pair_applies(world: World, partition: SpatialPartition, i: int, q: int) -> bool {
    &&& 0 <= i < world.bodies@.len()
    &&& 0 <= q < partition.filled@.len()
    &&& world.bodies@[i].spec_is_movable()
    &&& world.bodies@[i].collider.kind.spec_blocks()
    &&& partition.filled@[q].collider.kind.spec_blocks()
    &&& partition.filled@[q].id != i
}

/// No pair of settled bodies (those with `out` false) still collides on
/// the resolved axis. For a movable against a static, the claim covers
/// every static whose filed box overlaps the movable, which is exactly
/// the set the grid can discover.
pub open spec fn resolved_except(
    world: World,
    partition: SpatialPartition,
    pos: Seq<Vec2i>,
    out: Seq<bool>,
    axis: Axis,
) -> bool {
    &&& forall|i: int, j: int|
        #[trigger] pair_applies(world, i, j) && !out[i] && !out[j] ==> !axis_hit(
            pos[j],
            world.bodies@[j].collider.size,
            pos[i],
            world.bodies@[i].collider.size,
            axis,
        )
    &&& forall|i: int, q: int|
        #[trigger] static_pair_applies(world, partition, i, q) && !out[i]
            && !out[partition.filled@[q].id as int] && overlaps(
            partition.filled@[q].position,
            partition.filled@[q].collider.size,
            pos[i],
            world.bodies@[i].collider.size,
        ) ==> !axis_hit(
            pos[partition.filled@[q].id as int],
            partition.filled@[q].collider.size,
            pos[i],
            world.bodies@[i].collider.size,
            axis,
        )
}

/// Zero residual penetration on the resolved axis: after the pass
/// converges, no blocking movable still collides with another blocking
/// movable, nor with any blocking static whose filed box overlaps it.
pub open spec fn axis_resolved(world: World, partition: SpatialPartition, pos: Seq<Vec2i>, axis: Axis) -> bool {
    resolved_except(world, partition, pos, Seq::new(world.bodies@.len(), |k: int| false), axis)
}

/// What holds of the acting body `e` once its processing ends without
/// moving it: every settled blocking movable and every settled blocking
/// static discoverable at `e`'s position no longer hits it on this axis.
pub open spec fn entity_settled(
    world: World,
    partition: SpatialPartition,
    pos: Seq<Vec2i>,
    again: Seq<bool>,
    e: int,
    axis: Axis,
) -> bool {
    &&& forall|j: int|
        0 <= j < world.bodies@.len() && j != e && (#[trigger] world.bodies@[j]).spec_is_movable()
            && world.bodies@[j].collider.kind.spec_blocks() && !again[j] ==> !axis_hit(
            pos[j],
            world.bodies@[j].collider.size,
            pos[e],
            world.bodies@[e].collider.size,
            axis,
        )
    &&& forall|q: int|
        0 <= q < partition.filled@.len() && (#[trigger] partition.filled@[q]).collider.kind.spec_blocks()
            && partition.filled@[q].id != e && !again[partition.filled@[q].id as int] && overlaps(
            partition.filled@[q].position,
            partition.filled@[q].collider.size,
            pos[e],
            world.bodies@[e].collider.size,
        ) ==> !axis_hit(
            pos[partition.filled@[q].id as int],
            partition.filled@[q].collider.size,
            pos[e],
            world.bodies@[e].collider.size,
            axis,
        )
}

/// Every special contact discoverable at the settled body `e`'s position
/// was recorded: a death zone still hitting `e` on this axis set the
/// death flag (when `e` is the tracked player), a win zone set the win
/// flag, and a sensor shows the contact as a top touch on itself.
/// Death, win and sensor bodies are never displaced, so the claim speaks
/// of their live working positions.
pub open spec fn contacts_reported(
    world: World,
    partition: SpatialPartition,
    pos: Seq<Vec2i>,
    flg: Seq<CollisionFlags>,
    e: int,
    axis: Axis,
    player: int,
    death: bool,
    win: bool,
) -> bool {
    forall|q: int|
        0 <= q < partition.filled@.len() && (#[trigger] partition.filled@[q]).id != e && overlaps(
            partition.filled@[q].position,
            partition.filled@[q].collider.size,
            pos[e],
            world.bodies@[e].collider.size,
        ) && axis_hit(
            pos[partition.filled@[q].id as int],
            partition.filled@[q].collider.size,
            pos[e],
            world.bodies@[e].collider.size,
            axis,
        ) ==> match partition.filled@[q].collider.kind {
            ColliderKind::Death => e == player ==> death,
            ColliderKind::Win => win,
            ColliderKind::Sensor => flg[partition.filled@[q].id as int].spec_touching(Side::Top),
            _ => true,
        }
}

/// Body `e` overlaps no other body at the given positions. Processing a
/// body that is clear of every other changes nothing at all.
pub open spec fn clear_of_others(world: World, pos: Seq<Vec2i>, e: int) -> bool {
    forall|j: int|
        0 <= j < world.bodies@.len() && j != e ==> !overlaps(
            #[trigger] pos[j],
            world.bodies@[j].collider.size,
            pos[e],
            world.bodies@[e].collider.size,
        )
}

/// Every movable body overlaps nothing else: a fully separated world.
pub open spec fn all_separated(world: World, pos: Seq<Vec2i>) -> bool {
    forall|i: int|
        0 <= i < world.bodies@.len() && (#[trigger] world.bodies@[i]).spec_is_movable()
            ==> clear_of_others(world, pos, i)
}

/// Every special contact a settled movable body still has on this axis
/// was recorded: death zones hitting the tracked player, win zones
/// hitting any movable, and sensors showing the contact as a top touch.
pub open spec fn pass_contacts(
    world: World,
    partition: SpatialPartition,
    pos: Seq<Vec2i>,
    flg: Seq<CollisionFlags>,
    out: Seq<bool>,
    axis: Axis,
    player: int,
    death: bool,
    win: bool,
) -> bool {
    forall|i: int, q: int|
        0 <= i < world.bodies@.len() && (#[trigger] world.bodies@[i]).spec_is_movable() && !out[i]
            && 0 <= q < partition.filled@.len() && (#[trigger] partition.filled@[q]).id != i
            && overlaps(
            partition.filled@[q].position,
            partition.filled@[q].collider.size,
            pos[i],
            world.bodies@[i].collider.size,
        ) && axis_hit(
            pos[partition.filled@[q].id as int],
            partition.filled@[q].collider.size,
            pos[i],
            world.bodies@[i].collider.size,
            axis,
        ) ==> match partition.filled@[q].collider.kind {
            ColliderKind::Death => i == player ==> death,
            ColliderKind::Win => win,
            ColliderKind::Sensor => flg[partition.filled@[q].id as int].spec_touching(Side::Top),
            _ => true,
        }
}

/// [`pass_contacts`] with every body settled, as the pass guarantees it
/// on success.
pub open spec fn pass_contacts_all(
    world: World,
    partition: SpatialPartition,
    pos: Seq<Vec2i>,
    flg: Seq<CollisionFlags>,
    axis: Axis,
    player: int,
    death: bool,
    win: bool,
) -> bool {
    pass_contacts(
        world,
        partition,
        pos,
        flg,
        Seq::new(world.bodies@.len(), |k: int| false),
        axis,
        player,
        death,
        win,
    )
}

/// How the solver answers one detected collision between the acting body
/// and a blocking neighbor, per the weight and lock tie-break rules.
#[derive(Debug, Clone, Copy, PartialEq, Eq, Structural)]
pub enum PairAction {
    /// The acting body yields: it is displaced by the full push and gains
    /// the contact (and possibly a propagated lock).
    PushSelf,
    /// The neighbor yields: it is displaced backward by the full push.
    PushOther,
    /// Equal weights with no contact anchoring either side: each body
    /// absorbs half the overlap.
    SplitBoth,
}

/// The decision table for a collision the acting body (weight `w`,
/// working flags `flags`) detects on its side `f` against a movable
/// neighbor (weight `ow`, working flags `oflags`):
/// - a strictly lighter acting body yields, unless its opposite side is
///   anchored by a lock, in which case the neighbor is pushed back;
/// - equal weights with neither side touching split the overlap;
/// - otherwise the neighbor yields, unless it holds a lock on the
///   contested side, in which case the acting body yields after all.
pub open spec fn pair_action_spec(
    w: u64,
    ow: u64,
    flags: CollisionFlags,
    oflags: CollisionFlags,
    f: Side,
) -> PairAction {
    let of = f.spec_opposite();
    if w < ow {
        if !flags.spec_touching(of) || !flags.spec_locked(of) {
            PairAction::PushSelf
        } else {
            PairAction::PushOther
        }
    } else if w == ow && !flags.spec_touching(of) && !oflags.spec_touching(f) {
        PairAction::SplitBoth
    } else {
        if !oflags.spec_touching(f) {
            PairAction::PushOther
        } else if oflags.spec_locked(f) {
            PairAction::PushSelf
        } else {
            PairAction::PushOther
        }
    }
}

pub fn pair_action(w: u64, ow: u64, flags: CollisionFlags, oflags: CollisionFlags, f: Side) -> (r:
    PairAction)
    ensures
        r == pair_action_spec(w, ow, flags, oflags, f),
{
    let of = f.opposite();
    if w < ow {
        if !flags.touching(of) || !flags.is_locked(of) {
            PairAction::PushSelf
        } else {
            PairAction::PushOther
        }
    } else if w == ow && !flags.touching(of) && !oflags.touching(f) {
        PairAction::SplitBoth
    } else {
        if !oflags.touching(f) {
            PairAction::PushOther
        } else if oflags.is_locked(f) {
            PairAction::PushSelf
        } else {
            PairAction::PushOther
        }
    }
}

/// Weight ordering: between two movable bodies with distinct weights and
/// no contacts recorded yet, whichever of the two acts, only the lighter
/// body is displaced.
pub proof fn lemma_weight_ordering(w1: u64, w2: u64, f: Side)
    requires
        w1 < w2,
    ensures
        pair_action_spec(w1, w2, CollisionFlags::spec_empty(), CollisionFlags::spec_empty(), f)
            == PairAction::PushSelf,
        pair_action_spec(w2, w1, CollisionFlags::spec_empty(), CollisionFlags::spec_empty(), f)
            == PairAction::PushOther,
{
}

/// Equal weights with no contact anchoring either side fall back to the
/// symmetric split: each body absorbs half the overlap.
pub proof fn lemma_equal_weight_split(w: u64, f: Side)
    ensures
        pair_action_spec(w, w, CollisionFlags::spec_empty(), CollisionFlags::spec_empty(), f)
            == PairAction::SplitBoth,
{
}

/// A displaced position, or an error when it leaves the world range.
fn move_by(p: Vec2i, d: Vec2i) -> (r: Result<Vec2i, TickError>)
    requires
        pos_in_range(p),
        -0x800_0000_0000 <= d.x <= 0x800_0000_0000,
        -0x800_0000_0000 <= d.y <= 0x800_0000_0000,
    ensures
        match r {
            Ok(v) => v.x == p.x + d.x && v.y == p.y + d.y && pos_in_range(v),
            Err(err) => err == TickError::OutOfWorld,
        },
        (-POS_LIMIT <= p.x + d.x <= POS_LIMIT && -POS_LIMIT <= p.y + d.y <= POS_LIMIT) ==> r
            is Ok,
{
    let nx = p.x + d.x;
    let ny = p.y + d.y;
    if nx < -POS_LIMIT || nx > POS_LIMIT || ny < -POS_LIMIT || ny > POS_LIMIT {
        Err(TickError::OutOfWorld)
    } else {
        Ok(Vec2i { x: nx, y: ny })
    }
}

/// A vector of `n` cleared marks.
fn bool_vec(n: usize) -> (r: Vec<bool>)
    ensures
        r@.len() == n,
        forall|k: int| 0 <= k < n ==> !(#[trigger] r@[k]),
{
    let mut v: Vec<bool> = Vec::new();
    while v.len() < n
        invariant
            v@.len() <= n,
            forall|k: int| 0 <= k < v@.len() ==> !(#[trigger] v@[k]),
        decreases n - v@.len(),
    {
        v.push(false);
    }
    v
}

/// Processes one acting body: queries the grid at its position, chains on
/// every other movable, and answers each collision detected on the
/// resolved axis with the weight/lock decision — displacing the acting
/// body or the neighbor, accumulating contact flags and locks, recording
/// death/win/sensor contacts — and marks every displaced body for
/// re-iteration. If the acting body itself was displaced it is marked
/// too, so a later sweep revisits it at its new position.
#[verifier::rlimit(60)]
fn process_entity(
    world: &World,
    partition: &SpatialPartition,
    movables: &Vec<usize>,
    pos: &mut Vec<Vec2i>,
    flg: &mut Vec<CollisionFlags>,
    again: &mut Vec<bool>,
    e: usize,
    axis: Axis,
    player: usize,
    death: &mut bool,
    win: &mut bool,
) -> (r: Result<(), TickError>)
    requires
        state_wf(*world, old(pos)@, old(flg)@),
        partition.wf(),
        movables_ok(*world, movables@),
        partition_matches(*world, *partition),
        e < world.bodies@.len(),
        old(again)@.len() == world.bodies@.len(),
    ensures
        final(pos)@.len() == old(pos)@.len(),
        final(flg)@.len() == old(flg)@.len(),
        final(again)@.len() == old(again)@.len(),
        forall|k: int| 0 <= k < final(pos)@.len() ==> pos_in_range(#[trigger] final(pos)@[k]),
        forall|k: int| 0 <= k < old(again)@.len() && old(again)@[k] ==> #[trigger] final(again)@[k],
        forall|k: int|
            0 <= k < old(pos)@.len() && #[trigger] final(pos)@[k] != old(pos)@[k]
                ==> final(again)@[k],
        *old(death) ==> *final(death),
        *old(win) ==> *final(win),
        r matches Err(er) ==> er == TickError::OutOfWorld,
        forall|k: int|
            0 <= k < old(pos)@.len() && #[trigger] final(pos)@[k] != old(pos)@[k]
                ==> world.bodies@[k].collider.kind.spec_blocks(),
        axis == Axis::Y ==> forall|k: int|
            0 <= k < old(pos)@.len() ==> (#[trigger] final(pos)@[k]).x == old(pos)@[k].x,
        forall|k: int|
            0 <= k < old(flg)@.len() && old(flg)@[k] == CollisionFlags::spec_all()
                ==> #[trigger] final(flg)@[k] == CollisionFlags::spec_all(),
        forall|k: int|
            0 <= k < old(flg)@.len() && world.bodies@[k].collider.kind == ColliderKind::Sensor
                && old(flg)@[k].spec_touching(Side::Top)
                ==> (#[trigger] final(flg)@[k]).spec_touching(Side::Top),
        r is Ok && !final(again)@[e as int] ==> final(pos)@[e as int] == old(pos)@[e as int]
            && contacts_reported(
            *world,
            *partition,
            final(pos)@,
            final(flg)@,
            e as int,
            axis,
            player as int,
            *final(death),
            *final(win),
        ),
        r is Ok && !final(again)@[e as int] && world.bodies@[e as int].collider.kind.spec_blocks()
            ==> entity_settled(*world, *partition, final(pos)@, final(again)@, e as int, axis),
        clear_of_others(*world, old(pos)@, e as int) ==> r is Ok && final(pos)@ == old(pos)@
            && final(flg)@ == old(flg)@ && final(again)@ == old(again)@ && *final(death) == *old(
            death,
        ) && *final(win) == *old(win),
{
    let n = world.bodies.len();
    let b = world.bodies[e];
    let size = b.collider.size;
    let weight = b.collider.weight();
    // Inert colliders have no collision response at all: when one acts,
    // it answers blocking neighbors with nothing, exactly as it gives
    // nothing when it is the neighbor.
    let acting_blocks = matches!(b.collider.kind, ColliderKind::Movable(_));
    let mut position = pos[e];
    let mut flags = flg[e];
    let ghost pos0 = old(pos)@[e as int];
    let mut moved = false;
    let nearby = partition.possibilities(position, size);
    // Gather the candidate ids: grid snapshots first, then the movable
    // set, the acting body itself excluded from both.
    let mut cands: Vec<usize> = Vec::new();
    let mut k: usize = 0;
    while k < nearby.len()
        invariant
            n == world.bodies@.len(),
            e < n,
            k <= nearby@.len(),
            partition_matches(*world, *partition),
            forall|m: int|
                0 <= m < nearby@.len() ==> partition.filled@.contains(#[trigger] nearby@[m]),
            forall|m: int| 0 <= m < cands@.len() ==> (#[trigger] cands@[m]) < n && cands@[m] != e,
            forall|m: int|
                0 <= m < k ==> (#[trigger] nearby@[m]).id == e || cands@.contains(nearby@[m].id),
        decreases nearby@.len() - k,
    {
        let id = nearby[k].id;
        proof {
            assert(partition.filled@.contains(nearby@[k as int]));
            let q = choose|q: int|
                0 <= q < partition.filled@.len() && partition.filled@[q] == nearby@[k as int];
            assert(partition.filled@[q].id < n);
        }
        if id != e {
            let ghost prev = cands@;
            cands.push(id);
            proof {
                lemma_push_keeps_contains(prev, id);
            }
        }
        k = k + 1;
    }
    let mut t: usize = 0;
    while t < movables.len()
        invariant
            n == world.bodies@.len(),
            e < n,
            t <= movables@.len(),
            movables_ok(*world, movables@),
            forall|m: int| 0 <= m < cands@.len() ==> (#[trigger] cands@[m]) < n && cands@[m] != e,
            forall|m: int|
                0 <= m < nearby@.len() ==> (#[trigger] nearby@[m]).id == e || cands@.contains(
                    nearby@[m].id,
                ),
            forall|m: int|
                0 <= m < t ==> (#[trigger] movables@[m]) == e || cands@.contains(movables@[m]),
        decreases movables@.len() - t,
    {
        let id = movables[t];
        if id != e {
            let ghost prev = cands@;
            cands.push(id);
            proof {
                lemma_push_keeps_contains(prev, id);
            }
        }
        t = t + 1;
    }
    let cn = cands.len();
    let mut idx: usize = 0;
    while idx < cn
        invariant
            n == world.bodies@.len(),
            e < n,
            cn == cands@.len(),
            idx <= cn,
            state_wf(*world, pos@, flg@),
            pos@.len() == old(pos)@.len(),
            flg@.len() == old(flg)@.len(),
            again@.len() == n,
            old(again)@.len() == n,
            b == world.bodies@[e as int],
            size == b.collider.size,
            weight == b.collider.spec_weight(),
            pos_in_range(position),
            pos@[e as int] == pos0,
            pos0 == old(pos)@[e as int],
            forall|m: int| 0 <= m < cands@.len() ==> (#[trigger] cands@[m]) < n && cands@[m] != e,
            forall|m: int|
                0 <= m < nearby@.len() ==> (#[trigger] nearby@[m]).id == e || cands@.contains(
                    nearby@[m].id,
                ),
            forall|id: int|
                0 <= id < n && (#[trigger] world.bodies@[id]).spec_is_movable() && id != e
                    ==> cands@.contains(id as usize),
            !moved ==> position == pos0,
            position != pos0 ==> moved,
            acting_blocks == b.collider.kind is Movable,
            moved ==> b.collider.kind is Movable,
            !acting_blocks ==> flags == old(flg)@[e as int],
            old(flg)@[e as int].spec_touching(Side::Top) ==> flags.spec_touching(Side::Top),
            axis == Axis::Y ==> position.x == pos0.x,
            axis == Axis::Y ==> forall|k2: int|
                0 <= k2 < n ==> (#[trigger] pos@[k2]).x == old(pos)@[k2].x,
            forall|k2: int| 0 <= k2 < n && old(again)@[k2] ==> #[trigger] again@[k2],
            forall|k2: int|
                0 <= k2 < n && #[trigger] pos@[k2] != old(pos)@[k2] ==> again@[k2]
                    && world.bodies@[k2].collider.kind.spec_blocks(),
            again@[e as int] == old(again)@[e as int],
            *old(death) ==> *death,
            *old(win) ==> *win,
            old(flg)@[e as int] == CollisionFlags::spec_all() ==> flags
                == CollisionFlags::spec_all(),
            flg@[e as int] == old(flg)@[e as int],
            forall|k2: int|
                0 <= k2 < n && old(flg)@[k2] == CollisionFlags::spec_all()
                    ==> #[trigger] flg@[k2] == CollisionFlags::spec_all(),
            forall|k2: int|
                0 <= k2 < n && world.bodies@[k2].collider.kind == ColliderKind::Sensor && old(
                    flg,
                )@[k2].spec_touching(Side::Top) ==> (#[trigger] flg@[k2]).spec_touching(Side::Top),
            !moved ==> forall|m: int|
                0 <= m < idx ==> match (#[trigger] world.bodies@[cands@[m] as int]).collider.kind {
                    ColliderKind::Death => (e == player && axis_hit(
                        pos@[cands@[m] as int],
                        world.bodies@[cands@[m] as int].collider.size,
                        position,
                        size,
                        axis,
                    )) ==> *death,
                    ColliderKind::Win => axis_hit(
                        pos@[cands@[m] as int],
                        world.bodies@[cands@[m] as int].collider.size,
                        position,
                        size,
                        axis,
                    ) ==> *win,
                    ColliderKind::Sensor => axis_hit(
                        pos@[cands@[m] as int],
                        world.bodies@[cands@[m] as int].collider.size,
                        position,
                        size,
                        axis,
                    ) ==> flg@[cands@[m] as int].spec_touching(Side::Top),
                    _ => true,
                },
            clear_of_others(*world, old(pos)@, e as int) ==> !moved && pos@ == old(pos)@ && flg@
                == old(flg)@ && again@ == old(again)@ && *death == *old(death) && *win == *old(
                win,
            ) && flags == old(flg)@[e as int],
            !moved && acting_blocks ==> forall|m: int|
                0 <= m < idx ==> !(#[trigger] world.bodies@[cands@[m] as int]).collider.kind.spec_blocks()
                    || again@[cands@[m] as int] || !axis_hit(
                    pos@[cands@[m] as int],
                    world.bodies@[cands@[m] as int].collider.size,
                    position,
                    size,
                    axis,
                ),
        decreases cn - idx,
    {
        let j = cands[idx];
        let ob = world.bodies[j];
        let osize = ob.collider.size;
        let opos = pos[j];
        let oflags = flg[j];
        match collide(opos, osize, position, size) {
            Some(c) => {
                if c.relevant_to(axis) {
                    match ob.collider.kind {
                        ColliderKind::Movable(ow) => if acting_blocks {
                            let push = push_force(c, position, size, opos, osize);
                            let f = c.side();
                            let of = f.opposite();
                            match pair_action(weight, ow, flags, oflags, f) {
                                PairAction::PushSelf => {
                                    flags = flags.with_touch(f);
                                    position = match move_by(position, push) {
                                        Ok(v) => v,
                                        Err(er) => { return Err(er); },
                                    };
                                    moved = true;
                                    if !oflags.is_locked(of) {
                                        flg.set(j, oflags.without_touch(of));
                                    }
                                    if oflags.is_locked(f) {
                                        flags = flags.with_lock(f);
                                    }
                                },
                                PairAction::PushOther => {
                                    let np = match move_by(
                                        opos,
                                        Vec2i { x: -push.x, y: -push.y },
                                    ) {
                                        Ok(v) => v,
                                        Err(er) => { return Err(er); },
                                    };
                                    pos.set(j, np);
                                    flg.set(j, oflags.with_touch(of));
                                    again.set(j, true);
                                },
                                PairAction::SplitBoth => {
                                    proof {
                                        crate::collide::lemma_half_round_bounds(push.x as int);
                                        crate::collide::lemma_half_round_bounds(push.y as int);
                                    }
                                    let h = Vec2i { x: halve(push.x), y: halve(push.y) };
                                    flags = flags.with_touch(f);
                                    position = match move_by(position, h) {
                                        Ok(v) => v,
                                        Err(er) => { return Err(er); },
                                    };
                                    moved = true;
                                    let np = match move_by(
                                        opos,
                                        Vec2i { x: h.x - push.x, y: h.y - push.y },
                                    ) {
                                        Ok(v) => v,
                                        Err(er) => { return Err(er); },
                                    };
                                    pos.set(j, np);
                                    flg.set(j, oflags.with_touch(of));
                                    again.set(j, true);
                                },
                            }
                        },
                        ColliderKind::Death => {
                            if e == player {
                                *death = true;
                            }
                        },
                        ColliderKind::Sensor => {
                            flg.set(j, oflags.with_touch(Side::Top));
                        },
                        ColliderKind::Win => {
                            *win = true;
                        },
                        ColliderKind::Inert => {},
                    }
                }
            },
            Option::None => {},
        }
        idx = idx + 1;
    }
    pos.set(e, position);
    flg.set(e, flags);
    if moved {
        again.set(e, true);
    }
    proof {
        if !again@[e as int] {
            assert(!moved);
            assert(pos@[e as int] == pos0);
            if acting_blocks {
            assert forall|j: int|
                0 <= j < world.bodies@.len() && j != e && (#[trigger] world.bodies@[j]).spec_is_movable()
                    && world.bodies@[j].collider.kind.spec_blocks() && !again@[j] implies !axis_hit(
                pos@[j],
                world.bodies@[j].collider.size,
                pos@[e as int],
                world.bodies@[e as int].collider.size,
                axis,
            ) by {
                assert(cands@.contains(j as usize));
                let m = choose|m: int| 0 <= m < cands@.len() && cands@[m] == j as usize;
                assert(!world.bodies@[cands@[m] as int].collider.kind.spec_blocks()
                    || again@[cands@[m] as int] || !axis_hit(
                    pos@[cands@[m] as int],
                    world.bodies@[cands@[m] as int].collider.size,
                    position,
                    size,
                    axis,
                ));
            }
            assert forall|q: int|
                0 <= q < partition.filled@.len()
                    && (#[trigger] partition.filled@[q]).collider.kind.spec_blocks()
                    && partition.filled@[q].id != e
                    && !again@[partition.filled@[q].id as int] && overlaps(
                    partition.filled@[q].position,
                    partition.filled@[q].collider.size,
                    pos@[e as int],
                    world.bodies@[e as int].collider.size,
                ) implies !axis_hit(
                pos@[partition.filled@[q].id as int],
                partition.filled@[q].collider.size,
                pos@[e as int],
                world.bodies@[e as int].collider.size,
                axis,
            ) by {
                let en = partition.filled@[q];
                assert(nearby@.contains(en));
                let m1 = choose|m1: int| 0 <= m1 < nearby@.len() && nearby@[m1] == en;
                assert(nearby@[m1].id == e || cands@.contains(nearby@[m1].id));
                let m = choose|m: int| 0 <= m < cands@.len() && cands@[m] == en.id;
                assert(en.collider == world.bodies@[en.id as int].collider);
                assert(!world.bodies@[cands@[m] as int].collider.kind.spec_blocks()
                    || again@[cands@[m] as int] || !axis_hit(
                    pos@[cands@[m] as int],
                    world.bodies@[cands@[m] as int].collider.size,
                    position,
                    size,
                    axis,
                ));
            }
            }
            assert forall|q: int|
                0 <= q < partition.filled@.len() && (#[trigger] partition.filled@[q]).id != e
                    && overlaps(
                    partition.filled@[q].position,
                    partition.filled@[q].collider.size,
                    pos@[e as int],
                    world.bodies@[e as int].collider.size,
                ) && axis_hit(
                    pos@[partition.filled@[q].id as int],
                    partition.filled@[q].collider.size,
                    pos@[e as int],
                    world.bodies@[e as int].collider.size,
                    axis,
                ) implies match partition.filled@[q].collider.kind {
                ColliderKind::Death => e as int == player as int ==> *death,
                ColliderKind::Win => *win,
                ColliderKind::Sensor => flg@[partition.filled@[q].id as int].spec_touching(
                    Side::Top,
                ),
                _ => true,
            } by {
                let en = partition.filled@[q];
                assert(nearby@.contains(en));
                let m1 = choose|m1: int| 0 <= m1 < nearby@.len() && nearby@[m1] == en;
                assert(nearby@[m1].id == e || cands@.contains(nearby@[m1].id));
                let m = choose|m: int| 0 <= m < cands@.len() && cands@[m] == en.id;
                assert(en.collider == world.bodies@[en.id as int].collider);
            }
        }
        if clear_of_others(*world, old(pos)@, e as int) {
            assert(pos@ =~= old(pos)@);
            assert(flg@ =~= old(flg)@);
            assert(again@ =~= old(again)@);
        }
    }
    Ok(())
}

/// Whether any mark is set.
fn any_true(v: &Vec<bool>) -> (r: bool)
    ensures
        r == exists|k: int| 0 <= k < v@.len() && v@[k],
{
    let n = v.len();
    let mut i: usize = 0;
    while i < n
        invariant
            i <= n,
            n == v@.len(),
            forall|k: int| 0 <= k < i ==> !(#[trigger] v@[k]),
        decreases n - i,
    {
        if v[i] {
            return true;
        }
        i = i + 1;
    }
    false
}

/// One axis pass of the solver: starting from the movable working set,
/// repeatedly processes every body marked for iteration until no body is
/// displaced any more (or the defensive cap of `n * n + 1` sweeps is
/// exceeded, a consistency violation that aborts the tick). On success,
/// no pair of blocking bodies the solver is responsible for still
/// collides on this axis.
#[verifier::rlimit(80)]
pub fn resolve_axis(
    world: &World,
    partition: &SpatialPartition,
    movables: &Vec<usize>,
    pos: &mut Vec<Vec2i>,
    flg: &mut Vec<CollisionFlags>,
    axis: Axis,
    player: usize,
) -> (r: Result<PassEvents, TickError>)
    requires
        state_wf(*world, old(pos)@, old(flg)@),
        partition.wf(),
        movables_ok(*world, movables@),
        partition_matches(*world, *partition),
        player < world.bodies@.len(),
        world.bodies@.len() <= 0x10_0000,
    ensures
        final(pos)@.len() == old(pos)@.len(),
        final(flg)@.len() == old(flg)@.len(),
        forall|k: int| 0 <= k < final(pos)@.len() ==> pos_in_range(#[trigger] final(pos)@[k]),
        r matches Err(er) ==> er == TickError::NoConvergence || er == TickError::OutOfWorld,
        movables@.len() == 0 ==> r is Ok,
        r is Ok ==> axis_resolved(*world, *partition, final(pos)@, axis),
        forall|k: int|
            0 <= k < old(pos)@.len() && !world.bodies@[k].collider.kind.spec_blocks()
                ==> #[trigger] final(pos)@[k] == old(pos)@[k],
        axis == Axis::Y ==> forall|k: int|
            0 <= k < old(pos)@.len() ==> (#[trigger] final(pos)@[k]).x == old(pos)@[k].x,
        forall|k: int|
            0 <= k < old(flg)@.len() && old(flg)@[k] == CollisionFlags::spec_all()
                ==> #[trigger] final(flg)@[k] == CollisionFlags::spec_all(),
        r matches Ok(ev) ==> pass_contacts_all(
            *world,
            *partition,
            final(pos)@,
            final(flg)@,
            axis,
            player as int,
            ev.death,
            ev.win,
        ),
        all_separated(*world, old(pos)@) ==> (r == Ok::<PassEvents, TickError>(
            PassEvents { death: false, win: false },
        ) && final(pos)@ == old(pos)@ && final(flg)@ == old(flg)@),
{
    let n = world.bodies.len();
    let mut pending = bool_vec(n);
    let mut t: usize = 0;
    while t < movables.len()
        invariant
            n == world.bodies@.len(),
            pending@.len() == n,
            t <= movables@.len(),
            movables_ok(*world, movables@),
            forall|m: int| 0 <= m < t ==> pending@[(#[trigger] movables@[m]) as int],
            forall|k: int| 0 <= k < n && #[trigger] pending@[k] ==> movables@.len() > 0,
            forall|k: int|
                0 <= k < n && #[trigger] pending@[k] ==> world.bodies@[k].spec_is_movable(),
        decreases movables@.len() - t,
    {
        pending.set(movables[t], true);
        t = t + 1;
    }
    proof {
        assert forall|id: int|
            0 <= id < n && (#[trigger] world.bodies@[id]).spec_is_movable() implies pending@[id] by {
            assert(movables@.contains(id as usize));
            let m = choose|m: int| 0 <= m < movables@.len() && movables@[m] == id as usize;
            assert(pending@[movables@[m] as int]);
        }
        assert forall|i: int, j: int|
            #[trigger] pair_applies(*world, i, j) && !pending@[i] && !pending@[j] implies !axis_hit(
            pos@[j],
            world.bodies@[j].collider.size,
            pos@[i],
            world.bodies@[i].collider.size,
            axis,
        ) by {
            assert(pending@[i]);
        }
        assert forall|i: int, q: int|
            #[trigger] static_pair_applies(*world, *partition, i, q) && !pending@[i]
                && !pending@[partition.filled@[q].id as int] && overlaps(
                partition.filled@[q].position,
                partition.filled@[q].collider.size,
                pos@[i],
                world.bodies@[i].collider.size,
            ) implies !axis_hit(
            pos@[partition.filled@[q].id as int],
            partition.filled@[q].collider.size,
            pos@[i],
            world.bodies@[i].collider.size,
            axis,
        ) by {
            assert(pending@[i]);
        }
        assert forall|i: int, q: int|
            0 <= i < n && (#[trigger] world.bodies@[i]).spec_is_movable() && !pending@[i] && 0 <= q
                < partition.filled@.len() && (#[trigger] partition.filled@[q]).id != i && overlaps(
                partition.filled@[q].position,
                partition.filled@[q].collider.size,
                pos@[i],
                world.bodies@[i].collider.size,
            ) && axis_hit(
                pos@[partition.filled@[q].id as int],
                partition.filled@[q].collider.size,
                pos@[i],
                world.bodies@[i].collider.size,
                axis,
            ) implies match partition.filled@[q].collider.kind {
            ColliderKind::Death => i == player as int ==> false,
            ColliderKind::Win => false,
            ColliderKind::Sensor => flg@[partition.filled@[q].id as int].spec_touching(Side::Top),
            _ => true,
        } by {
            assert(pending@[i]);
        }
    }
    let mut death = false;
    let mut win = false;
    let mut iters: u64 = 0;
    proof {
        assert((n as u64) * (n as u64) <= 0x100_0000_0000) by (nonlinear_arith)
            requires
                n <= 0x10_0000,
        ;
    }
    let cap: u64 = (n as u64) * (n as u64) + 1;
    while any_true(&pending)
        invariant
            n == world.bodies@.len(),
            n <= 0x10_0000,
            state_wf(*world, pos@, flg@),
            pos@.len() == old(pos)@.len(),
            flg@.len() == old(flg)@.len(),
            partition.wf(),
            movables_ok(*world, movables@),
            partition_matches(*world, *partition),
            player < n,
            pending@.len() == n,
            iters <= cap,
            cap == (n as u64) * (n as u64) + 1,
            movables@.len() == 0 ==> forall|k: int| 0 <= k < n ==> !(#[trigger] pending@[k]),
            resolved_except(*world, *partition, pos@, pending@, axis),
            pass_contacts(*world, *partition, pos@, flg@, pending@, axis, player as int, death, win),
            forall|k: int|
                0 <= k < n && !world.bodies@[k].collider.kind.spec_blocks()
                    ==> #[trigger] pos@[k] == old(pos)@[k],
            axis == Axis::Y ==> forall|k: int|
                0 <= k < n ==> (#[trigger] pos@[k]).x == old(pos)@[k].x,
            forall|k: int|
                0 <= k < n && old(flg)@[k] == CollisionFlags::spec_all()
                    ==> #[trigger] flg@[k] == CollisionFlags::spec_all(),
            all_separated(*world, old(pos)@) ==> (pos@ == old(pos)@ && flg@ == old(flg)@ && !death
                && !win && (forall|k: int|
                0 <= k < n && #[trigger] pending@[k] ==> world.bodies@[k].spec_is_movable()) && (
            iters >= 1 ==> forall|k: int| 0 <= k < n ==> !(#[trigger] pending@[k]))),
        decreases cap - iters,
    {
        if iters >= cap {
            return Err(TickError::NoConvergence);
        }
        iters = iters + 1;
        let mut again = bool_vec(n);
        let mut e: usize = 0;
        while e < n
            invariant
                n == world.bodies@.len(),
                e <= n,
                state_wf(*world, pos@, flg@),
                pos@.len() == old(pos)@.len(),
                flg@.len() == old(flg)@.len(),
                partition.wf(),
                movables_ok(*world, movables@),
                partition_matches(*world, *partition),
                player < n,
                pending@.len() == n,
                again@.len() == n,
                movables@.len() > 0,
                resolved_except(
                    *world,
                    *partition,
                    pos@,
                    Seq::new(n as nat, |k2: int| (pending@[k2] && k2 >= e) || again@[k2]),
                    axis,
                ),
                pass_contacts(
                    *world,
                    *partition,
                    pos@,
                    flg@,
                    Seq::new(n as nat, |k2: int| (pending@[k2] && k2 >= e) || again@[k2]),
                    axis,
                    player as int,
                    death,
                    win,
                ),
                forall|k: int|
                    0 <= k < n && !world.bodies@[k].collider.kind.spec_blocks()
                        ==> #[trigger] pos@[k] == old(pos)@[k],
                axis == Axis::Y ==> forall|k: int|
                    0 <= k < n ==> (#[trigger] pos@[k]).x == old(pos)@[k].x,
                forall|k: int|
                    0 <= k < n && old(flg)@[k] == CollisionFlags::spec_all()
                        ==> #[trigger] flg@[k] == CollisionFlags::spec_all(),
                all_separated(*world, old(pos)@) ==> (pos@ == old(pos)@ && flg@ == old(flg)@
                    && !death && !win && (forall|k: int|
                    0 <= k < n && #[trigger] pending@[k] ==> world.bodies@[k].spec_is_movable())
                    && (forall|k: int| 0 <= k < n ==> !(#[trigger] again@[k]))),
            decreases n - e,
        {
            let ghost pos_prev = pos@;
            let ghost flg_prev = flg@;
            let ghost again_prev = again@;
            let ghost death_prev = death;
            let ghost win_prev = win;
            let ghost out_prev = Seq::new(
                n as nat,
                |k2: int| (pending@[k2] && k2 >= e) || again_prev[k2],
            );
            let mut processed = false;
            if pending[e] {
                match process_entity(
                    world,
                    partition,
                    movables,
                    pos,
                    flg,
                    &mut again,
                    e,
                    axis,
                    player,
                    &mut death,
                    &mut win,
                ) {
                    Ok(()) => {},
                    Err(er) => {
                        proof {
                            if all_separated(*world, old(pos)@) {
                                assert(world.bodies@[e as int].spec_is_movable());
                                assert(clear_of_others(*world, pos_prev, e as int));
                                assert(false);
                            }
                        }
                        return Err(er);
                    },
                }
                processed = true;
            }
            proof {
                let out_next = Seq::new(
                    n as nat,
                    |k2: int| (pending@[k2] && k2 >= e + 1) || again@[k2],
                );
                if !processed {
                    assert(out_prev =~= out_next);
                } else {
                    assert forall|i: int, j: int|
                        #[trigger] pair_applies(*world, i, j) && !out_next[i] && !out_next[j]
                        implies !axis_hit(
                        pos@[j],
                        world.bodies@[j].collider.size,
                        pos@[i],
                        world.bodies@[i].collider.size,
                        axis,
                    ) by {
                        assert(!again@[i] && !again@[j]);
                        assert(pos@[i] == pos_prev[i]);
                        assert(pos@[j] == pos_prev[j]);
                        if i == e as int {
                            assert(entity_settled(
                                *world,
                                *partition,
                                pos@,
                                again@,
                                e as int,
                                axis,
                            ));
                        } else if j == e as int {
                            assert(entity_settled(
                                *world,
                                *partition,
                                pos@,
                                again@,
                                e as int,
                                axis,
                            ));
                            assert(!axis_hit(
                                pos@[i],
                                world.bodies@[i].collider.size,
                                pos@[e as int],
                                world.bodies@[e as int].collider.size,
                                axis,
                            ));
                            lemma_axis_hit_symm(
                                pos@[i],
                                world.bodies@[i].collider.size,
                                pos@[e as int],
                                world.bodies@[e as int].collider.size,
                                axis,
                            );
                        } else {
                            assert(!out_prev[i] && !out_prev[j]);
                        }
                    }
                    assert forall|i: int, q: int|
                        #[trigger] static_pair_applies(*world, *partition, i, q) && !out_next[i]
                            && !out_next[partition.filled@[q].id as int] && overlaps(
                            partition.filled@[q].position,
                            partition.filled@[q].collider.size,
                            pos@[i],
                            world.bodies@[i].collider.size,
                        ) implies !axis_hit(
                        pos@[partition.filled@[q].id as int],
                        partition.filled@[q].collider.size,
                        pos@[i],
                        world.bodies@[i].collider.size,
                        axis,
                    ) by {
                        let s = partition.filled@[q].id as int;
                        assert(!again@[i] && !again@[s]);
                        assert(pos@[i] == pos_prev[i]);
                        assert(pos@[s] == pos_prev[s]);
                        if i == e as int {
                            assert(entity_settled(
                                *world,
                                *partition,
                                pos@,
                                again@,
                                e as int,
                                axis,
                            ));
                        } else if s == e as int {
                            assert(entity_settled(
                                *world,
                                *partition,
                                pos@,
                                again@,
                                e as int,
                                axis,
                            ));
                            assert(partition.filled@[q].collider == world.bodies@[s].collider);
                            assert(!axis_hit(
                                pos@[i],
                                world.bodies@[i].collider.size,
                                pos@[e as int],
                                world.bodies@[e as int].collider.size,
                                axis,
                            ));
                            lemma_axis_hit_symm(
                                pos@[i],
                                world.bodies@[i].collider.size,
                                pos@[e as int],
                                world.bodies@[e as int].collider.size,
                                axis,
                            );
                        } else {
                            assert(!out_prev[i] && !out_prev[s]);
                        }
                    }
                    assert forall|i: int, q: int|
                        0 <= i < world.bodies@.len() && (#[trigger] world.bodies@[i]).spec_is_movable()
                            && !out_next[i] && 0 <= q < partition.filled@.len() && (
                        #[trigger] partition.filled@[q]).id != i && overlaps(
                            partition.filled@[q].position,
                            partition.filled@[q].collider.size,
                            pos@[i],
                            world.bodies@[i].collider.size,
                        ) && axis_hit(
                            pos@[partition.filled@[q].id as int],
                            partition.filled@[q].collider.size,
                            pos@[i],
                            world.bodies@[i].collider.size,
                            axis,
                        ) implies match partition.filled@[q].collider.kind {
                        ColliderKind::Death => i == player as int ==> death,
                        ColliderKind::Win => win,
                        ColliderKind::Sensor => flg@[partition.filled@[q].id as int].spec_touching(
                            Side::Top,
                        ),
                        _ => true,
                    } by {
                        let sid = partition.filled@[q].id as int;
                        assert(!again@[i]);
                        assert(pos@[i] == pos_prev[i]);
                        if i == e as int {
                            assert(contacts_reported(
                                *world,
                                *partition,
                                pos@,
                                flg@,
                                e as int,
                                axis,
                                player as int,
                                death,
                                win,
                            ));
                        } else {
                            assert(!out_prev[i]);
                            if !partition.filled@[q].collider.kind.spec_blocks() {
                                assert(pos@[sid] == pos_prev[sid]);
                            }
                        }
                    }
                    if all_separated(*world, old(pos)@) {
                        assert(world.bodies@[e as int].spec_is_movable());
                        assert(clear_of_others(*world, pos_prev, e as int));
                    }
                }
            }
            e = e + 1;
        }
        proof {
            let out_exit = Seq::new(
                n as nat,
                |k2: int| (pending@[k2] && k2 >= n) || again@[k2],
            );
            assert(out_exit =~= again@);
        }
        pending = again;
    }
    proof {
        assert(forall|k: int| 0 <= k < n ==> !pending@[k]);
        assert(pending@ =~= Seq::new(world.bodies@.len(), |k: int| false));
    }
    Ok(PassEvents { death, win })
}

/// Per-body facts every tick preserves: collider size and kind, gravity,
/// drag and the presence of a velocity never change, and a body without a
/// velocity never has its position written — static geometry stays put.
pub open spec fn tick_frame(b_old: Body, b_new: Body) -> bool {
    &&& b_new.collider.size == b_old.collider.size
    &&& b_new.collider.kind == b_old.collider.kind
    &&& b_new.gravity == b_old.gravity
    &&& (b_new.velocity is Some) == (b_old.velocity is Some)
    &&& match (b_old.velocity, b_new.velocity) {
        (Some(v), Some(nv)) => nv.drag == v.drag,
        _ => true,
    }
    &&& (b_old.velocity is None ==> b_new.position == b_old.position)
}

/// After a zero-length frame the velocities are exactly the
/// gravity-updated ones: back-derivation is skipped and drag, scaled by
/// the frame delta, takes nothing.
pub open spec fn velocity_gravity_only(b_old: Body, b_new: Body) -> bool {
    match (b_old.velocity, b_old.gravity) {
        (Some(v), Some(g)) => b_new.velocity matches Some(nv) && nv.drag == v.drag && nv.linvel.x
            == v.linvel.x && nv.linvel.y as int == clamp_spec(
            v.linvel.y - g.0,
            -VEL_LIMIT as int,
            VEL_LIMIT as int,
        ),
        (Some(v), None) => b_new.velocity == Some(v),
        _ => b_new.velocity == b_old.velocity,
    }
}

/// Velocity consistency at the tick level: a moving body's final velocity
/// is exactly the drag decay of the velocity back-derived from the
/// displacement the solver actually allowed this tick, axis by axis.
pub open spec fn velocity_consistent(b_old: Body, b_new: Body, dt_ms: int) -> bool {
    match (b_old.velocity, b_new.velocity) {
        (Some(v), Some(nv)) => {
            &&& nv.linvel.x as int == drag_decay_spec(
                derived_velocity_spec(b_new.position.x - b_old.position.x, dt_ms),
                v.drag.x as int,
                dt_ms,
            )
            &&& nv.linvel.y as int == drag_decay_spec(
                derived_velocity_spec(b_new.position.y - b_old.position.y, dt_ms),
                v.drag.y as int,
                dt_ms,
            )
        },
        _ => true,
    }
}

/// How one body changes at the tick's single commit point: the resolved
/// horizontal and vertical positions are written, each axis velocity is
/// re-derived from the displacement the solver allowed, and the contact
/// flags are replaced by this tick's record. Bodies without a velocity
/// only have their flags replaced; with no time elapsed, position and
/// velocity stay as they were.
pub open spec fn commit_rel(b1: Body, b2: Body, px: i64, py: i64, fl: CollisionFlags, dt_ms: int) -> bool {
    match b1.velocity {
        Some(v) => {
            if dt_ms >= 1 {
                &&& b2.position.x == px
                &&& b2.position.y == py
                &&& b2.collider == (Collider { flags: fl, ..b1.collider })
                &&& b2.gravity == b1.gravity
                &&& b2.velocity matches Some(nv) && nv.drag == v.drag && nv.linvel.x as int
                    == derived_velocity_spec(px - b1.position.x, dt_ms) && nv.linvel.y as int
                    == derived_velocity_spec(py - b1.position.y, dt_ms)
            } else {
                b2 == (Body { collider: Collider { flags: fl, ..b1.collider }, ..b1 })
            }
        },
        None => b2 == (Body { collider: Collider { flags: fl, ..b1.collider }, ..b1 }),
    }
}

/// The tentative vertical step of a body for this frame, in whole units.
pub open spec fn y_step_of(b: Body, dt_ms: int) -> int {
    match b.velocity {
        Some(v) => step_displacement_spec(v.linvel.y as int, dt_ms),
        None => 0,
    }
}

/// The tentative horizontal step of a body for this frame.
pub open spec fn x_step_of(b: Body, dt_ms: int) -> int {
    match b.velocity {
        Some(v) => step_displacement_spec(v.linvel.x as int, dt_ms),
        None => 0,
    }
}

/// A body's position after the tentative vertical step.
pub open spec fn stepped_y(b: Body, dt_ms: int) -> Vec2i {
    Vec2i { x: b.position.x, y: (b.position.y + y_step_of(b, dt_ms)) as i64 }
}

/// A body's position after both tentative steps.
pub open spec fn stepped_xy(b: Body, dt_ms: int) -> Vec2i {
    Vec2i {
        x: (b.position.x + x_step_of(b, dt_ms)) as i64,
        y: (b.position.y + y_step_of(b, dt_ms)) as i64,
    }
}

/// The frame is ballistic for these bodies: every tentative step stays
/// in the world range, and no movable body overlaps anything at the
/// tentative positions of either pass — the solver has nothing to do,
/// so every moving body travels exactly its tentative path.
pub open spec fn ballistic_bodies(bs: Seq<Body>, dt_ms: int) -> bool {
    &&& forall|i: int|
        0 <= i < bs.len() ==> -POS_LIMIT <= (#[trigger] bs[i]).position.y + y_step_of(
            bs[i],
            dt_ms,
        ) <= POS_LIMIT && -POS_LIMIT <= bs[i].position.x + x_step_of(bs[i], dt_ms) <= POS_LIMIT
    &&& forall|i: int, j: int|
        0 <= i < bs.len() && 0 <= j < bs.len() && i != j && (#[trigger] bs[i]).spec_is_movable()
            ==> !overlaps(
            stepped_y(#[trigger] bs[j], dt_ms),
            bs[j].collider.size,
            stepped_y(bs[i], dt_ms),
            bs[i].collider.size,
        ) && !overlaps(
            stepped_xy(bs[j], dt_ms),
            bs[j].collider.size,
            stepped_xy(bs[i], dt_ms),
            bs[i].collider.size,
        )
}

/// A body as gravity leaves it: the vertical velocity dropped by the
/// gravity constant, clamped into range; everything else untouched.
pub open spec fn after_gravity(b: Body) -> Body {
    match (b.velocity, b.gravity) {
        (Some(v), Some(g)) => Body {
            velocity: Some(
                Velocity {
                    linvel: Vec2i {
                        x: v.linvel.x,
                        y: clamp_spec(v.linvel.y - g.0, -VEL_LIMIT as int, VEL_LIMIT as int) as i64,
                    },
                    drag: v.drag,
                },
            ),
            ..b
        },
        _ => b,
    }
}

/// [`gravity_applied`] pins the gravity-updated body exactly.
proof fn lemma_after_gravity(b0: Body, b1: Body)
    requires
        gravity_applied(b0, b1),
    ensures
        b1 == after_gravity(b0),
{
}

/// Chains the two per-body write stages of a tick — the single commit
/// and the drag decay — into the facts the tick's contract states of
/// each body, relative to the pre-commit base state `b1`.
proof fn lemma_tick_frame_chain(
    b1: Body,
    b2: Body,
    b3: Body,
    px: i64,
    py: i64,
    fl: CollisionFlags,
    dt_ms: int,
)
    requires
        commit_rel(b1, b2, px, py, fl, dt_ms),
        drag_applied(b2, b3, dt_ms),
        match b2.velocity {
            Some(v) => velocity_in_range(v),
            None => true,
        },
    ensures
        tick_frame(b1, b3),
        dt_ms >= 1 ==> velocity_consistent(b1, b3, dt_ms),
        dt_ms == 0 ==> b3.position == b1.position && b3.velocity == b1.velocity,
        b3.collider.flags == fl,
        b1.velocity is Some && dt_ms >= 1 ==> b3.position.x == px && b3.position.y == py,
{
    if dt_ms == 0 {
        match b2.velocity {
            Some(v) => {
                lemma_drag_zero(v.linvel.x as int, v.drag.x as int);
                lemma_drag_zero(v.linvel.y as int, v.drag.y as int);
            },
            None => {},
        }
    }
}

/// The body of a tick once gravity is applied and the player id is
/// checked: tentative vertical step, vertical resolution, the same for
/// the horizontal axis, then the single commit and drag decay. All
/// contract clauses speak of the state this function starts from.
#[verifier::rlimit(100)]
fn resolve_tick(
    world: &mut World,
    dt_ms: u32,
    world_width: i64,
    world_height: i64,
    p: usize,
) -> (r: Result<Vec<GameEvent>, TickError>)
    requires
        world_wf(*old(world)),
        old(world).bodies@.len() <= 0x10_0000,
        dt_ms <= DT_LIMIT_MS,
        1 <= world_width <= WORLD_LIMIT,
        1 <= world_height <= WORLD_LIMIT,
        p < old(world).bodies@.len(),
    ensures
        world_wf(*final(world)),
        final(world).bodies@.len() == old(world).bodies@.len(),
        forall|i: int|
            0 <= i < old(world).bodies@.len() ==> tick_frame(
                old(world).bodies@[i],
                #[trigger] final(world).bodies@[i],
            ),
        r is Ok && dt_ms >= 1 ==> forall|i: int|
            0 <= i < old(world).bodies@.len() ==> velocity_consistent(
                old(world).bodies@[i],
                #[trigger] final(world).bodies@[i],
                dt_ms as int,
            ),
        r is Ok && dt_ms == 0 ==> forall|i: int|
            0 <= i < old(world).bodies@.len() ==> (#[trigger] final(world).bodies@[i]).position
                == old(world).bodies@[i].position && final(world).bodies@[i].velocity == old(
                world,
            ).bodies@[i].velocity,
        r matches Err(er) ==> (er == TickError::NoConvergence || er == TickError::OutOfWorld)
            && *final(world) == *old(world),
        r matches Ok(ev) ==> ev@.len() <= 2 && forall|m1: int, m2: int|
            0 <= m1 < m2 < ev@.len() ==> ev@[m1] != ev@[m2],
        r is Ok ==> forall|i: int|
            0 <= i < old(world).bodies@.len() && (#[trigger] old(world).bodies@[i]).collider.spec_weight()
                == WEIGHT_INFINITE ==> final(world).bodies@[i].collider.flags
                == CollisionFlags::spec_all(),
        r matches Ok(ev) ==> (dt_ms >= 1 && old(world).bodies@[p as int].spec_is_movable() && old(
            world,
        ).bodies@[p as int].velocity is Some) ==> forall|d: int|
            0 <= d < old(world).bodies@.len()
                && (#[trigger] old(world).bodies@[d]).collider.kind == ColliderKind::Death && old(
                world,
            ).bodies@[d].velocity is None && axis_hit(
                old(world).bodies@[d].position,
                old(world).bodies@[d].collider.size,
                (Vec2i {
                    x: old(world).bodies@[p as int].position.x,
                    y: final(world).bodies@[p as int].position.y,
                }),
                old(world).bodies@[p as int].collider.size,
                Axis::Y,
            ) ==> ev@.contains(GameEvent::Death),
        r matches Ok(ev) ==> (dt_ms >= 1 && old(world).bodies@[p as int].spec_is_movable() && old(
            world,
        ).bodies@[p as int].velocity is Some) ==> forall|d: int|
            0 <= d < old(world).bodies@.len()
                && (#[trigger] old(world).bodies@[d]).collider.kind == ColliderKind::Win && old(
                world,
            ).bodies@[d].velocity is None && axis_hit(
                old(world).bodies@[d].position,
                old(world).bodies@[d].collider.size,
                (Vec2i {
                    x: old(world).bodies@[p as int].position.x,
                    y: final(world).bodies@[p as int].position.y,
                }),
                old(world).bodies@[p as int].collider.size,
                Axis::Y,
            ) ==> ev@.contains(GameEvent::Win),
        r is Ok && dt_ms >= 1 ==> forall|i: int, d: int|
            0 <= i < old(world).bodies@.len() && 0 <= d < old(world).bodies@.len() && (
            #[trigger] old(world).bodies@[i]).spec_is_movable() && old(
                world,
            ).bodies@[i].velocity is Some && (#[trigger] old(world).bodies@[d]).collider.kind
                == ColliderKind::Sensor && old(world).bodies@[d].velocity is None && axis_hit(
                old(world).bodies@[d].position,
                old(world).bodies@[d].collider.size,
                (Vec2i {
                    x: old(world).bodies@[i].position.x,
                    y: final(world).bodies@[i].position.y,
                }),
                old(world).bodies@[i].collider.size,
                Axis::Y,
            ) ==> final(world).bodies@[d].collider.flags.spec_touching(Side::Top),
        // A ballistic frame is owed success: nothing overlaps anywhere
        // along the tentative paths, so resolution changes nothing and
        // every moving body travels exactly its tentative step.
        ballistic_bodies(old(world).bodies@, dt_ms as int) ==> (r matches Ok(ev) && ev@.len()
            == 0 && forall|i: int|
            0 <= i < old(world).bodies@.len() ==> (#[trigger] final(world).bodies@[i]).position
                == (if old(world).bodies@[i].velocity is Some && dt_ms >= 1 {
                stepped_xy(old(world).bodies@[i], dt_ms as int)
            } else {
                old(world).bodies@[i].position
            }) && (old(world).bodies@[i].collider.spec_weight() != WEIGHT_INFINITE
                ==> final(world).bodies@[i].collider.flags == CollisionFlags::spec_empty())),
{
    let ghost w1 = *world;
    let n = world.bodies.len();
    // Working state: positions and contact flags for this tick, the
    // movable working set, and snapshots of the statics for the grid.
    let mut pos: Vec<Vec2i> = Vec::new();
    let mut flg: Vec<CollisionFlags> = Vec::new();
    let mut movables: Vec<usize> = Vec::new();
    let mut statics: Vec<PartitionEntry> = Vec::new();
    let mut i: usize = 0;
    while i < n
        invariant
            n == world.bodies@.len(),
            *world == w1,
            world_wf(*world),
            i <= n,
            pos@.len() == i,
            flg@.len() == i,
            forall|k: int| 0 <= k < i ==> #[trigger] pos@[k] == world.bodies@[k].position,
            forall|m: int|
                0 <= m < movables@.len() ==> (#[trigger] movables@[m]) < i
                    && world.bodies@[movables@[m] as int].spec_is_movable(),
            forall|id: int|
                0 <= id < i && (#[trigger] world.bodies@[id]).spec_is_movable()
                    ==> movables@.contains(id as usize),
            forall|q: int|
                0 <= q < statics@.len() ==> (#[trigger] statics@[q]).id < i
                    && statics@[q].collider == world.bodies@[statics@[q].id as int].collider
                    && statics@[q].position == world.bodies@[statics@[q].id as int].position
                    && !world.bodies@[statics@[q].id as int].spec_is_movable() && entry_wf(
                    statics@[q],
                ),
            forall|k: int|
                0 <= k < i ==> #[trigger] flg@[k] == (if world.bodies@[k].collider.spec_weight()
                    == WEIGHT_INFINITE {
                    CollisionFlags::spec_all()
                } else {
                    CollisionFlags::spec_empty()
                }),
            forall|id: int|
                0 <= id < i && !(#[trigger] world.bodies@[id]).spec_is_movable()
                    ==> exists|q: int| 0 <= q < statics@.len() && (#[trigger] statics@[q]).id
                    == id,
        decreases n - i,
    {
        let b = world.bodies[i];
        pos.push(b.position);
        if b.collider.weight() == WEIGHT_INFINITE {
            flg.push(CollisionFlags::all());
        } else {
            flg.push(CollisionFlags::empty());
        }
        if b.is_movable() {
            let ghost prevm = movables@;
            movables.push(i);
            proof {
                lemma_push_keeps_contains(prevm, i);
            }
        } else {
            let ghost prevs = statics@;
            statics.push(PartitionEntry { id: i, position: b.position, collider: b.collider });
            proof {
                assert(statics@[statics@.len() - 1].id == i);
                assert forall|id: int|
                    0 <= id < i + 1 && !(#[trigger] world.bodies@[id]).spec_is_movable()
                    implies exists|q: int|
                    0 <= q < statics@.len() && (#[trigger] statics@[q]).id == id by {
                    if id < i {
                        let q0 = choose|q0: int| 0 <= q0 < prevs.len() && prevs[q0].id == id;
                        assert(statics@[q0].id == id);
                    } else {
                        assert(statics@[statics@.len() - 1].id == id);
                    }
                }
            }
        }
        i = i + 1;
    }
    let mut partition = SpatialPartition::new(world_width, world_height);
    partition.fill(&statics);
    proof {
        assert(partition.filled@ =~= statics@);
    }
    // Tentative vertical positions.
    let mut k: usize = 0;
    while k < n
        invariant
            n == world.bodies@.len(),
            *world == w1,
            world_wf(*world),
            k <= n,
            dt_ms <= DT_LIMIT_MS,
            pos@.len() == n,
            forall|m: int| 0 <= m < n ==> pos_in_range(#[trigger] pos@[m]),
            forall|m: int|
                0 <= m < n ==> (#[trigger] pos@[m]).x == world.bodies@[m].position.x,
            forall|m: int|
                0 <= m < n && (#[trigger] world.bodies@[m]).velocity is None ==> pos@[m]
                    == world.bodies@[m].position,
            ballistic_bodies(w1.bodies@, dt_ms as int) ==> forall|m: int|
                0 <= m < n ==> #[trigger] pos@[m] == (if m < k {
                    stepped_y(w1.bodies@[m], dt_ms as int)
                } else {
                    w1.bodies@[m].position
                }),
        decreases n - k,
    {
        match world.bodies[k].velocity {
            Some(v) => {
                let d = step_displacement(v.linvel.y, dt_ms);
                let np = match move_by(pos[k], Vec2i { x: 0, y: d }) {
                    Ok(v2) => v2,
                    Err(er) => {
                        proof {
                            if ballistic_bodies(w1.bodies@, dt_ms as int) {
                                assert(pos@[k as int] == w1.bodies@[k as int].position);
                                assert(false);
                            }
                        }
                        return Err(er);
                    },
                };
                pos.set(k, np);
            },
            None => {},
        }
        k = k + 1;
    }
    proof {
        if ballistic_bodies(w1.bodies@, dt_ms as int) {
            // At the tentative positions nothing overlaps: the vertical
            // pass has nothing to resolve.
            assert forall|i3: int|
                0 <= i3 < n && (#[trigger] w1.bodies@[i3]).spec_is_movable() implies clear_of_others(
                w1,
                pos@,
                i3,
            ) by {
                assert forall|j: int|
                    0 <= j < n && j != i3 implies !overlaps(
                    #[trigger] pos@[j],
                    w1.bodies@[j].collider.size,
                    pos@[i3],
                    w1.bodies@[i3].collider.size,
                ) by {
                    assert(pos@[j] == stepped_y(w1.bodies@[j], dt_ms as int));
                    assert(pos@[i3] == stepped_y(w1.bodies@[i3], dt_ms as int));
                }
            }
            assert(all_separated(w1, pos@));
        }
    }
    // Vertical resolution.
    let evy = match resolve_axis(world, &partition, &movables, &mut pos, &mut flg, Axis::Y, p) {
        Ok(ev) => ev,
        Err(er) => {
            return Err(er);
        },
    };
    let ghost pos_y = pos@;
    let ghost flg_ye = flg@;
    proof {
        // Pin the vertical pass's result onto the snapshots: horizontal
        // coordinates were never touched, special (non-blocking) bodies
        // without a velocity were never displaced, immovable flags stay
        // fully anchored, and the pass reported its special contacts.
        assert(pass_contacts_all(
            w1,
            partition,
            pos_y,
            flg_ye,
            Axis::Y,
            p as int,
            evy.death,
            evy.win,
        ));
        assert forall|m: int| 0 <= m < n implies (#[trigger] pos_y[m]).x
            == w1.bodies@[m].position.x by {}
        assert forall|m: int|
            0 <= m < n && !w1.bodies@[m].collider.kind.spec_blocks()
                && w1.bodies@[m].velocity is None implies #[trigger] pos_y[m]
            == w1.bodies@[m].position by {}
        assert forall|m: int|
            0 <= m < n && w1.bodies@[m].collider.spec_weight() == WEIGHT_INFINITE
            implies #[trigger] flg_ye[m] == CollisionFlags::spec_all() by {}
        if ballistic_bodies(w1.bodies@, dt_ms as int) {
            assert(evy == (PassEvents { death: false, win: false }));
            assert forall|m: int| 0 <= m < n implies #[trigger] pos_y[m] == stepped_y(
                w1.bodies@[m],
                dt_ms as int,
            ) by {}
            assert forall|m: int| 0 <= m < n implies #[trigger] flg_ye[m] == (
            if w1.bodies@[m].collider.spec_weight() == WEIGHT_INFINITE {
                CollisionFlags::spec_all()
            } else {
                CollisionFlags::spec_empty()
            }) by {}
        }
    }
    // Snapshot of the vertical pass's result: its resolved vertical
    // positions, and its flags — the persisted flags are the union of
    // both passes' records, even where the horizontal pass later clears
    // a working bit.
    let mut flg_y: Vec<CollisionFlags> = Vec::new();
    let mut ys: Vec<i64> = Vec::new();
    let mut k2: usize = 0;
    while k2 < n
        invariant
            n == world.bodies@.len(),
            flg@.len() == n,
            pos@.len() == n,
            forall|m: int| 0 <= m < n ==> pos_in_range(#[trigger] pos@[m]),
            k2 <= n,
            flg_y@.len() == k2,
            ys@.len() == k2,
            forall|m: int| 0 <= m < k2 ==> #[trigger] flg_y@[m] == flg@[m],
            forall|m: int| 0 <= m < k2 ==> #[trigger] ys@[m] == pos@[m].y,
            forall|m: int| 0 <= m < k2 ==> -POS_LIMIT <= #[trigger] ys@[m] <= POS_LIMIT,
        decreases n - k2,
    {
        flg_y.push(flg[k2]);
        ys.push(pos[k2].y);
        k2 = k2 + 1;
    }
    // Tentative horizontal positions, continuing from the resolved state.
    let mut k4: usize = 0;
    while k4 < n
        invariant
            n == world.bodies@.len(),
            *world == w1,
            world_wf(*world),
            k4 <= n,
            dt_ms <= DT_LIMIT_MS,
            pos@.len() == n,
            forall|m: int| 0 <= m < n ==> pos_in_range(#[trigger] pos@[m]),
            ballistic_bodies(w1.bodies@, dt_ms as int) ==> forall|m: int|
                0 <= m < n ==> #[trigger] pos@[m] == (if m < k4 {
                    stepped_xy(w1.bodies@[m], dt_ms as int)
                } else {
                    stepped_y(w1.bodies@[m], dt_ms as int)
                }),
        decreases n - k4,
    {
        match world.bodies[k4].velocity {
            Some(v) => {
                let d = step_displacement(v.linvel.x, dt_ms);
                let np = match move_by(pos[k4], Vec2i { x: d, y: 0 }) {
                    Ok(v2) => v2,
                    Err(er) => {
                        proof {
                            if ballistic_bodies(w1.bodies@, dt_ms as int) {
                                assert(pos@[k4 as int] == stepped_y(
                                    w1.bodies@[k4 as int],
                                    dt_ms as int,
                                ));
                                assert(false);
                            }
                        }
                        return Err(er);
                    },
                };
                pos.set(k4, np);
            },
            None => {},
        }
        k4 = k4 + 1;
    }
    proof {
        if ballistic_bodies(w1.bodies@, dt_ms as int) {
            // Nothing overlaps at the fully stepped positions either.
            assert forall|i3: int|
                0 <= i3 < n && (#[trigger] w1.bodies@[i3]).spec_is_movable() implies clear_of_others(
                w1,
                pos@,
                i3,
            ) by {
                assert forall|j: int|
                    0 <= j < n && j != i3 implies !overlaps(
                    #[trigger] pos@[j],
                    w1.bodies@[j].collider.size,
                    pos@[i3],
                    w1.bodies@[i3].collider.size,
                ) by {
                    assert(pos@[j] == stepped_xy(w1.bodies@[j], dt_ms as int));
                    assert(pos@[i3] == stepped_xy(w1.bodies@[i3], dt_ms as int));
                }
            }
            assert(all_separated(w1, pos@));
        }
    }
    // Horizontal resolution.
    let evx = match resolve_axis(world, &partition, &movables, &mut pos, &mut flg, Axis::X, p) {
        Ok(ev) => ev,
        Err(er) => {
            return Err(er);
        },
    };
    // The single commit point: resolved positions (vertical from the
    // vertical pass, horizontal from the horizontal pass), velocities
    // re-derived from the allowed displacement when time advanced, and
    // the persisted contact flags. Nothing was written to the world
    // before this point, so an aborted tick never leaves partial state
    // behind.
    let mut k5: usize = 0;
    while k5 < n
        invariant
            n == world.bodies@.len(),
            w1.bodies@.len() == n,
            world_wf(*world),
            world_wf(w1),
            k5 <= n,
            dt_ms <= DT_LIMIT_MS,
            pos@.len() == n,
            ys@.len() == n,
            flg@.len() == n,
            flg_y@.len() == n,
            forall|m: int| 0 <= m < n ==> pos_in_range(#[trigger] pos@[m]),
            forall|m: int| 0 <= m < n ==> -POS_LIMIT <= #[trigger] ys@[m] <= POS_LIMIT,
            forall|m: int|
                0 <= m < k5 ==> commit_rel(
                    w1.bodies@[m],
                    #[trigger] world.bodies@[m],
                    pos@[m].x,
                    ys@[m],
                    flg_y@[m].spec_union(flg@[m]),
                    dt_ms as int,
                ),
            forall|m: int| k5 <= m < n ==> #[trigger] world.bodies@[m] == w1.bodies@[m],
        decreases n - k5,
    {
        let b = world.bodies[k5];
        let nf = flg_y[k5].union(flg[k5]);
        let nb = match b.velocity {
            Some(v) => {
                if dt_ms >= 1 {
                    let vy = derive_velocity(ys[k5] - b.position.y, dt_ms);
                    let vx = derive_velocity(pos[k5].x - b.position.x, dt_ms);
                    Body {
                        position: Vec2i { x: pos[k5].x, y: ys[k5] },
                        collider: Collider { flags: nf, ..b.collider },
                        velocity: Some(
                            Velocity { linvel: Vec2i { x: vx, y: vy }, drag: v.drag },
                        ),
                        ..b
                    }
                } else {
                    Body { collider: Collider { flags: nf, ..b.collider }, ..b }
                }
            },
            None => Body { collider: Collider { flags: nf, ..b.collider }, ..b },
        };
        world.bodies.set(k5, nb);
        k5 = k5 + 1;
    }
    let ghost w2 = *world;
    // Drag decay, after resolution, on the re-derived velocities.
    apply_drag(world, dt_ms);
    proof {
        assert forall|i2: int| 0 <= i2 < n implies {
            &&& tick_frame(w1.bodies@[i2], #[trigger] world.bodies@[i2])
            &&& (dt_ms >= 1 ==> velocity_consistent(
                w1.bodies@[i2],
                world.bodies@[i2],
                dt_ms as int,
            ))
            &&& (dt_ms == 0 ==> world.bodies@[i2].position == w1.bodies@[i2].position
                && world.bodies@[i2].velocity == w1.bodies@[i2].velocity)
            &&& world.bodies@[i2].collider.flags == flg_y@[i2].spec_union(flg@[i2])
            &&& (w1.bodies@[i2].velocity is Some && dt_ms >= 1 ==> world.bodies@[i2].position.x
                == pos@[i2].x && world.bodies@[i2].position.y == ys@[i2])
        } by {
            assert(commit_rel(
                w1.bodies@[i2],
                w2.bodies@[i2],
                pos@[i2].x,
                ys@[i2],
                flg_y@[i2].spec_union(flg@[i2]),
                dt_ms as int,
            ));
            assert(drag_applied(w2.bodies@[i2], world.bodies@[i2], dt_ms as int));
            assert(body_wf(w2.bodies@[i2]));
            lemma_tick_frame_chain(
                w1.bodies@[i2],
                w2.bodies@[i2],
                world.bodies@[i2],
                pos@[i2].x,
                ys@[i2],
                flg_y@[i2].spec_union(flg@[i2]),
                dt_ms as int,
            );
        }
        assert forall|i2: int|
            0 <= i2 < n && (#[trigger] w1.bodies@[i2]).collider.spec_weight()
                == WEIGHT_INFINITE implies world.bodies@[i2].collider.flags
            == CollisionFlags::spec_all() by {
            assert(flg_ye[i2] == CollisionFlags::spec_all());
            assert(flg@[i2] == CollisionFlags::spec_all());
            assert(flg_y@[i2] == flg_ye[i2]);
            assert(CollisionFlags::spec_all().spec_union(CollisionFlags::spec_all())
                == CollisionFlags::spec_all());
        }
        if ballistic_bodies(w1.bodies@, dt_ms as int) {
            assert forall|i2: int| 0 <= i2 < n implies (#[trigger] world.bodies@[i2]).position
                == (if w1.bodies@[i2].velocity is Some && dt_ms >= 1 {
                stepped_xy(w1.bodies@[i2], dt_ms as int)
            } else {
                w1.bodies@[i2].position
            }) && (w1.bodies@[i2].collider.spec_weight() != WEIGHT_INFINITE
                ==> world.bodies@[i2].collider.flags == CollisionFlags::spec_empty()) by {
                assert(pos@[i2] == stepped_xy(w1.bodies@[i2], dt_ms as int));
                assert(ys@[i2] == pos_y[i2].y);
                assert(pos_y[i2] == stepped_y(w1.bodies@[i2], dt_ms as int));
                assert(flg@[i2] == flg_ye[i2]);
                assert(flg_y@[i2] == flg_ye[i2]);
                if w1.bodies@[i2].collider.spec_weight() != WEIGHT_INFINITE {
                    assert(flg_ye[i2] == CollisionFlags::spec_empty());
                    assert(CollisionFlags::spec_empty().spec_union(CollisionFlags::spec_empty())
                        == CollisionFlags::spec_empty());
                }
                if w1.bodies@[i2].velocity is Some && dt_ms >= 1 {
                    assert(world.bodies@[i2].position.x == pos@[i2].x);
                    assert(world.bodies@[i2].position.y == ys@[i2]);
                    assert(stepped_xy(w1.bodies@[i2], dt_ms as int).y == stepped_y(
                        w1.bodies@[i2],
                        dt_ms as int,
                    ).y);
                }
            }
        }
    }
    let mut events: Vec<GameEvent> = Vec::new();
    if evy.death || evx.death {
        events.push(GameEvent::Death);
    }
    if evy.win || evx.win {
        events.push(GameEvent::Win);
    }
    proof {
        if evy.death || evx.death {
            assert(events@[0] == GameEvent::Death);
            assert(events@.contains(GameEvent::Death));
        }
        if evy.win || evx.win {
            assert(events@[events@.len() - 1] == GameEvent::Win);
            assert(events@.contains(GameEvent::Win));
        }
        // The vertical pass's special-contact claims, lifted to the
        // committed state: special bodies never move, so a hit the
        // caller can state of the true positions was discovered.
        if dt_ms >= 1 && w1.bodies@[p as int].spec_is_movable() && w1.bodies@[p as int].velocity
            is Some {
            assert forall|d: int|
                0 <= d < n && (#[trigger] w1.bodies@[d]).collider.kind == ColliderKind::Death
                    && w1.bodies@[d].velocity is None && axis_hit(
                    w1.bodies@[d].position,
                    w1.bodies@[d].collider.size,
                    (Vec2i {
                        x: w1.bodies@[p as int].position.x,
                        y: world.bodies@[p as int].position.y,
                    }),
                    w1.bodies@[p as int].collider.size,
                    Axis::Y,
                ) implies events@.contains(GameEvent::Death) by {
                assert(!w1.bodies@[d].spec_is_movable());
                let q = choose|q: int|
                    0 <= q < statics@.len() && (#[trigger] statics@[q]).id == d;
                assert(partition.filled@[q] == statics@[q]);
                assert(pos_y[d] == w1.bodies@[d].position);
                assert(world.bodies@[p as int].position.y == ys@[p as int]);
                assert(pos_y[p as int].y == ys@[p as int]);
                assert(pos_y[p as int] == (Vec2i {
                    x: w1.bodies@[p as int].position.x,
                    y: world.bodies@[p as int].position.y,
                }));
                assert(collide_spec(
                    w1.bodies@[d].position,
                    w1.bodies@[d].collider.size,
                    pos_y[p as int],
                    w1.bodies@[p as int].collider.size,
                ) is Some);
                assert(overlaps(
                    partition.filled@[q].position,
                    partition.filled@[q].collider.size,
                    pos_y[p as int],
                    w1.bodies@[p as int].collider.size,
                ));
                assert(partition.filled@[q].id != p as int);
                assert(evy.death);
            }
            assert forall|d: int|
                0 <= d < n && (#[trigger] w1.bodies@[d]).collider.kind == ColliderKind::Win
                    && w1.bodies@[d].velocity is None && axis_hit(
                    w1.bodies@[d].position,
                    w1.bodies@[d].collider.size,
                    (Vec2i {
                        x: w1.bodies@[p as int].position.x,
                        y: world.bodies@[p as int].position.y,
                    }),
                    w1.bodies@[p as int].collider.size,
                    Axis::Y,
                ) implies events@.contains(GameEvent::Win) by {
                assert(!w1.bodies@[d].spec_is_movable());
                let q = choose|q: int|
                    0 <= q < statics@.len() && (#[trigger] statics@[q]).id == d;
                assert(partition.filled@[q] == statics@[q]);
                assert(pos_y[d] == w1.bodies@[d].position);
                assert(world.bodies@[p as int].position.y == ys@[p as int]);
                assert(pos_y[p as int].y == ys@[p as int]);
                assert(pos_y[p as int] == (Vec2i {
                    x: w1.bodies@[p as int].position.x,
                    y: world.bodies@[p as int].position.y,
                }));
                assert(collide_spec(
                    w1.bodies@[d].position,
                    w1.bodies@[d].collider.size,
                    pos_y[p as int],
                    w1.bodies@[p as int].collider.size,
                ) is Some);
                assert(overlaps(
                    partition.filled@[q].position,
                    partition.filled@[q].collider.size,
                    pos_y[p as int],
                    w1.bodies@[p as int].collider.size,
                ));
                assert(partition.filled@[q].id != p as int);
                assert(evy.win);
            }
        }
        if dt_ms >= 1 {
            assert forall|i3: int, d: int|
                0 <= i3 < n && 0 <= d < n && (#[trigger] w1.bodies@[i3]).spec_is_movable()
                    && w1.bodies@[i3].velocity is Some && (#[trigger] w1.bodies@[d]).collider.kind
                    == ColliderKind::Sensor && w1.bodies@[d].velocity is None && axis_hit(
                    w1.bodies@[d].position,
                    w1.bodies@[d].collider.size,
                    (Vec2i {
                        x: w1.bodies@[i3].position.x,
                        y: world.bodies@[i3].position.y,
                    }),
                    w1.bodies@[i3].collider.size,
                    Axis::Y,
                ) implies world.bodies@[d].collider.flags.spec_touching(Side::Top) by {
                assert(!w1.bodies@[d].spec_is_movable());
                let q = choose|q: int|
                    0 <= q < statics@.len() && (#[trigger] statics@[q]).id == d;
                assert(partition.filled@[q] == statics@[q]);
                assert(pos_y[d] == w1.bodies@[d].position);
                assert(world.bodies@[i3].position.y == ys@[i3]);
                assert(pos_y[i3].y == ys@[i3]);
                assert(pos_y[i3] == (Vec2i {
                    x: w1.bodies@[i3].position.x,
                    y: world.bodies@[i3].position.y,
                }));
                assert(collide_spec(
                    w1.bodies@[d].position,
                    w1.bodies@[d].collider.size,
                    pos_y[i3],
                    w1.bodies@[i3].collider.size,
                ) is Some);
                assert(overlaps(
                    partition.filled@[q].position,
                    partition.filled@[q].collider.size,
                    pos_y[i3],
                    w1.bodies@[i3].collider.size,
                ));
                assert(partition.filled@[q].id != i3);
                assert(flg_ye[d].spec_touching(Side::Top));
                assert(flg_y@[d] == flg_ye[d]);
                assert(world.bodies@[d].collider.flags == flg_y@[d].spec_union(flg@[d]));
            }
        }
    }
    Ok(events)
}

/// One full simulation tick, as an explicit ordered pipeline: gravity,
/// tentative vertical step, vertical resolution, vertical velocity
/// re-derivation, the same for the horizontal axis, then the single
/// commit of positions, velocities and contact flags, and drag decay.
/// Returns the deduplicated gameplay events the resolution detected.
///
/// Without a tracked player the tick does nothing beyond gravity, and a
/// consistency violation (bad player id, non-convergence, a body pushed
/// out of the representable world) aborts the tick with only gravity
/// applied: partial physics state is never committed. The body count is
/// capped so that the solver's defensive sweep cap fits a machine word.
#[verifier::rlimit(100)]
pub fn tick(
    world: &mut World,
    dt_ms: u32,
    world_width: i64,
    world_height: i64,
    player: Option<usize>,
) -> (r: Result<Vec<GameEvent>, TickError>)
    requires
        world_wf(*old(world)),
        old(world).bodies@.len() <= 0x10_0000,
        dt_ms <= DT_LIMIT_MS,
        1 <= world_width <= WORLD_LIMIT,
        1 <= world_height <= WORLD_LIMIT,
    ensures
        world_wf(*final(world)),
        final(world).bodies@.len() == old(world).bodies@.len(),
        forall|i: int|
            0 <= i < old(world).bodies@.len() ==> tick_frame(
                old(world).bodies@[i],
                #[trigger] final(world).bodies@[i],
            ),
        r is Ok && dt_ms >= 1 && player is Some ==> forall|i: int|
            0 <= i < old(world).bodies@.len() ==> velocity_consistent(
                old(world).bodies@[i],
                #[trigger] final(world).bodies@[i],
                dt_ms as int,
            ),
        r is Ok && dt_ms == 0 ==> forall|i: int|
            0 <= i < old(world).bodies@.len() ==> (#[trigger] final(world).bodies@[i]).position
                == old(world).bodies@[i].position,
        player is None ==> (r matches Ok(ev) && ev@.len() == 0),
        (r == Err::<Vec<GameEvent>, TickError>(TickError::MissingEntity)) == (player matches Some(p)
            && p >= old(world).bodies@.len()),
        r is Err ==> forall|i: int|
            0 <= i < old(world).bodies@.len() ==> gravity_applied(
                old(world).bodies@[i],
                #[trigger] final(world).bodies@[i],
            ),
        r matches Ok(ev) ==> ev@.len() <= 2 && forall|m1: int, m2: int|
            0 <= m1 < m2 < ev@.len() ==> ev@[m1] != ev@[m2],
        // Immovable geometry ends every tick with every side anchored.
        r is Ok && player is Some ==> forall|i: int|
            0 <= i < old(world).bodies@.len() && (#[trigger] old(world).bodies@[i]).collider.spec_weight()
                == WEIGHT_INFINITE ==> final(world).bodies@[i].collider.flags
                == CollisionFlags::spec_all(),
        // With no time elapsed, velocities carry only the gravity update.
        r is Ok && dt_ms == 0 ==> forall|i: int|
            0 <= i < old(world).bodies@.len() ==> velocity_gravity_only(
                old(world).bodies@[i],
                #[trigger] final(world).bodies@[i],
            ),
        // A death zone still hitting the player's vertically resolved
        // position on the vertical axis was reported; likewise a win zone.
        r matches Ok(ev) ==> match player {
            Some(p) => (dt_ms >= 1 && p < old(world).bodies@.len() && old(
                world,
            ).bodies@[p as int].spec_is_movable() && old(world).bodies@[p as int].velocity
                is Some) ==> forall|d: int|
                0 <= d < old(world).bodies@.len()
                    && (#[trigger] old(world).bodies@[d]).collider.kind == ColliderKind::Death
                    && old(world).bodies@[d].velocity is None && axis_hit(
                    old(world).bodies@[d].position,
                    old(world).bodies@[d].collider.size,
                    (Vec2i {
                        x: old(world).bodies@[p as int].position.x,
                        y: final(world).bodies@[p as int].position.y,
                    }),
                    old(world).bodies@[p as int].collider.size,
                    Axis::Y,
                ) ==> ev@.contains(GameEvent::Death),
            None => true,
        },
        r matches Ok(ev) ==> match player {
            Some(p) => (dt_ms >= 1 && p < old(world).bodies@.len() && old(
                world,
            ).bodies@[p as int].spec_is_movable() && old(world).bodies@[p as int].velocity
                is Some) ==> forall|d: int|
                0 <= d < old(world).bodies@.len()
                    && (#[trigger] old(world).bodies@[d]).collider.kind == ColliderKind::Win
                    && old(world).bodies@[d].velocity is None && axis_hit(
                    old(world).bodies@[d].position,
                    old(world).bodies@[d].collider.size,
                    (Vec2i {
                        x: old(world).bodies@[p as int].position.x,
                        y: final(world).bodies@[p as int].position.y,
                    }),
                    old(world).bodies@[p as int].collider.size,
                    Axis::Y,
                ) ==> ev@.contains(GameEvent::Win),
            None => true,
        },
        // A sensor a moving body still overlaps at its vertically
        // resolved position shows the contact as a top touch.
        (r is Ok && dt_ms >= 1 && player is Some) ==> forall|i: int, d: int|
            0 <= i < old(world).bodies@.len() && 0 <= d < old(world).bodies@.len() && (
            #[trigger] old(world).bodies@[i]).spec_is_movable() && old(
                world,
            ).bodies@[i].velocity is Some && (#[trigger] old(world).bodies@[d]).collider.kind
                == ColliderKind::Sensor && old(world).bodies@[d].velocity is None && axis_hit(
                old(world).bodies@[d].position,
                old(world).bodies@[d].collider.size,
                (Vec2i {
                    x: old(world).bodies@[i].position.x,
                    y: final(world).bodies@[i].position.y,
                }),
                old(world).bodies@[i].collider.size,
                Axis::Y,
            ) ==> final(world).bodies@[d].collider.flags.spec_touching(Side::Top),
        // A ballistic frame with a valid player is owed success: after
        // gravity, nothing overlaps anywhere along the tentative paths,
        // so the tick reports no events and every moving body travels
        // exactly its tentative step.
        ((player matches Some(p) && p < old(world).bodies@.len()) && ballistic_bodies(
            old(world).bodies@.map_values(|b: Body| after_gravity(b)),
            dt_ms as int,
        )) ==> (r matches Ok(ev) && ev@.len() == 0 && forall|i: int|
            0 <= i < old(world).bodies@.len() ==> (#[trigger] final(world).bodies@[i]).position
                == (if old(world).bodies@[i].velocity is Some && dt_ms >= 1 {
                stepped_xy(after_gravity(old(world).bodies@[i]), dt_ms as int)
            } else {
                old(world).bodies@[i].position
            })),
{
    update_gravity(world);
    let ghost w1 = *world;
    proof {
        assert forall|i2: int| 0 <= i2 < old(world).bodies@.len() implies gravity_applied(
            old(world).bodies@[i2],
            #[trigger] w1.bodies@[i2],
        ) by {}
    }
    let p: usize = match player {
        Some(p) => p,
        None => {
            proof {
                assert forall|i2: int|
                    0 <= i2 < old(world).bodies@.len() implies tick_frame(
                    old(world).bodies@[i2],
                    #[trigger] world.bodies@[i2],
                ) && (#[trigger] world.bodies@[i2]).position == old(
                    world,
                ).bodies@[i2].position by {
                    assert(world.bodies@[i2] == w1.bodies@[i2]);
                }
            }
            return Ok(Vec::new());
        },
    };
    let n = world.bodies.len();
    if p >= n {
        proof {
            assert forall|i2: int|
                0 <= i2 < old(world).bodies@.len() implies tick_frame(
                old(world).bodies@[i2],
                #[trigger] world.bodies@[i2],
            ) by {
                assert(world.bodies@[i2] == w1.bodies@[i2]);
            }
        }
        return Err(TickError::MissingEntity);
    }
    let r = resolve_tick(world, dt_ms, world_width, world_height, p);
    proof {
        // Compose gravity with the resolved tick's per-body facts.
        assert forall|i2: int| 0 <= i2 < old(world).bodies@.len() implies {
            &&& tick_frame(old(world).bodies@[i2], #[trigger] world.bodies@[i2])
            &&& (r is Ok && dt_ms >= 1 ==> velocity_consistent(
                old(world).bodies@[i2],
                world.bodies@[i2],
                dt_ms as int,
            ))
            &&& (r is Ok && dt_ms == 0 ==> world.bodies@[i2].position == old(
                world,
            ).bodies@[i2].position && velocity_gravity_only(
                old(world).bodies@[i2],
                world.bodies@[i2],
            ))
            &&& (r is Err ==> gravity_applied(old(world).bodies@[i2], world.bodies@[i2]))
        } by {
            assert(gravity_applied(old(world).bodies@[i2], w1.bodies@[i2]));
            assert(tick_frame(w1.bodies@[i2], world.bodies@[i2]));
            if r is Err {
                assert(world.bodies@[i2] == w1.bodies@[i2]);
            }
        }
        // The tick-level ballistic frame names the gravity image of the
        // bodies; that image is exactly the state the resolved tick ran
        // from.
        assert forall|i2: int| 0 <= i2 < old(world).bodies@.len() implies old(
            world,
        ).bodies@.map_values(|b: Body| after_gravity(b))[i2] == #[trigger] w1.bodies@[i2] by {
            assert(gravity_applied(old(world).bodies@[i2], w1.bodies@[i2]));
            lemma_after_gravity(old(world).bodies@[i2], w1.bodies@[i2]);
        }
        assert(old(world).bodies@.map_values(|b: Body| after_gravity(b)) =~= w1.bodies@);
        if ballistic_bodies(old(world).bodies@.map_values(|b: Body| after_gravity(b)), dt_ms as int) {
            assert(ballistic_bodies(w1.bodies@, dt_ms as int));
            assert forall|i2: int|
                0 <= i2 < old(world).bodies@.len() implies (old(world).bodies@[i2].velocity
                is Some) == (#[trigger] w1.bodies@[i2].velocity is Some) && after_gravity(
                old(world).bodies@[i2],
            ) == w1.bodies@[i2] && old(world).bodies@[i2].position == w1.bodies@[i2].position by {
                assert(gravity_applied(old(world).bodies@[i2], w1.bodies@[i2]));
                lemma_after_gravity(old(world).bodies@[i2], w1.bodies@[i2]);
            }
        }
    }
    match r {
        Ok(events) => {
            proof {
                // The emission premises speak of the pre-gravity bodies;
                // gravity changes neither positions nor colliders, so
                // they transfer to the resolved tick's claims.
                if dt_ms >= 1 && old(world).bodies@[p as int].spec_is_movable() && old(
                    world,
                ).bodies@[p as int].velocity is Some {
                    assert(gravity_applied(old(world).bodies@[p as int], w1.bodies@[p as int]));
                    assert forall|d: int|
                        0 <= d < old(world).bodies@.len()
                            && (#[trigger] old(world).bodies@[d]).collider.kind
                            == ColliderKind::Death && old(world).bodies@[d].velocity is None
                            && axis_hit(
                            old(world).bodies@[d].position,
                            old(world).bodies@[d].collider.size,
                            (Vec2i {
                                x: old(world).bodies@[p as int].position.x,
                                y: world.bodies@[p as int].position.y,
                            }),
                            old(world).bodies@[p as int].collider.size,
                            Axis::Y,
                        ) implies events@.contains(GameEvent::Death) by {
                        assert(gravity_applied(old(world).bodies@[d], w1.bodies@[d]));
                        assert(w1.bodies@[d] == old(world).bodies@[d]);
                        assert(w1.bodies@[p as int].position == old(
                            world,
                        ).bodies@[p as int].position);
                        assert(w1.bodies@[p as int].collider == old(
                            world,
                        ).bodies@[p as int].collider);
                    }
                    assert forall|d: int|
                        0 <= d < old(world).bodies@.len()
                            && (#[trigger] old(world).bodies@[d]).collider.kind
                            == ColliderKind::Win && old(world).bodies@[d].velocity is None
                            && axis_hit(
                            old(world).bodies@[d].position,
                            old(world).bodies@[d].collider.size,
                            (Vec2i {
                                x: old(world).bodies@[p as int].position.x,
                                y: world.bodies@[p as int].position.y,
                            }),
                            old(world).bodies@[p as int].collider.size,
                            Axis::Y,
                        ) implies events@.contains(GameEvent::Win) by {
                        assert(gravity_applied(old(world).bodies@[d], w1.bodies@[d]));
                        assert(w1.bodies@[d] == old(world).bodies@[d]);
                        assert(w1.bodies@[p as int].position == old(
                            world,
                        ).bodies@[p as int].position);
                        assert(w1.bodies@[p as int].collider == old(
                            world,
                        ).bodies@[p as int].collider);
                    }
                }
            }
            Ok(events)
        },
        Err(er) => Err(er),
    }
}

} // verus!
