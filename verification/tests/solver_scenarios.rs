use platformer_physics::collide::collide;
use platformer_physics::flags::CollisionFlags;
use platformer_physics::geom::{Side, Vec2i};
use platformer_physics::resolve::{tick, GameEvent, TickError};
use platformer_physics::world::{
    Body, Collider, ColliderKind, Gravity, Velocity, World,
};

const DIMS: i64 = 1536;

fn fixed(x: i64, y: i64, w: i64, h: i64, kind: ColliderKind) -> Body {
    Body {
        position: Vec2i::new(x, y),
        collider: Collider {
            size: Vec2i::new(w, h),
            kind,
            flags: CollisionFlags::empty(),
        },
        velocity: None,
        gravity: None,
    }
}

fn floor_at(x: i64, y: i64) -> Body {
    fixed(x, y, 960, 96, ColliderKind::Movable(u64::MAX))
}

fn mover(x: i64, y: i64, w: i64, h: i64, weight: u64, vx: i64, vy: i64) -> Body {
    Body {
        position: Vec2i::new(x, y),
        collider: Collider {
            size: Vec2i::new(w, h),
            kind: ColliderKind::Movable(weight),
            flags: CollisionFlags::empty(),
        },
        velocity: Some(Velocity {
            linvel: Vec2i::new(vx, vy),
            drag: Vec2i::new(0, 0),
        }),
        gravity: None,
    }
}

fn player_at(x: i64, y: i64) -> Body {
    let mut b = mover(x, y, 60, 96, 5, 0, 0);
    b.gravity = Some(Gravity(100));
    b
}

#[test]
fn falling_player_lands_on_the_floor() {
    // A 60x96 player of weight 5 falls under gravity onto an immovable
    // 960x96 floor below; it ends resting on the floor's top edge with
    // its bottom contact set and no vertical velocity left.
    let mut world = World::new();
    let floor = world.add(floor_at(0, 0));
    let player = world.add(player_at(0, 400));
    for _ in 0..60 {
        let ev = tick(&mut world, 100, DIMS, DIMS, Some(player)).unwrap();
        assert!(ev.is_empty());
    }
    let b = world.get(player);
    // Resting: player bottom edge (y - 48) on the floor top edge (48).
    assert_eq!(b.position.y, 96);
    assert_eq!(b.velocity.unwrap().linvel.y, 0);
    assert!(b.collider.flags.touching(Side::Bottom));
    assert!(b.collider.flags.is_locked(Side::Bottom));
    // No residual penetration between player and floor.
    let f = world.get(floor);
    // Immovable geometry reports every side anchored.
    assert_eq!(f.collider.flags, CollisionFlags::all());
    assert_eq!(
        collide(f.position, f.collider.size, b.position, b.collider.size),
        None
    );
}

#[test]
fn resting_body_is_idempotent_tick_over_tick() {
    // Once supported, a body with no horizontal velocity keeps its
    // position exactly, every tick.
    let mut world = World::new();
    let _floor = world.add(floor_at(0, 0));
    let player = world.add(player_at(0, 400));
    for _ in 0..60 {
        tick(&mut world, 100, DIMS, DIMS, Some(player)).unwrap();
    }
    let settled = world.get(player).position;
    for _ in 0..20 {
        tick(&mut world, 100, DIMS, DIMS, Some(player)).unwrap();
        let now = world.get(player).position;
        assert_eq!(now, settled);
        assert!(world.get(player).collider.flags.touching(Side::Bottom));
    }
}

#[test]
fn lighter_body_yields_to_heavier() {
    // Two overlapping movable bodies: the lighter one is displaced, the
    // heavier one keeps its position.
    let mut world = World::new();
    let light = world.add(mover(0, 0, 96, 96, 5, 0, 0));
    let heavy = world.add(mover(80, 0, 96, 96, 500, 0, 0));
    let ev = tick(&mut world, 16, DIMS, DIMS, Some(light)).unwrap();
    assert!(ev.is_empty());
    assert_eq!(world.get(light).position.x, -16);
    assert_eq!(world.get(heavy).position.x, 80);
    // They end exactly edge to edge.
    let a = world.get(light);
    let b = world.get(heavy);
    assert_eq!(
        collide(b.position, b.collider.size, a.position, a.collider.size),
        None
    );
}

#[test]
fn equal_weights_split_the_overlap() {
    // Two equal-weight bodies pushed into each other from opposite
    // directions each absorb half the overlap.
    let mut world = World::new();
    let a = world.add(mover(0, 0, 96, 96, 5, 200, 0));
    let b = world.add(mover(100, 0, 96, 96, 5, -200, 0));
    let ev = tick(&mut world, 50, DIMS, DIMS, Some(a)).unwrap();
    assert!(ev.is_empty());
    // Tentative step moves them to 10 and 90 (16 units of overlap);
    // the split pushes each back by 8.
    assert_eq!(world.get(a).position.x, 2);
    assert_eq!(world.get(b).position.x, 98);
    let da = world.get(a).position.x - 0;
    let db = world.get(b).position.x - 100;
    assert_eq!(da, -db);
    let ba = world.get(a);
    let bb = world.get(b);
    assert_eq!(
        collide(bb.position, bb.collider.size, ba.position, ba.collider.size),
        None
    );
}

#[test]
fn heavier_body_pushes_lighter_out_of_its_way() {
    let mut world = World::new();
    let heavy = world.add(mover(0, 0, 96, 96, 500, 200, 0));
    let light = world.add(mover(100, 0, 96, 96, 5, 0, 0));
    tick(&mut world, 50, DIMS, DIMS, Some(light)).unwrap();
    // The heavy body advanced its full step; the light one was pushed
    // just far enough to make room.
    assert_eq!(world.get(heavy).position.x, 10);
    assert_eq!(world.get(light).position.x, 106);
    // The displaced body's velocity follows what the solver allowed.
    assert_eq!(world.get(light).velocity.unwrap().linvel.x, 120);
}

#[test]
fn stacked_bodies_settle_without_jitter() {
    // A box lands on the floor, a second box lands on the first. The
    // supported box anchors its bottom contact with the lock taken from
    // the immovable floor; the stacked box rests on it edge to edge.
    let mut world = World::new();
    let _floor = world.add(floor_at(0, 0));
    let lower = world.add({
        let mut b = mover(0, 300, 96, 96, 5, 0, 0);
        b.gravity = Some(Gravity(100));
        b
    });
    let upper = world.add({
        let mut b = mover(0, 500, 96, 96, 5, 0, 0);
        b.gravity = Some(Gravity(100));
        b
    });
    for _ in 0..80 {
        tick(&mut world, 100, DIMS, DIMS, Some(lower)).unwrap();
    }
    assert_eq!(world.get(lower).position.y, 96);
    assert_eq!(world.get(upper).position.y, 192);
    assert!(world.get(lower).collider.flags.touching(Side::Bottom));
    assert!(world.get(lower).collider.flags.is_locked(Side::Bottom));
    assert!(world.get(upper).collider.flags.touching(Side::Bottom));
}

#[test]
fn player_on_death_zone_emits_exactly_one_death() {
    // However many overlaps the passes detect, the tick reports a single
    // death event.
    let mut world = World::new();
    let _zone = world.add(fixed(0, 0, 96, 96, ColliderKind::Death));
    let player = world.add(player_at(0, 20));
    let ev = tick(&mut world, 16, DIMS, DIMS, Some(player)).unwrap();
    assert_eq!(ev, vec![GameEvent::Death]);
}

#[test]
fn non_player_death_contact_emits_nothing() {
    let mut world = World::new();
    let _zone = world.add(fixed(0, 0, 96, 96, ColliderKind::Death));
    let _crate_body = world.add(mover(0, 20, 96, 96, 7, 0, 0));
    let player = world.add(player_at(600, 600));
    let ev = tick(&mut world, 16, DIMS, DIMS, Some(player)).unwrap();
    assert!(ev.is_empty());
}

#[test]
fn win_zone_emits_a_win() {
    let mut world = World::new();
    let _zone = world.add(fixed(0, 0, 96, 96, ColliderKind::Win));
    let player = world.add(player_at(0, 20));
    let ev = tick(&mut world, 16, DIMS, DIMS, Some(player)).unwrap();
    assert_eq!(ev, vec![GameEvent::Win]);
}

#[test]
fn death_and_win_are_each_reported_once() {
    let mut world = World::new();
    let _death = world.add(fixed(0, 0, 96, 96, ColliderKind::Death));
    let _win = world.add(fixed(20, 0, 96, 96, ColliderKind::Win));
    let player = world.add(player_at(10, 20));
    let ev = tick(&mut world, 16, DIMS, DIMS, Some(player)).unwrap();
    assert_eq!(ev.len(), 2);
    assert!(ev.contains(&GameEvent::Death));
    assert!(ev.contains(&GameEvent::Win));
}

#[test]
fn sensor_records_a_top_contact_without_blocking() {
    // A body overlapping a sensor keeps moving freely, while the sensor's
    // own record shows the contact; buttons read exactly this.
    let mut world = World::new();
    let sensor = world.add(fixed(0, -60, 96, 32, ColliderKind::Sensor));
    let player = world.add(player_at(0, 0));
    tick(&mut world, 16, DIMS, DIMS, Some(player)).unwrap();
    assert!(world.get(sensor).collider.flags.touching(Side::Top));
    // The sensor did not push the player anywhere.
    assert_eq!(world.get(player).position.x, 0);
}

#[test]
fn inert_colliders_are_ignored() {
    let mut world = World::new();
    let _door = world.add(fixed(0, 0, 96, 96, ColliderKind::Inert));
    let player = world.add(player_at(0, 20));
    let before = world.get(player).position;
    let ev = tick(&mut world, 0, DIMS, DIMS, Some(player)).unwrap();
    assert!(ev.is_empty());
    assert_eq!(world.get(player).position, before);
}

#[test]
fn unobstructed_body_travels_its_tentative_step() {
    // A ballistic frame: nothing anywhere near the mover, so it lands
    // exactly at its tentative target with no events and empty flags.
    let mut world = World::new();
    let _floor = world.add(floor_at(0, -400));
    let body = world.add(mover(0, 600, 60, 96, 5, 100, -50));
    let ev = tick(&mut world, 100, DIMS, DIMS, Some(body)).unwrap();
    assert!(ev.is_empty());
    assert_eq!(world.get(body).position, Vec2i::new(10, 595));
    assert!(world.get(body).collider.flags.is_empty());
}

#[test]
fn inert_bodies_never_push_or_drift() {
    // An inert collider has no collision response in either role: it
    // neither blocks the heavy body nor gets displaced by overlapping it.
    let mut world = World::new();
    let ghostly = world.add({
        let mut b = mover(0, 0, 96, 96, 5, 0, 0);
        b.collider.kind = ColliderKind::Inert;
        b
    });
    let heavy = world.add(mover(50, 0, 96, 96, 500, 0, 0));
    let ev = tick(&mut world, 16, DIMS, DIMS, Some(heavy)).unwrap();
    assert!(ev.is_empty());
    assert_eq!(world.get(ghostly).position.x, 0);
    assert_eq!(world.get(heavy).position.x, 50);
}

#[test]
fn missing_player_id_aborts_the_tick() {
    let mut world = World::new();
    let _floor = world.add(floor_at(0, 0));
    let r = tick(&mut world, 16, DIMS, DIMS, Some(7));
    assert_eq!(r, Err(TickError::MissingEntity));
}

#[test]
fn a_step_out_of_the_world_aborts_the_tick() {
    // A velocity large enough that one frame's displacement leaves the
    // representable world range is a consistency violation.
    let mut world = World::new();
    let player = world.add(mover(0, 0, 60, 96, 5, 4_000_000_000_000, 0));
    let r = tick(&mut world, 1000, DIMS, DIMS, Some(player));
    assert_eq!(r, Err(TickError::OutOfWorld));
    // The aborted tick left the position untouched.
    assert_eq!(world.get(player).position, Vec2i::new(0, 0));
}

#[test]
fn no_player_means_no_physics_beyond_gravity() {
    let mut world = World::new();
    let player = world.add(player_at(0, 400));
    let before_y = world.get(player).position.y;
    let ev = tick(&mut world, 100, DIMS, DIMS, None).unwrap();
    assert!(ev.is_empty());
    assert_eq!(world.get(player).position.y, before_y);
    // Gravity still accrued.
    assert_eq!(world.get(player).velocity.unwrap().linvel.y, -100);
}

#[test]
fn zero_delta_resolves_flags_but_not_positions() {
    let mut world = World::new();
    let _floor = world.add(floor_at(0, 0));
    let player = world.add(player_at(0, 40));
    let before = world.get(player).position;
    tick(&mut world, 0, DIMS, DIMS, Some(player)).unwrap();
    assert_eq!(world.get(player).position, before);
    assert!(world.get(player).collider.flags.touching(Side::Bottom));
}
