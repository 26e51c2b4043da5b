use platformer_physics::flags::CollisionFlags;
use platformer_physics::geom::Vec2i;
use platformer_physics::partition::{PartitionEntry, SpatialPartition};
use platformer_physics::world::{Collider, ColliderKind};

fn entry(id: usize, x: i64, y: i64, w: i64, h: i64) -> PartitionEntry {
    PartitionEntry {
        id,
        position: Vec2i::new(x, y),
        collider: Collider {
            size: Vec2i::new(w, h),
            kind: ColliderKind::Movable(u64::MAX),
            flags: CollisionFlags::empty(),
        },
    }
}

#[test]
fn query_finds_an_overlapping_snapshot() {
    let mut grid = SpatialPartition::new(1536, 1536);
    let filed = vec![entry(7, 0, 0, 96, 96)];
    grid.fill(&filed);
    let near = grid.possibilities(Vec2i::new(10, 10), Vec2i::new(96, 96));
    assert!(near.iter().any(|e| e.id == 7));
}

#[test]
fn query_far_away_finds_nothing() {
    let mut grid = SpatialPartition::new(1536, 1536);
    let filed = vec![entry(7, 0, 0, 96, 96)];
    grid.fill(&filed);
    let near = grid.possibilities(Vec2i::new(700, 700), Vec2i::new(96, 96));
    assert!(near.is_empty());
}

#[test]
fn large_snapshot_is_found_from_every_cell_it_covers() {
    let mut grid = SpatialPartition::new(1536, 1536);
    // A floor spanning many cells.
    let filed = vec![entry(3, 0, 0, 960, 96)];
    grid.fill(&filed);
    for x in [-400i64, -100, 0, 150, 400] {
        let near = grid.possibilities(Vec2i::new(x, 0), Vec2i::new(60, 96));
        assert!(near.iter().any(|e| e.id == 3), "missed at x={}", x);
    }
}

#[test]
fn out_of_world_queries_are_clamped_not_lost() {
    let mut grid = SpatialPartition::new(1536, 1536);
    // A snapshot near the world's corner.
    let filed = vec![entry(1, -760, -760, 96, 96)];
    grid.fill(&filed);
    // A query overlapping it from outside the nominal world still finds it.
    let near = grid.possibilities(Vec2i::new(-800, -800), Vec2i::new(200, 200));
    assert!(near.iter().any(|e| e.id == 1));
}
