use platformer_physics::flags::CollisionFlags;
use platformer_physics::geom::{Axis, Side};

#[test]
fn empty_has_no_bits() {
    let f = CollisionFlags::empty();
    assert!(!f.touching(Side::Top));
    assert!(!f.touching(Side::Bottom));
    assert!(!f.touching(Side::Left));
    assert!(!f.touching(Side::Right));
    assert!(!f.is_locked(Side::Top));
    assert!(f.is_empty());
    assert_eq!(f.bits(), 0);
}

#[test]
fn all_has_every_bit() {
    let f = CollisionFlags::all();
    assert!(f.touching(Side::Top));
    assert!(f.touching(Side::Bottom));
    assert!(f.touching(Side::Left));
    assert!(f.touching(Side::Right));
    assert!(f.is_locked(Side::Top));
    assert!(f.is_locked(Side::Bottom));
    assert!(f.is_locked(Side::Left));
    assert!(f.is_locked(Side::Right));
    assert!(!f.is_empty());
    assert_eq!(f.bits(), 255);
}

#[test]
fn packed_layout_matches_the_byte_encoding() {
    // bottom, left, right, top occupy the low bits 1, 2, 4, 8.
    let e = CollisionFlags::empty();
    assert_eq!(e.with_touch(Side::Bottom).bits(), 1);
    assert_eq!(e.with_touch(Side::Left).bits(), 2);
    assert_eq!(e.with_touch(Side::Right).bits(), 4);
    assert_eq!(e.with_touch(Side::Top).bits(), 8);
}

#[test]
fn lock_bit_is_touch_bit_shifted_by_four() {
    let e = CollisionFlags::empty();
    for s in [Side::Bottom, Side::Left, Side::Right, Side::Top] {
        assert_eq!(e.with_lock(s).bits(), e.with_touch(s).bits() << 4);
    }
}

#[test]
fn with_touch_sets_only_that_side() {
    let f = CollisionFlags::empty().with_touch(Side::Left);
    assert!(f.touching(Side::Left));
    assert!(!f.touching(Side::Right));
    assert!(!f.touching(Side::Top));
    assert!(!f.touching(Side::Bottom));
    assert!(!f.is_locked(Side::Left));
}

#[test]
fn without_touch_clears_only_the_touch_bit() {
    let f = CollisionFlags::empty().with_touch(Side::Top).with_lock(Side::Top);
    let g = f.without_touch(Side::Top);
    assert!(!g.touching(Side::Top));
    assert!(g.is_locked(Side::Top));
}

#[test]
fn union_is_bitwise_or() {
    let a = CollisionFlags::empty().with_touch(Side::Top);
    let b = CollisionFlags::empty().with_touch(Side::Bottom).with_lock(Side::Left);
    let u = a.union(b);
    assert!(u.touching(Side::Top));
    assert!(u.touching(Side::Bottom));
    assert!(u.is_locked(Side::Left));
    assert!(!u.touching(Side::Left));
    assert_eq!(u.bits(), a.bits() | b.bits());
}

#[test]
fn flags_default_is_empty() {
    assert_eq!(CollisionFlags::default(), CollisionFlags::empty());
}

#[test]
fn side_opposites_and_axes() {
    assert_eq!(Side::Top.opposite(), Side::Bottom);
    assert_eq!(Side::Bottom.opposite(), Side::Top);
    assert_eq!(Side::Left.opposite(), Side::Right);
    assert_eq!(Side::Right.opposite(), Side::Left);
    assert_eq!(Side::Left.axis(), Axis::X);
    assert_eq!(Side::Right.axis(), Axis::X);
    assert_eq!(Side::Top.axis(), Axis::Y);
    assert_eq!(Side::Bottom.axis(), Axis::Y);
}
