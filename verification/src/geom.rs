use vstd::prelude::*;

verus! {

/// Side length of one map tile, in world units. Collider sizes and the
/// spatial grid's cell size are expressed as multiples of it.
pub const BLOCK_SIZE: i64 = 96;

/// Largest magnitude a position coordinate may take. Keeping positions in
/// this range lets every intermediate of the collision arithmetic fit in
/// an `i64` with room to spare.
pub const POS_LIMIT: i64 = 0x4000_0000;

/// Largest extent of a collider along one axis.
pub const SIZE_LIMIT: i64 = 0x4000_0000;

/// A point or extent in the 2D world, in integer world units.
///
/// Positions name the center of a box; sizes give its full width (`x`)
/// and height (`y`).
#[derive(Debug, Clone, Copy, PartialEq, Eq, Structural)]
pub struct Vec2i {
    pub x: i64,
    pub y: i64,
}

impl Vec2i {
    pub fn new(x: i64, y: i64) -> (r: Vec2i)
        ensures
            r.x == x && r.y == y,
    {
        Vec2i { x, y }
    }

    /// The component along `axis`.
    pub open spec fn spec_on(self, axis: Axis) -> i64 {
        match axis {
            Axis::X => self.x,
            Axis::Y => self.y,
        }
    }

    pub fn on(self, axis: Axis) -> (r: i64)
        ensures
            r == self.spec_on(axis),
    {
        match axis {
            Axis::X => self.x,
            Axis::Y => self.y,
        }
    }
}

/// Both coordinates lie in the representable world range.
pub open spec fn pos_in_range(v: Vec2i) -> bool {
    -POS_LIMIT <= v.x <= POS_LIMIT && -POS_LIMIT <= v.y <= POS_LIMIT
}

/// A box extent: strictly positive and bounded along both axes.
pub open spec fn size_in_range(v: Vec2i) -> bool {
    0 < v.x <= SIZE_LIMIT && 0 < v.y <= SIZE_LIMIT
}

/// One of the two world axes. Vertical overlaps are resolved before
/// horizontal ones, so `Y` is handled first by the tick pipeline.
#[derive(Debug, Clone, Copy, PartialEq, Eq, Structural)]
pub enum Axis {
    X,
    Y,
}

/// One of the four sides of an axis-aligned box.
#[derive(Debug, Clone, Copy, PartialEq, Eq, Structural)]
pub enum Side {
    Left,
    Right,
    Top,
    Bottom,
}

impl Side {
    /// The side that faces this one on the other body: top against bottom,
    /// left against right.
    pub open spec fn spec_opposite(self) -> Side {
        match self {
            Side::Left => Side::Right,
            Side::Right => Side::Left,
            Side::Top => Side::Bottom,
            Side::Bottom => Side::Top,
        }
    }

    pub fn opposite(self) -> (r: Side)
        ensures
            r == self.spec_opposite(),
    {
        match self {
            Side::Left => Side::Right,
            Side::Right => Side::Left,
            Side::Top => Side::Bottom,
            Side::Bottom => Side::Top,
        }
    }

    /// The axis this side delimits the box along.
    pub open spec fn spec_axis(self) -> Axis {
        match self {
            Side::Left | Side::Right => Axis::X,
            Side::Top | Side::Bottom => Axis::Y,
        }
    }

    pub fn axis(self) -> (r: Axis)
        ensures
            r == self.spec_axis(),
    {
        match self {
            Side::Left | Side::Right => Axis::X,
            Side::Top | Side::Bottom => Axis::Y,
        }
    }
}

} // verus!
