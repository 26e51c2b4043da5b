use vstd::prelude::*;

use crate::geom::{Axis, Side, Vec2i, pos_in_range, size_in_range};

verus! {

/// How one box overlaps another, as reported by [`collide`]: the side of
/// the second box on which the penetration is shallowest, or `Inside` when
/// neither axis has a shallow side (full containment).
#[derive(Debug, Clone, Copy, PartialEq, Eq, Structural)]
pub enum Collision {
    Left,
    Right,
    Top,
    Bottom,
    Inside,
}

impl Collision {
    /// The contact side this collision records on the second box.
    /// Containment counts as a top contact and is pushed out upward, so a
    /// pushable direction exists even for fully enclosed boxes.
    pub open spec fn spec_side(self) -> Side {
        match self {
            Collision::Left => Side::Left,
            Collision::Right => Side::Right,
            Collision::Top | Collision::Inside => Side::Top,
            Collision::Bottom => Side::Bottom,
        }
    }

    pub fn side(self) -> (r: Side)
        ensures
            r == self.spec_side(),
    {
        match self {
            Collision::Left => Side::Left,
            Collision::Right => Side::Right,
            Collision::Top | Collision::Inside => Side::Top,
            Collision::Bottom => Side::Bottom,
        }
    }

    /// Whether the pass resolving `axis` handles this collision. Each side
    /// belongs to its own axis; containment is handled by both passes.
    pub open spec fn spec_relevant_to(self, axis: Axis) -> bool {
        match self {
            Collision::Left | Collision::Right => axis == Axis::X,
            Collision::Top | Collision::Bottom => axis == Axis::Y,
            Collision::Inside => true,
        }
    }

    pub fn relevant_to(self, axis: Axis) -> (r: bool)
        ensures
            r == self.spec_relevant_to(axis),
    {
        match self {
            Collision::Left | Collision::Right => matches!(axis, Axis::X),
            Collision::Top | Collision::Bottom => matches!(axis, Axis::Y),
            Collision::Inside => true,
        }
    }
}

/// Two intervals centered at `ap` and `bp` with full extents `asz` and
/// `bsz` strictly overlap. Stated over doubled coordinates so that no
/// halving is needed: centers are doubled, extents stay whole.
pub open spec fn overlap_axis(ap: int, asz: int, bp: int, bsz: int) -> bool {
    2 * ap - asz < 2 * bp + bsz && 2 * ap + asz > 2 * bp - bsz
}

/// The two boxes strictly overlap on both axes.
pub open spec fn overlaps(a_pos: Vec2i, a_size: Vec2i, b_pos: Vec2i, b_size: Vec2i) -> bool {
    overlap_axis(a_pos.x as int, a_size.x as int, b_pos.x as int, b_size.x as int)
        && overlap_axis(a_pos.y as int, a_size.y as int, b_pos.y as int, b_size.y as int)
}

/// Box `a` sticks out past `b`'s left edge: `a` starts left of `b`, reaches
/// into it, and ends before `b` does.
pub open spec fn x_left(a_pos: Vec2i, a_size: Vec2i, b_pos: Vec2i, b_size: Vec2i) -> bool {
    2 * a_pos.x - a_size.x < 2 * b_pos.x - b_size.x
        && 2 * a_pos.x + a_size.x > 2 * b_pos.x - b_size.x
        && 2 * a_pos.x + a_size.x < 2 * b_pos.x + b_size.x
}

pub open spec fn x_right(a_pos: Vec2i, a_size: Vec2i, b_pos: Vec2i, b_size: Vec2i) -> bool {
    2 * a_pos.x - a_size.x > 2 * b_pos.x - b_size.x
        && 2 * a_pos.x - a_size.x < 2 * b_pos.x + b_size.x
        && 2 * a_pos.x + a_size.x > 2 * b_pos.x + b_size.x
}

pub open spec fn y_bottom(a_pos: Vec2i, a_size: Vec2i, b_pos: Vec2i, b_size: Vec2i) -> bool {
    2 * a_pos.y - a_size.y < 2 * b_pos.y - b_size.y
        && 2 * a_pos.y + a_size.y > 2 * b_pos.y - b_size.y
        && 2 * a_pos.y + a_size.y < 2 * b_pos.y + b_size.y
}

pub open spec fn y_top(a_pos: Vec2i, a_size: Vec2i, b_pos: Vec2i, b_size: Vec2i) -> bool {
    2 * a_pos.y - a_size.y > 2 * b_pos.y - b_size.y
        && 2 * a_pos.y - a_size.y < 2 * b_pos.y + b_size.y
        && 2 * a_pos.y + a_size.y > 2 * b_pos.y + b_size.y
}

/// Penetration depth (doubled, as a negative number) of `a` past `b`'s left
/// edge, valid when `x_left` holds.
pub open spec fn x_left_depth(a_pos: Vec2i, a_size: Vec2i, b_pos: Vec2i, b_size: Vec2i) -> int {
    (2 * b_pos.x - b_size.x) - (2 * a_pos.x + a_size.x)
}

pub open spec fn x_right_depth(a_pos: Vec2i, a_size: Vec2i, b_pos: Vec2i, b_size: Vec2i) -> int {
    (2 * a_pos.x - a_size.x) - (2 * b_pos.x + b_size.x)
}

pub open spec fn y_bottom_depth(a_pos: Vec2i, a_size: Vec2i, b_pos: Vec2i, b_size: Vec2i) -> int {
    (2 * b_pos.y - b_size.y) - (2 * a_pos.y + a_size.y)
}

pub open spec fn y_top_depth(a_pos: Vec2i, a_size: Vec2i, b_pos: Vec2i, b_size: Vec2i) -> int {
    (2 * a_pos.y - a_size.y) - (2 * b_pos.y + b_size.y)
}

pub open spec fn abs_int(v: int) -> int {
    if v >= 0 {
        v
    } else {
        -v
    }
}

/// The overlap test: does box `a` overlap box `b`, and if so on which side
/// of `b` is the penetration shallowest? Ties between the axes go to the
/// horizontal side; an overlap with no shallow side on either axis is
/// `Inside`.
pub open spec fn collide_spec(a_pos: Vec2i, a_size: Vec2i, b_pos: Vec2i, b_size: Vec2i) -> Option<
    Collision,
> {
    if !overlaps(a_pos, a_size, b_pos, b_size) {
        Option::None
    } else {
        let xl = x_left(a_pos, a_size, b_pos, b_size);
        let xr = x_right(a_pos, a_size, b_pos, b_size);
        let yb = y_bottom(a_pos, a_size, b_pos, b_size);
        let yt = y_top(a_pos, a_size, b_pos, b_size);
        let xd = if xl {
            x_left_depth(a_pos, a_size, b_pos, b_size)
        } else {
            x_right_depth(a_pos, a_size, b_pos, b_size)
        };
        let yd = if yb {
            y_bottom_depth(a_pos, a_size, b_pos, b_size)
        } else {
            y_top_depth(a_pos, a_size, b_pos, b_size)
        };
        if (xl || xr) && (yb || yt) {
            if abs_int(yd) < abs_int(xd) {
                Option::Some(if yb { Collision::Bottom } else { Collision::Top })
            } else {
                Option::Some(if xl { Collision::Left } else { Collision::Right })
            }
        } else if xl || xr {
            Option::Some(if xl { Collision::Left } else { Collision::Right })
        } else if yb || yt {
            Option::Some(if yb { Collision::Bottom } else { Collision::Top })
        } else {
            Option::Some(Collision::Inside)
        }
    }
}

/// Runtime overlap classifier; agrees exactly with [`collide_spec`].
pub fn collide(a_pos: Vec2i, a_size: Vec2i, b_pos: Vec2i, b_size: Vec2i) -> (r: Option<Collision>)
    requires
        pos_in_range(a_pos),
        pos_in_range(b_pos),
        size_in_range(a_size),
        size_in_range(b_size),
    ensures
        r == collide_spec(a_pos, a_size, b_pos, b_size),
{
    let a_min_x: i64 = 2 * a_pos.x - a_size.x;
    let a_max_x: i64 = 2 * a_pos.x + a_size.x;
    let a_min_y: i64 = 2 * a_pos.y - a_size.y;
    let a_max_y: i64 = 2 * a_pos.y + a_size.y;
    let b_min_x: i64 = 2 * b_pos.x - b_size.x;
    let b_max_x: i64 = 2 * b_pos.x + b_size.x;
    let b_min_y: i64 = 2 * b_pos.y - b_size.y;
    let b_max_y: i64 = 2 * b_pos.y + b_size.y;
    if !(a_min_x < b_max_x && a_max_x > b_min_x && a_min_y < b_max_y && a_max_y > b_min_y) {
        return Option::None;
    }
    let xl = a_min_x < b_min_x && a_max_x > b_min_x && a_max_x < b_max_x;
    let xr = a_min_x > b_min_x && a_min_x < b_max_x && a_max_x > b_max_x;
    let yb = a_min_y < b_min_y && a_max_y > b_min_y && a_max_y < b_max_y;
    let yt = a_min_y > b_min_y && a_min_y < b_max_y && a_max_y > b_max_y;
    let xd: i64 = if xl {
        b_min_x - a_max_x
    } else {
        a_min_x - b_max_x
    };
    let yd: i64 = if yb {
        b_min_y - a_max_y
    } else {
        a_min_y - b_max_y
    };
    let xd_abs: i64 = if xd >= 0 {
        xd
    } else {
        -xd
    };
    let yd_abs: i64 = if yd >= 0 {
        yd
    } else {
        -yd
    };
    if (xl || xr) && (yb || yt) {
        if yd_abs < xd_abs {
            Option::Some(if yb {
                Collision::Bottom
            } else {
                Collision::Top
            })
        } else {
            Option::Some(if xl {
                Collision::Left
            } else {
                Collision::Right
            })
        }
    } else if xl || xr {
        Option::Some(if xl {
            Collision::Left
        } else {
            Collision::Right
        })
    } else if yb || yt {
        Option::Some(if yb {
            Collision::Bottom
        } else {
            Collision::Top
        })
    } else {
        Option::Some(Collision::Inside)
    }
}

/// Rounds the half of a doubled quantity to the nearest whole unit, halves
/// away from zero, matching round-to-nearest of `n / 2`.
pub open spec fn half_round(n: int) -> int {
    if n >= 0 {
        (n + 1) / 2
    } else {
        -((1 - n) / 2)
    }
}

/// The doubled separation distance along the push axis: how far box `a`
/// must move, relative to `b`, for the edges named by `c` to come apart
/// exactly.
pub open spec fn push_num(c: Collision, a_pos: Vec2i, a_size: Vec2i, b_pos: Vec2i, b_size: Vec2i) -> int {
    match c {
        Collision::Left => (2 * b_pos.x + b_size.x) - (2 * a_pos.x - a_size.x),
        Collision::Right => (2 * b_pos.x - b_size.x) - (2 * a_pos.x + a_size.x),
        Collision::Top => (2 * b_pos.y - b_size.y) - (2 * a_pos.y + a_size.y),
        Collision::Bottom | Collision::Inside => (2 * b_pos.y + b_size.y) - (2 * a_pos.y
            - a_size.y),
    }
}

/// The minimum whole-unit displacement of `a` relative to `b` that
/// separates the two boxes along the axis of `c`, rounded to the nearest
/// unit. The other component is zero.
pub open spec fn push_spec(c: Collision, a_pos: Vec2i, a_size: Vec2i, b_pos: Vec2i, b_size: Vec2i) -> Vec2i {
    let p = half_round(push_num(c, a_pos, a_size, b_pos, b_size));
    match c {
        Collision::Left | Collision::Right => Vec2i { x: p as i64, y: 0 },
        Collision::Top | Collision::Bottom | Collision::Inside => Vec2i { x: 0, y: p as i64 },
    }
}

/// Runtime push vector; agrees exactly with [`push_spec`].
pub fn push_force(c: Collision, a_pos: Vec2i, a_size: Vec2i, b_pos: Vec2i, b_size: Vec2i) -> (r:
    Vec2i)
    requires
        pos_in_range(a_pos),
        pos_in_range(b_pos),
        size_in_range(a_size),
        size_in_range(b_size),
    ensures
        r == push_spec(c, a_pos, a_size, b_pos, b_size),
        -0x100_0000_0000 <= r.x <= 0x100_0000_0000,
        -0x100_0000_0000 <= r.y <= 0x100_0000_0000,
{
    let n: i64 = match c {
        Collision::Left => (2 * b_pos.x + b_size.x) - (2 * a_pos.x - a_size.x),
        Collision::Right => (2 * b_pos.x - b_size.x) - (2 * a_pos.x + a_size.x),
        Collision::Top => (2 * b_pos.y - b_size.y) - (2 * a_pos.y + a_size.y),
        Collision::Bottom | Collision::Inside => (2 * b_pos.y + b_size.y) - (2 * a_pos.y
            - a_size.y),
    };
    let p: i64 = if n >= 0 {
        (((n as u64) + 1) / 2) as i64
    } else {
        -((((1 - n) as u64) / 2) as i64)
    };
    proof {
        lemma_half_round_bounds(n as int);
    }
    match c {
        Collision::Left | Collision::Right => Vec2i { x: p, y: 0 },
        Collision::Top | Collision::Bottom | Collision::Inside => Vec2i { x: 0, y: p },
    }
}

/// The classifier reports a collision exactly when the boxes overlap.
pub proof fn lemma_collide_characterizes_overlap(
    a_pos: Vec2i,
    a_size: Vec2i,
    b_pos: Vec2i,
    b_size: Vec2i,
)
    ensures
        collide_spec(a_pos, a_size, b_pos, b_size) is Some == overlaps(
            a_pos,
            a_size,
            b_pos,
            b_size,
        ),
{
}

/// The push vector points out of the overlap and is never zero: a box with
/// something on its left is pushed right, one with something above is
/// pushed down, and so on. The component off the push axis is zero.
pub proof fn lemma_push_nonzero(c: Collision, s_pos: Vec2i, s_size: Vec2i, o_pos: Vec2i, o_size: Vec2i)
    requires
        collide_spec(o_pos, o_size, s_pos, s_size) == Some(c),
    ensures
        c == Collision::Left ==> push_spec(c, s_pos, s_size, o_pos, o_size).x >= 1,
        c == Collision::Right ==> push_spec(c, s_pos, s_size, o_pos, o_size).x <= -1,
        c == Collision::Top ==> push_spec(c, s_pos, s_size, o_pos, o_size).y <= -1,
        (c == Collision::Bottom || c == Collision::Inside) ==> push_spec(
            c,
            s_pos,
            s_size,
            o_pos,
            o_size,
        ).y >= 1,
        c.spec_side().spec_axis() == Axis::X ==> push_spec(c, s_pos, s_size, o_pos, o_size).y
            == 0,
        c.spec_side().spec_axis() == Axis::Y ==> push_spec(c, s_pos, s_size, o_pos, o_size).x
            == 0,
{
    lemma_half_round_bounds(push_num(c, s_pos, s_size, o_pos, o_size));
}

/// Applying the push to the pair separates it: however the displacement is
/// shared between the two boxes, as long as the relative position changes
/// by exactly the push vector, the boxes no longer overlap.
pub proof fn lemma_push_separates(
    c: Collision,
    s_pos: Vec2i,
    s_size: Vec2i,
    o_pos: Vec2i,
    o_size: Vec2i,
    s_new: Vec2i,
    o_new: Vec2i,
)
    requires
        collide_spec(o_pos, o_size, s_pos, s_size) == Some(c),
        s_new.x - o_new.x == s_pos.x - o_pos.x + push_spec(c, s_pos, s_size, o_pos, o_size).x,
        s_new.y - o_new.y == s_pos.y - o_pos.y + push_spec(c, s_pos, s_size, o_pos, o_size).y,
    ensures
        !overlaps(o_new, o_size, s_new, s_size),
{
    lemma_half_round_bounds(push_num(c, s_pos, s_size, o_pos, o_size));
}

/// An equal-weight split parts the pair exactly: the two shares add up to
/// the full push, and each share is half of it to within one unit.
pub proof fn lemma_split_shares(p: int)
    ensures
        half_round(p) + (p - half_round(p)) == p,
        p - 1 <= 2 * half_round(p) <= p + 1,
{
    lemma_half_round_bounds(p);
}

/// A body resting exactly on a floor, pushed down into it by one
/// gravity step, is reported as a bottom contact and pushed back up by
/// exactly that step: support restores the resting height with no
/// rounding noise, tick over tick.
pub proof fn lemma_support_restores_rest(
    p_pos: Vec2i,
    p_size: Vec2i,
    f_pos: Vec2i,
    f_size: Vec2i,
    d: int,
)
    requires
        pos_in_range(p_pos),
        pos_in_range(f_pos),
        size_in_range(p_size),
        size_in_range(f_size),
        // at rest: the body's bottom edge sits on the floor's top edge
        2 * p_pos.y - p_size.y == 2 * f_pos.y + f_size.y,
        // horizontally contained in the floor's span
        2 * p_pos.x - p_size.x >= 2 * f_pos.x - f_size.x,
        2 * p_pos.x + p_size.x <= 2 * f_pos.x + f_size.x,
        // the downward step does not tunnel through either box
        1 <= d,
        d < p_size.y,
        d < f_size.y,
    ensures
        collide_spec(
            f_pos,
            f_size,
            Vec2i { x: p_pos.x, y: (p_pos.y - d) as i64 },
            p_size,
        ) == Some(Collision::Bottom),
        push_spec(
            Collision::Bottom,
            Vec2i { x: p_pos.x, y: (p_pos.y - d) as i64 },
            p_size,
            f_pos,
            f_size,
        ).y == d,
{
    let stepped = Vec2i { x: p_pos.x, y: (p_pos.y - d) as i64 };
    assert(stepped.y == p_pos.y - d);
    assert(y_bottom(f_pos, f_size, stepped, p_size));
    assert(!x_left(f_pos, f_size, stepped, p_size));
    assert(!x_right(f_pos, f_size, stepped, p_size));
    assert(push_num(Collision::Bottom, stepped, p_size, f_pos, f_size) == 2 * d);
    lemma_half_round_bounds(2 * d);
    assert(2 * ((2 * d + 1) / 2) == (2 * d + 1) - ((2 * d + 1) % 2));
}

/// Doubling the rounded half gives back `n` or the next integer away from
/// zero.
pub proof fn lemma_half_round_bounds(n: int)
    ensures
        n >= 0 ==> n <= 2 * half_round(n) <= n + 1,
        n < 0 ==> n - 1 <= 2 * half_round(n) <= n,
{
    if n >= 0 {
        assert(2 * ((n + 1) / 2) == (n + 1) - ((n + 1) % 2));
    } else {
        assert(2 * ((1 - n) / 2) == (1 - n) - ((1 - n) % 2));
    }
}

/// Runtime rounding of `v / 2` to the nearest whole unit, halves away from
/// zero; used to split a push between two equal-weight bodies.
pub fn halve(v: i64) -> (r: i64)
    requires
        -0x2_0000_0000_0 <= v <= 0x2_0000_0000_0,
    ensures
        r == half_round(v as int),
{
    if v >= 0 {
        (((v as u64) + 1) / 2) as i64
    } else {
        -((((1 - v) as u64) / 2) as i64)
    }
}

/// Whether the pass resolving `axis` sees a collision between the two
/// boxes: they overlap, and the reported side belongs to that axis (or is
/// containment, which both passes handle).
pub open spec fn axis_hit(a_pos: Vec2i, a_size: Vec2i, b_pos: Vec2i, b_size: Vec2i, axis: Axis) -> bool {
    match collide_spec(a_pos, a_size, b_pos, b_size) {
        Some(c) => c.spec_relevant_to(axis),
        Option::None => false,
    }
}

/// A collision seen by a pass is seen from both boxes' perspectives: the
/// reported sides mirror each other, but they always belong to the same
/// axis, and containment mirrors to containment or to the same axis.
pub proof fn lemma_axis_hit_symm(a_pos: Vec2i, a_size: Vec2i, b_pos: Vec2i, b_size: Vec2i, axis: Axis)
    ensures
        axis_hit(a_pos, a_size, b_pos, b_size, axis) == axis_hit(b_pos, b_size, a_pos, a_size, axis),
{
    if overlaps(a_pos, a_size, b_pos, b_size) {
        assert(overlaps(b_pos, b_size, a_pos, a_size));
        assert(x_left(a_pos, a_size, b_pos, b_size) == x_right(b_pos, b_size, a_pos, a_size));
        assert(x_right(a_pos, a_size, b_pos, b_size) == x_left(b_pos, b_size, a_pos, a_size));
        assert(y_bottom(a_pos, a_size, b_pos, b_size) == y_top(b_pos, b_size, a_pos, a_size));
        assert(y_top(a_pos, a_size, b_pos, b_size) == y_bottom(b_pos, b_size, a_pos, a_size));
    }
}

} // verus!
