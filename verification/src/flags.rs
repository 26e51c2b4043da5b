use vstd::prelude::*;

use crate::geom::Side;

verus! {

/// Per-entity contact record for one tick.
///
/// A touch bit says that the given side of the entity's box pressed against
/// something during this tick's resolution. A lock bit marks a side whose
/// contact is anchored (propagated from an immovable neighbor); locked sides
/// never yield while two bodies contest the same axis, which is what keeps
/// mutually pushing stacks from oscillating. In the packed byte layout this
/// record stands for, each lock bit is its touch bit shifted up by four;
/// [`CollisionFlags::bits`] reproduces that encoding.
///
/// All bits start clear at the beginning of every tick and are only ever
/// set or cleared by the resolution pass.
#[derive(Debug, Clone, Copy, PartialEq, Eq, Structural)]
pub struct CollisionFlags {
    pub bottom: bool,
    pub left: bool,
    pub right: bool,
    pub top: bool,
    pub bottom_lock: bool,
    pub left_lock: bool,
    pub right_lock: bool,
    pub top_lock: bool,
}

impl CollisionFlags {
    /// Whether `s` is currently recorded as touching.
    pub open spec fn spec_touching(self, s: Side) -> bool {
        match s {
            Side::Bottom => self.bottom,
            Side::Left => self.left,
            Side::Right => self.right,
            Side::Top => self.top,
        }
    }

    /// Whether the contact on `s` is locked.
    pub open spec fn spec_locked(self, s: Side) -> bool {
        match s {
            Side::Bottom => self.bottom_lock,
            Side::Left => self.left_lock,
            Side::Right => self.right_lock,
            Side::Top => self.top_lock,
        }
    }

    /// No side touching and no side locked.
    pub open spec fn spec_is_empty(self) -> bool {
        self == CollisionFlags::spec_empty()
    }

    pub open spec fn spec_empty() -> CollisionFlags {
        CollisionFlags {
            bottom: false,
            left: false,
            right: false,
            top: false,
            bottom_lock: false,
            left_lock: false,
            right_lock: false,
            top_lock: false,
        }
    }

    pub open spec fn spec_all() -> CollisionFlags {
        CollisionFlags {
            bottom: true,
            left: true,
            right: true,
            top: true,
            bottom_lock: true,
            left_lock: true,
            right_lock: true,
            top_lock: true,
        }
    }

    /// The record with every bit clear; each tick starts from it.
    pub fn empty() -> (r: CollisionFlags)
        ensures
            r == CollisionFlags::spec_empty(),
    {
        CollisionFlags {
            bottom: false,
            left: false,
            right: false,
            top: false,
            bottom_lock: false,
            left_lock: false,
            right_lock: false,
            top_lock: false,
        }
    }

    /// The record with every touch and lock bit set; immovable bodies are
    /// seeded with it so that they anchor every side they are pushed on.
    pub fn all() -> (r: CollisionFlags)
        ensures
            r == CollisionFlags::spec_all(),
    {
        CollisionFlags {
            bottom: true,
            left: true,
            right: true,
            top: true,
            bottom_lock: true,
            left_lock: true,
            right_lock: true,
            top_lock: true,
        }
    }

    pub fn touching(&self, s: Side) -> (r: bool)
        ensures
            r == self.spec_touching(s),
    {
        match s {
            Side::Bottom => self.bottom,
            Side::Left => self.left,
            Side::Right => self.right,
            Side::Top => self.top,
        }
    }

    pub fn is_locked(&self, s: Side) -> (r: bool)
        ensures
            r == self.spec_locked(s),
    {
        match s {
            Side::Bottom => self.bottom_lock,
            Side::Left => self.left_lock,
            Side::Right => self.right_lock,
            Side::Top => self.top_lock,
        }
    }

    pub fn is_empty(&self) -> (r: bool)
        ensures
            r == self.spec_is_empty(),
    {
        !(self.bottom || self.left || self.right || self.top || self.bottom_lock
            || self.left_lock || self.right_lock || self.top_lock)
    }

    /// `self` with the touch bit for `s` set.
    pub open spec fn spec_with_touch(self, s: Side) -> CollisionFlags {
        match s {
            Side::Bottom => CollisionFlags { bottom: true, ..self },
            Side::Left => CollisionFlags { left: true, ..self },
            Side::Right => CollisionFlags { right: true, ..self },
            Side::Top => CollisionFlags { top: true, ..self },
        }
    }

    pub fn with_touch(self, s: Side) -> (r: CollisionFlags)
        ensures
            r == self.spec_with_touch(s),
    {
        match s {
            Side::Bottom => CollisionFlags { bottom: true, ..self },
            Side::Left => CollisionFlags { left: true, ..self },
            Side::Right => CollisionFlags { right: true, ..self },
            Side::Top => CollisionFlags { top: true, ..self },
        }
    }

    /// `self` with the lock bit for `s` set.
    pub open spec fn spec_with_lock(self, s: Side) -> CollisionFlags {
        match s {
            Side::Bottom => CollisionFlags { bottom_lock: true, ..self },
            Side::Left => CollisionFlags { left_lock: true, ..self },
            Side::Right => CollisionFlags { right_lock: true, ..self },
            Side::Top => CollisionFlags { top_lock: true, ..self },
        }
    }

    pub fn with_lock(self, s: Side) -> (r: CollisionFlags)
        ensures
            r == self.spec_with_lock(s),
    {
        match s {
            Side::Bottom => CollisionFlags { bottom_lock: true, ..self },
            Side::Left => CollisionFlags { left_lock: true, ..self },
            Side::Right => CollisionFlags { right_lock: true, ..self },
            Side::Top => CollisionFlags { top_lock: true, ..self },
        }
    }

    /// `self` with the touch bit for `s` cleared; the lock bits stay.
    pub open spec fn spec_without_touch(self, s: Side) -> CollisionFlags {
        match s {
            Side::Bottom => CollisionFlags { bottom: false, ..self },
            Side::Left => CollisionFlags { left: false, ..self },
            Side::Right => CollisionFlags { right: false, ..self },
            Side::Top => CollisionFlags { top: false, ..self },
        }
    }

    pub fn without_touch(self, s: Side) -> (r: CollisionFlags)
        ensures
            r == self.spec_without_touch(s),
    {
        match s {
            Side::Bottom => CollisionFlags { bottom: false, ..self },
            Side::Left => CollisionFlags { left: false, ..self },
            Side::Right => CollisionFlags { right: false, ..self },
            Side::Top => CollisionFlags { top: false, ..self },
        }
    }

    /// Bitwise union of two records.
    pub open spec fn spec_union(self, o: CollisionFlags) -> CollisionFlags {
        CollisionFlags {
            bottom: self.bottom || o.bottom,
            left: self.left || o.left,
            right: self.right || o.right,
            top: self.top || o.top,
            bottom_lock: self.bottom_lock || o.bottom_lock,
            left_lock: self.left_lock || o.left_lock,
            right_lock: self.right_lock || o.right_lock,
            top_lock: self.top_lock || o.top_lock,
        }
    }

    pub fn union(self, o: CollisionFlags) -> (r: CollisionFlags)
        ensures
            r == self.spec_union(o),
    {
        CollisionFlags {
            bottom: self.bottom || o.bottom,
            left: self.left || o.left,
            right: self.right || o.right,
            top: self.top || o.top,
            bottom_lock: self.bottom_lock || o.bottom_lock,
            left_lock: self.left_lock || o.left_lock,
            right_lock: self.right_lock || o.right_lock,
            top_lock: self.top_lock || o.top_lock,
        }
    }

    /// The packed byte this record stands for: bottom, left, right, top in
    /// the low four bits (1, 2, 4, 8) and each lock bit sixteen times its
    /// touch bit, that is, shifted up by four.
    pub open spec fn spec_bits(self) -> u8 {
        ((if self.bottom { 1u8 } else { 0u8 }) + (if self.left { 2u8 } else { 0u8 })
            + (if self.right { 4u8 } else { 0u8 }) + (if self.top { 8u8 } else { 0u8 })
            + (if self.bottom_lock { 16u8 } else { 0u8 })
            + (if self.left_lock { 32u8 } else { 0u8 })
            + (if self.right_lock { 64u8 } else { 0u8 })
            + (if self.top_lock { 128u8 } else { 0u8 })) as u8
    }

    pub fn bits(&self) -> (r: u8)
        ensures
            r == self.spec_bits(),
    {
        let mut r: u8 = 0;
        if self.bottom {
            r = r + 1;
        }
        if self.left {
            r = r + 2;
        }
        if self.right {
            r = r + 4;
        }
        if self.top {
            r = r + 8;
        }
        if self.bottom_lock {
            r = r + 16;
        }
        if self.left_lock {
            r = r + 32;
        }
        if self.right_lock {
            r = r + 64;
        }
        if self.top_lock {
            r = r + 128;
        }
        r
    }
}

impl Default for CollisionFlags {
    /// A fresh record has no contacts.
    fn default() -> (r: CollisionFlags)
        ensures
            r == CollisionFlags::spec_empty(),
    {
        CollisionFlags::empty()
    }
}

} // verus!
