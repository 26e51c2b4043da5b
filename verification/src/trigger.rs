use vstd::prelude::*;

use crate::flags::CollisionFlags;
use crate::geom::Side;
use crate::world::{Collider, ColliderKind, WEIGHT_INFINITE};

verus! {

/// A pressure button: whether something currently presses it, and the
/// index of the door it is wired to in the door registry.
#[derive(Debug, Clone, Copy, PartialEq, Eq, Structural)]
pub struct Button {
    pub pressed: bool,
    pub door: usize,
}

impl Button {
    pub fn is_pressed(&self) -> (r: bool)
        ensures
            r == self.pressed,
    {
        self.pressed
    }

    pub fn toggle(&mut self)
        ensures
            final(self).pressed == !old(self).pressed,
            final(self).door == old(self).door,
    {
        self.pressed = !self.pressed;
    }
}

/// One door: how many wired buttons are still unpressed, and which slider
/// opens when that count reaches zero.
#[derive(Debug, Clone, Copy, PartialEq, Eq, Structural)]
pub struct DoorEntry {
    pub presses: usize,
    pub slider: usize,
}

/// The level's door registry, indexed by the door ids buttons carry.
#[derive(Debug, PartialEq, Eq)]
pub struct DoorRes {
    pub doors: Vec<DoorEntry>,
}

/// A sliding door blocker: while activated it retracts and stops
/// blocking; deactivated it extends and blocks again.
#[derive(Debug, Clone, Copy, PartialEq, Eq, Structural, Default)]
pub struct Slider {
    pub activated: bool,
}

/// The combined button pass state, as one value: button states, door
/// registry, slider activations.
pub open spec fn buttons_run(
    bs: Seq<Button>,
    fl: Seq<CollisionFlags>,
    ds: Seq<DoorEntry>,
    sl: Seq<Slider>,
    upto: int,
) -> (Seq<Button>, Seq<DoorEntry>, Seq<Slider>)
    decreases upto,
{
    if upto <= 0 {
        (bs, ds, sl)
    } else {
        let prior = buttons_run(bs, fl, ds, sl, upto - 1);
        let bs1 = prior.0;
        let ds1 = prior.1;
        let sl1 = prior.2;
        let i = upto - 1;
        let b = bs1[i];
        if b.door < ds1.len() {
            let d = ds1[b.door as int];
            let top = fl[i].spec_touching(Side::Top);
            if top && !b.pressed {
                let np: usize = if d.presses > 0 {
                    (d.presses - 1) as usize
                } else {
                    0
                };
                let bs2 = bs1.update(i, Button { pressed: true, ..b });
                let ds2 = ds1.update(b.door as int, DoorEntry { presses: np, ..d });
                let sl2 = if np == 0 && d.slider < sl1.len() {
                    sl1.update(d.slider as int, Slider { activated: true })
                } else {
                    sl1
                };
                (bs2, ds2, sl2)
            } else if !top && b.pressed {
                let np: usize = if d.presses < usize::MAX {
                    (d.presses + 1) as usize
                } else {
                    d.presses
                };
                let bs2 = bs1.update(i, Button { pressed: false, ..b });
                let ds2 = ds1.update(b.door as int, DoorEntry { presses: np, ..d });
                let sl2 = if d.slider < sl1.len() {
                    sl1.update(d.slider as int, Slider { activated: false })
                } else {
                    sl1
                };
                (bs2, ds2, sl2)
            } else {
                (bs1, ds1, sl1)
            }
        } else {
            (bs1, ds1, sl1)
        }
    }
}

/// The trigger pass: each button watches the top contact of its own
/// collider. On a rising edge (newly touched) it marks itself pressed and
/// decrements its door's counter; when the counter reaches zero the
/// door's slider is activated. On a falling edge (no longer touched) it
/// releases, increments the counter back, and deactivates the slider.
/// Buttons are handled in order; `fl[i]` is the contact record of button
/// `i`'s collider from this tick's resolution.
///
/// A button wired to a door id outside the registry is a caller
/// contract violation — a fatal inconsistency, never silently ignored —
/// so the precondition excludes it.
pub fn button_events(
    buttons: &mut Vec<Button>,
    fl: &Vec<CollisionFlags>,
    doors: &mut DoorRes,
    sliders: &mut Vec<Slider>,
)
    requires
        fl@.len() == old(buttons)@.len(),
        forall|k: int|
            0 <= k < old(buttons)@.len() ==> (#[trigger] old(buttons)@[k]).door < old(
                doors,
            ).doors@.len(),
    ensures
        (final(buttons)@, final(doors).doors@, final(sliders)@) == buttons_run(
            old(buttons)@,
            fl@,
            old(doors).doors@,
            old(sliders)@,
            old(buttons)@.len() as int,
        ),
{
    let n = buttons.len();
    let mut i: usize = 0;
    while i < n
        invariant
            n == old(buttons)@.len(),
            fl@.len() == n,
            i <= n,
            buttons@.len() == n,
            (buttons@, doors.doors@, sliders@) == buttons_run(
                old(buttons)@,
                fl@,
                old(doors).doors@,
                old(sliders)@,
                i as int,
            ),
        decreases n - i,
    {
        let b = buttons[i];
        if b.door < doors.doors.len() {
            let d = doors.doors[b.door];
            let top = fl[i].touching(Side::Top);
            if top && !b.pressed {
                let np: usize = if d.presses > 0 {
                    d.presses - 1
                } else {
                    0
                };
                buttons.set(i, Button { pressed: true, ..b });
                doors.doors.set(b.door, DoorEntry { presses: np, ..d });
                if np == 0 && d.slider < sliders.len() {
                    sliders.set(d.slider, Slider { activated: true });
                }
            } else if !top && b.pressed {
                let np: usize = if d.presses < usize::MAX {
                    d.presses + 1
                } else {
                    d.presses
                };
                buttons.set(i, Button { pressed: false, ..b });
                doors.doors.set(b.door, DoorEntry { presses: np, ..d });
                if d.slider < sliders.len() {
                    sliders.set(d.slider, Slider { activated: false });
                }
            }
        }
        i = i + 1;
    }
}

/// Applies each slider's activation to its collider: an activated slider
/// stops blocking entirely (its collider goes inert); a deactivated one
/// blocks again as immovable terrain. Size and contact record stay.
pub fn update_slider_collider(colliders: &mut Vec<Collider>, sliders: &Vec<Slider>)
    requires
        sliders@.len() == old(colliders)@.len(),
    ensures
        final(colliders)@.len() == old(colliders)@.len(),
        forall|k: int|
            0 <= k < old(colliders)@.len() ==> (#[trigger] final(colliders)@[k]) == (Collider {
                kind: if sliders@[k].activated {
                    ColliderKind::Inert
                } else {
                    ColliderKind::Movable(WEIGHT_INFINITE)
                },
                ..old(colliders)@[k]
            }),
{
    let n = colliders.len();
    let mut i: usize = 0;
    while i < n
        invariant
            n == old(colliders)@.len(),
            sliders@.len() == n,
            i <= n,
            colliders@.len() == n,
            forall|k: int|
                0 <= k < i ==> (#[trigger] colliders@[k]) == (Collider {
                    kind: if sliders@[k].activated {
                        ColliderKind::Inert
                    } else {
                        ColliderKind::Movable(WEIGHT_INFINITE)
                    },
                    ..old(colliders)@[k]
                }),
            forall|k: int| i <= k < n ==> #[trigger] colliders@[k] == old(colliders)@[k],
        decreases n - i,
    {
        let c = colliders[i];
        let nk = if sliders[i].activated {
            ColliderKind::Inert
        } else {
            ColliderKind::Movable(WEIGHT_INFINITE)
        };
        colliders.set(i, Collider { kind: nk, ..c });
        i = i + 1;
    }
}

} // verus!
