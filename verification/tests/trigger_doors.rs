use platformer_physics::flags::CollisionFlags;
use platformer_physics::geom::{Side, Vec2i};
use platformer_physics::trigger::{
    button_events, update_slider_collider, Button, DoorEntry, DoorRes, Slider,
};
use platformer_physics::world::{Collider, ColliderKind};

#[test]
fn button_toggle_and_is_pressed() {
    let mut b = Button { pressed: false, door: 0 };
    assert!(!b.is_pressed());
    b.toggle();
    assert!(b.is_pressed());
    b.toggle();
    assert!(!b.is_pressed());
    assert_eq!(b.door, 0);
}

#[test]
fn pressing_the_single_button_opens_the_door() {
    // One button wired to one door: the counter starts at one; a top
    // contact presses the button, brings it to zero, and activates the
    // door's slider.
    let mut buttons = vec![Button { pressed: false, door: 0 }];
    let fl = vec![CollisionFlags::empty().with_touch(Side::Top)];
    let mut doors = DoorRes { doors: vec![DoorEntry { presses: 1, slider: 0 }] };
    let mut sliders = vec![Slider { activated: false }];
    button_events(&mut buttons, &fl, &mut doors, &mut sliders);
    assert!(buttons[0].pressed);
    assert_eq!(doors.doors[0].presses, 0);
    assert!(sliders[0].activated);
}

#[test]
fn releasing_the_button_closes_the_door() {
    let mut buttons = vec![Button { pressed: true, door: 0 }];
    let fl = vec![CollisionFlags::empty()];
    let mut doors = DoorRes { doors: vec![DoorEntry { presses: 0, slider: 0 }] };
    let mut sliders = vec![Slider { activated: true }];
    button_events(&mut buttons, &fl, &mut doors, &mut sliders);
    assert!(!buttons[0].pressed);
    assert_eq!(doors.doors[0].presses, 1);
    assert!(!sliders[0].activated);
}

#[test]
fn held_button_is_a_no_op() {
    let mut buttons = vec![Button { pressed: true, door: 0 }];
    let fl = vec![CollisionFlags::empty().with_touch(Side::Top)];
    let mut doors = DoorRes { doors: vec![DoorEntry { presses: 0, slider: 0 }] };
    let mut sliders = vec![Slider { activated: true }];
    button_events(&mut buttons, &fl, &mut doors, &mut sliders);
    assert!(buttons[0].pressed);
    assert_eq!(doors.doors[0].presses, 0);
    assert!(sliders[0].activated);
}

#[test]
fn two_buttons_must_both_be_pressed() {
    let mut buttons = vec![
        Button { pressed: false, door: 0 },
        Button { pressed: false, door: 0 },
    ];
    let pressed = CollisionFlags::empty().with_touch(Side::Top);
    let mut doors = DoorRes { doors: vec![DoorEntry { presses: 2, slider: 0 }] };
    let mut sliders = vec![Slider { activated: false }];
    // Only the first button is pressed: the door stays shut.
    let fl = vec![pressed, CollisionFlags::empty()];
    button_events(&mut buttons, &fl, &mut doors, &mut sliders);
    assert_eq!(doors.doors[0].presses, 1);
    assert!(!sliders[0].activated);
    // The second button joins: the door opens.
    let fl = vec![pressed, pressed];
    button_events(&mut buttons, &fl, &mut doors, &mut sliders);
    assert_eq!(doors.doors[0].presses, 0);
    assert!(sliders[0].activated);
}

#[test]
fn only_sides_other_than_top_do_not_press() {
    let mut buttons = vec![Button { pressed: false, door: 0 }];
    let fl = vec![CollisionFlags::empty().with_touch(Side::Left)];
    let mut doors = DoorRes { doors: vec![DoorEntry { presses: 1, slider: 0 }] };
    let mut sliders = vec![Slider { activated: false }];
    button_events(&mut buttons, &fl, &mut doors, &mut sliders);
    assert!(!buttons[0].pressed);
    assert_eq!(doors.doors[0].presses, 1);
    assert!(!sliders[0].activated);
}

#[test]
fn activated_slider_collider_goes_inert() {
    let base = Collider {
        size: Vec2i::new(96, 96),
        kind: ColliderKind::Movable(u64::MAX),
        flags: CollisionFlags::empty(),
    };
    let mut colliders = vec![base, base];
    let sliders = vec![Slider { activated: true }, Slider { activated: false }];
    update_slider_collider(&mut colliders, &sliders);
    assert_eq!(colliders[0].kind, ColliderKind::Inert);
    assert_eq!(colliders[1].kind, ColliderKind::Movable(u64::MAX));
    assert_eq!(colliders[0].size, Vec2i::new(96, 96));
}

#[test]
fn slider_default_is_retracted() {
    assert!(!Slider::default().activated);
}
