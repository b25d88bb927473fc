use hid_events::all_buttons;
use hid_events::derive_events;
use hid_events::Button;
use hid_events::ButtonEvt;
use hid_events::Buttons;
use hid_events::Controller;
use hid_events::ControllerHandler;
use hid_events::ControllerValues;
use hid_events::Coordinate;
use hid_events::HidEvent;
use hid_events::StickEvt;
use hid_events::TriggerEvt;
use hid_events::LR;

fn snapshot_with_left(x: i16, y: i16) -> ControllerValues {
    ControllerValues::new(
        Coordinate { x, y },
        Coordinate::zero(),
        0,
        0,
        Buttons::none(),
    )
}

#[test]
fn stick_moved_on_motion_beyond_threshold() {
    let mut c = Controller::new(ControllerValues::zero());
    c.update(snapshot_with_left(500, 0));
    let evts = derive_events(&c, 200, 200);
    assert_eq!(
        evts,
        vec![HidEvent::Stick(LR::Left, StickEvt::Moved(Coordinate { x: 500, y: 0 }))]
    );
}

#[test]
fn stick_active_when_steady_beyond_threshold() {
    let held = snapshot_with_left(500, 0);
    let mut c = Controller::new(held);
    c.update(held);
    let evts = derive_events(&c, 200, 200);
    assert_eq!(
        evts,
        vec![HidEvent::Stick(LR::Left, StickEvt::Active(Coordinate { x: 500, y: 0 }))]
    );
}

#[test]
fn stick_to_origin_on_decay_under_threshold() {
    let mut c = Controller::new(snapshot_with_left(500, 0));
    c.update(snapshot_with_left(100, 0));
    let evts = derive_events(&c, 200, 200);
    assert_eq!(evts, vec![HidEvent::Stick(LR::Left, StickEvt::ToOrigin)]);
}

#[test]
fn stick_to_origin_not_repeated_while_idle() {
    let mut c = Controller::new(snapshot_with_left(500, 0));
    c.update(snapshot_with_left(100, 0));
    assert_eq!(
        derive_events(&c, 200, 200),
        vec![HidEvent::Stick(LR::Left, StickEvt::ToOrigin)]
    );
    c.update(snapshot_with_left(100, 0));
    assert_eq!(derive_events(&c, 200, 200), vec![]);
}

#[test]
fn idle_sticks_under_threshold_are_silent() {
    let mut c = Controller::new(snapshot_with_left(100, 50));
    c.update(snapshot_with_left(100, 50));
    assert_eq!(derive_events(&c, 200, 200), vec![]);
}

#[test]
fn button_down_then_held_pressed() {
    let mut only_cross = Buttons::none();
    only_cross.cross = true;
    let mut cross_and_circle = Buttons::none();
    cross_and_circle.cross = true;
    cross_and_circle.circle = true;
    let prev = ControllerValues::new(Coordinate::zero(), Coordinate::zero(), 0, 0, only_cross);
    let cur = ControllerValues::new(
        Coordinate::zero(),
        Coordinate::zero(),
        0,
        0,
        cross_and_circle,
    );
    let mut c = Controller::new(prev);
    c.update(cur);
    let evts = derive_events(&c, 200, 200);
    assert_eq!(
        evts,
        vec![
            HidEvent::Button(Button::Circle, ButtonEvt::Down),
            HidEvent::Button(Button::Cross, ButtonEvt::Pressed),
        ]
    );
}

#[test]
fn button_up_on_release() {
    let mut only_square = Buttons::none();
    only_square.square = true;
    let prev = ControllerValues::new(Coordinate::zero(), Coordinate::zero(), 0, 0, only_square);
    let mut c = Controller::new(prev);
    c.update(ControllerValues::zero());
    let evts = derive_events(&c, 200, 200);
    assert_eq!(evts, vec![HidEvent::Button(Button::Square, ButtonEvt::Up)]);
}

#[test]
fn trigger_moved_active_and_to_origin() {
    let pull = ControllerValues::new(Coordinate::zero(), Coordinate::zero(), 180, 0, Buttons::none());
    let mut c = Controller::new(ControllerValues::zero());
    c.update(pull);
    assert_eq!(
        derive_events(&c, 50, 100),
        vec![HidEvent::Trigger(LR::Left, TriggerEvt::Moved(180))]
    );
    c.update(pull);
    assert_eq!(
        derive_events(&c, 50, 100),
        vec![HidEvent::Trigger(LR::Left, TriggerEvt::Active(180))]
    );
    c.update(ControllerValues::new(
        Coordinate::zero(),
        Coordinate::zero(),
        40,
        0,
        Buttons::none(),
    ));
    assert_eq!(
        derive_events(&c, 50, 100),
        vec![HidEvent::Trigger(LR::Left, TriggerEvt::ToOrigin)]
    );
}

#[test]
fn zero_threshold_zero_magnitude_yields_only_to_origin() {
    let mut c = Controller::new(snapshot_with_left(100, 0));
    c.update(snapshot_with_left(0, 0));
    assert_eq!(
        derive_events(&c, 0, 0),
        vec![HidEvent::Stick(LR::Left, StickEvt::ToOrigin)]
    );
    c.update(snapshot_with_left(0, 0));
    assert_eq!(derive_events(&c, 0, 0), vec![]);
}

#[test]
fn zero_threshold_reports_every_nonzero_motion() {
    let mut c = Controller::new(ControllerValues::zero());
    c.update(snapshot_with_left(1, 0));
    assert_eq!(
        derive_events(&c, 0, 0),
        vec![HidEvent::Stick(LR::Left, StickEvt::Moved(Coordinate { x: 1, y: 0 }))]
    );
}

#[test]
fn threshold_boundary_is_not_beyond() {
    // A magnitude exactly at the threshold counts as inside the deadzone.
    let mut c = Controller::new(snapshot_with_left(500, 0));
    c.update(snapshot_with_left(200, 0));
    assert_eq!(
        derive_events(&c, 200, 200),
        vec![HidEvent::Stick(LR::Left, StickEvt::ToOrigin)]
    );
}

#[test]
fn full_cycle_keeps_fixed_emission_order() {
    let mut only_l1 = Buttons::none();
    only_l1.l1 = true;
    only_l1.r3 = true;
    let mut next = Buttons::none();
    next.l1 = true;
    next.triangle = true;
    let prev = ControllerValues::new(
        Coordinate { x: 400, y: 0 },
        Coordinate { x: 0, y: 0 },
        0,
        90,
        only_l1,
    );
    let cur = ControllerValues::new(
        Coordinate { x: 450, y: 0 },
        Coordinate { x: 0, y: 300 },
        120,
        90,
        next,
    );
    let mut c = Controller::new(prev);
    c.update(cur);
    let evts = derive_events(&c, 200, 80);
    assert_eq!(
        evts,
        vec![
            HidEvent::Stick(LR::Left, StickEvt::Moved(Coordinate { x: 450, y: 0 })),
            HidEvent::Stick(LR::Right, StickEvt::Moved(Coordinate { x: 0, y: 300 })),
            HidEvent::Button(Button::Triangle, ButtonEvt::Down),
            HidEvent::Button(Button::R3, ButtonEvt::Up),
            HidEvent::Button(Button::L1, ButtonEvt::Pressed),
            HidEvent::Trigger(LR::Left, TriggerEvt::Moved(120)),
            HidEvent::Trigger(LR::Right, TriggerEvt::Active(90)),
        ]
    );
}

#[test]
fn all_buttons_lists_the_domain_once() {
    let order = all_buttons();
    assert_eq!(order.len(), 17);
    assert_eq!(order[0], Button::Up);
    assert_eq!(order[16], Button::Ps);
    for i in 0..order.len() {
        for j in 0..i {
            assert_ne!(order[i], order[j]);
        }
    }
}

struct Recorder {
    seen: Vec<HidEvent>,
    stick_threshold: u16,
}

impl ControllerHandler for Recorder {
    fn min_len_stick(&self) -> u16 {
        self.stick_threshold
    }

    fn on_event(&mut self, e: HidEvent) {
        self.seen.push(e);
    }
}

#[test]
fn handler_receives_each_event_in_order() {
    let mut handler = Recorder { seen: Vec::new(), stick_threshold: 200 };
    let mut c = Controller::new(ControllerValues::zero());
    c.update(snapshot_with_left(500, 0));
    handler.controller_update(&c);
    assert_eq!(
        handler.seen,
        vec![HidEvent::Stick(LR::Left, StickEvt::Moved(Coordinate { x: 500, y: 0 }))]
    );
    c.update(snapshot_with_left(500, 0));
    handler.controller_update(&c);
    assert_eq!(handler.seen.len(), 2);
    assert_eq!(
        handler.seen[1],
        HidEvent::Stick(LR::Left, StickEvt::Active(Coordinate { x: 500, y: 0 }))
    );
}

struct Plain {
    count: usize,
}

impl ControllerHandler for Plain {
    fn on_event(&mut self, _e: HidEvent) {
        self.count += 1;
    }
}

#[test]
fn handler_default_thresholds_are_zero() {
    let mut handler = Plain { count: 0 };
    let mut c = Controller::new(ControllerValues::zero());
    c.update(snapshot_with_left(1, 0));
    handler.controller_update(&c);
    assert_eq!(handler.count, 1);
}
