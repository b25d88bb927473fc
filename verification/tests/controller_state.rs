use hid_events::Button;
use hid_events::Buttons;
use hid_events::Controller;
use hid_events::ControllerValues;
use hid_events::Coordinate;

fn snapshot(left: Coordinate, right: Coordinate, lt: u16, rt: u16, b: Buttons) -> ControllerValues {
    ControllerValues::new(left, right, lt, rt, b)
}

#[test]
fn new_controller_reports_no_change() {
    let v = snapshot(Coordinate { x: 30, y: -40 }, Coordinate::zero(), 7, 0, Buttons::none());
    let c = Controller::new(v);
    assert!(!c.left_pos_changed());
    assert!(!c.right_pos_changed());
    assert!(!c.left_trigger_changed());
    assert!(!c.right_trigger_changed());
    assert_eq!(c.left_pos(), Coordinate { x: 30, y: -40 });
    assert_eq!(c.prev_left_pos(), Coordinate { x: 30, y: -40 });
}

#[test]
fn update_demotes_current_to_previous() {
    let first = snapshot(Coordinate { x: 1, y: 2 }, Coordinate { x: 3, y: 4 }, 5, 6, Buttons::none());
    let second = snapshot(Coordinate { x: 7, y: 8 }, Coordinate { x: 3, y: 4 }, 5, 9, Buttons::none());
    let mut c = Controller::new(first);
    c.update(second);
    assert_eq!(c.prev_left_pos(), Coordinate { x: 1, y: 2 });
    assert_eq!(c.left_pos(), Coordinate { x: 7, y: 8 });
    assert_eq!(c.prev_right_pos(), Coordinate { x: 3, y: 4 });
    assert_eq!(c.right_pos(), Coordinate { x: 3, y: 4 });
    assert_eq!(c.prev_left_trigger(), 5);
    assert_eq!(c.left_trigger(), 5);
    assert_eq!(c.prev_right_trigger(), 6);
    assert_eq!(c.right_trigger(), 9);
    assert!(c.left_pos_changed());
    assert!(!c.right_pos_changed());
    assert!(!c.left_trigger_changed());
    assert!(c.right_trigger_changed());
}

#[test]
fn any_numeric_difference_counts_as_change() {
    let first = snapshot(Coordinate { x: 100, y: 100 }, Coordinate::zero(), 0, 0, Buttons::none());
    let second = snapshot(Coordinate { x: 100, y: 101 }, Coordinate::zero(), 0, 0, Buttons::none());
    let mut c = Controller::new(first);
    c.update(second);
    assert!(c.left_pos_changed());
}

#[test]
fn changed_buttons_partitions_the_cycle() {
    let mut before = Buttons::none();
    before.cross = true;
    before.l1 = true;
    let mut after = Buttons::none();
    after.cross = true;
    after.triangle = true;
    let mut c = Controller::new(snapshot(
        Coordinate::zero(),
        Coordinate::zero(),
        0,
        0,
        before,
    ));
    c.update(snapshot(Coordinate::zero(), Coordinate::zero(), 0, 0, after));
    let (pressed, held, released) = c.changed_buttons();
    assert_eq!(pressed, vec![Button::Triangle]);
    assert_eq!(held, vec![Button::Cross]);
    assert_eq!(released, vec![Button::L1]);
    // The three sets are pairwise disjoint.
    for b in pressed.iter() {
        assert!(!held.contains(b));
        assert!(!released.contains(b));
    }
    for b in held.iter() {
        assert!(!released.contains(b));
    }
}

#[test]
fn changed_buttons_empty_without_change() {
    let mut b = Buttons::none();
    b.ps = true;
    let c = Controller::new(snapshot(Coordinate::zero(), Coordinate::zero(), 0, 0, b));
    let (pressed, held, released) = c.changed_buttons();
    assert_eq!(pressed, vec![]);
    assert_eq!(held, vec![Button::Ps]);
    assert_eq!(released, vec![]);
}

#[test]
fn decode_reads_axes_triggers_and_buttons() {
    let mut raw = [0u8; 20];
    raw[1] = 200; // left x
    raw[2] = 128; // left y
    raw[3] = 0; // right x
    raw[4] = 255; // right y
    raw[5] = 0x18; // hat neutral (8), square
    raw[6] = 0x81; // l1, r3
    raw[7] = 0x01; // vendor button
    raw[8] = 33; // left trigger
    raw[9] = 0; // right trigger
    let v = ControllerValues::decode(&raw);
    assert_eq!(v.left_stick, Coordinate { x: 72, y: 0 });
    assert_eq!(v.right_stick, Coordinate { x: -128, y: 127 });
    assert_eq!(v.left_trigger, 33);
    assert_eq!(v.right_trigger, 0);
    assert!(v.buttons.square);
    assert!(!v.buttons.cross);
    assert!(v.buttons.l1);
    assert!(v.buttons.r3);
    assert!(v.buttons.ps);
    assert!(!v.buttons.up);
    assert!(!v.buttons.down);
    assert!(!v.buttons.left);
    assert!(!v.buttons.right);
}

#[test]
fn decode_hat_diagonal_sets_both_directions() {
    let mut raw = [0u8; 20];
    raw[5] = 0x01; // hat pointing up-right
    let v = ControllerValues::decode(&raw);
    assert!(v.buttons.up);
    assert!(v.buttons.right);
    assert!(!v.buttons.down);
    assert!(!v.buttons.left);
}

#[test]
fn decode_of_centered_report_is_origin() {
    let mut raw = [0u8; 20];
    raw[1] = 128;
    raw[2] = 128;
    raw[3] = 128;
    raw[4] = 128;
    raw[5] = 0x08; // hat neutral
    let v = ControllerValues::decode(&raw);
    assert_eq!(v, ControllerValues::zero());
}

#[test]
fn exceeds_compares_euclidean_magnitude() {
    let c = Coordinate { x: 3, y: 4 };
    assert!(c.exceeds(4)); // magnitude 5
    assert!(!c.exceeds(5)); // exactly at the threshold
    assert!(!Coordinate::zero().exceeds(0));
    assert!(Coordinate { x: 0, y: -1 }.exceeds(0));
}

#[test]
fn len_squared_is_the_squared_magnitude() {
    assert_eq!(Coordinate { x: 3, y: 4 }.len_squared(), 25);
    assert_eq!(Coordinate { x: -3, y: -4 }.len_squared(), 25);
    assert_eq!(Coordinate::zero().len_squared(), 0);
    assert_eq!(Coordinate { x: -32768, y: -32768 }.len_squared(), 2147483648);
}
