//! Controller snapshots and the two-snapshot state they advance through.

use vstd::prelude::*;

verus! {

/// One normalized stick position. The components are fixed-point values;
/// only their squared Euclidean magnitude is ever compared against a
/// threshold, so no square root is needed.
#[derive(Clone, Copy, Debug, PartialEq, Eq, Structural)]
pub struct Coordinate {
    pub x: i16,
    pub y: i16,
}

impl Coordinate {
    /// Squared Euclidean magnitude of the position vector.
    pub open spec fn len_sq(self) -> int {
        self.x * self.x + self.y * self.y
    }

    /// The canonical origin position.
    pub open spec fn spec_zero() -> Coordinate {
        Coordinate { x: 0, y: 0 }
    }

    /// Returns the canonical origin position.
    pub fn zero() -> (c: Coordinate)
        ensures
            c == Coordinate::spec_zero(),
    {
        Coordinate { x: 0, y: 0 }
    }

    /// Returns the squared Euclidean magnitude of the position.
    pub fn len_squared(&self) -> (r: u32)
        ensures
            r == self.len_sq(),
    {
        let x = self.x as i64;
        let y = self.y as i64;
        proof {
            assert(x * x <= 0x4000_0000 && x * x >= 0) by (nonlinear_arith)
                requires
                    -0x8000 <= x <= 0x7fff,
            ;
            assert(y * y <= 0x4000_0000 && y * y >= 0) by (nonlinear_arith)
                requires
                    -0x8000 <= y <= 0x7fff,
            ;
        }
        (x * x + y * y) as u32
    }

    /// Whether the position lies strictly outside the deadzone of the
    /// given radius: its magnitude exceeds `threshold`, compared on the
    /// squares so that everything stays integral.
    pub fn exceeds(&self, threshold: u16) -> (r: bool)
        ensures
            r == (self.len_sq() > threshold * threshold),
    {
        let x = self.x as i64;
        let y = self.y as i64;
        let t = threshold as i64;
        proof {
            assert(x * x <= 0x4000_0000 && x * x >= 0) by (nonlinear_arith)
                requires
                    -0x8000 <= x <= 0x7fff,
            ;
            assert(y * y <= 0x4000_0000 && y * y >= 0) by (nonlinear_arith)
                requires
                    -0x8000 <= y <= 0x7fff,
            ;
            assert(t * t <= 0x1_0000_0000 && t * t >= 0) by (nonlinear_arith)
                requires
                    0 <= t <= 0xffff,
            ;
        }
        x * x + y * y > t * t
    }
}

/// One button of the pad's fixed domain: the four hat directions, the
/// four face buttons, the shoulder and trigger buttons, the two menu
/// buttons, the stick clicks and the vendor button.
#[derive(Clone, Copy, Debug, PartialEq, Eq, Structural)]
pub enum Button {
    Up,
    Down,
    Left,
    Right,
    Square,
    Cross,
    Circle,
    Triangle,
    L1,
    R1,
    L2,
    R2,
    Share,
    Options,
    L3,
    R3,
    Ps,
}

/// The set of buttons held down in one snapshot, one flag per button of
/// the domain.
#[derive(Clone, Copy, Debug, PartialEq, Eq, Structural)]
pub struct Buttons {
    pub up: bool,
    pub down: bool,
    pub left: bool,
    pub right: bool,
    pub square: bool,
    pub cross: bool,
    pub circle: bool,
    pub triangle: bool,
    pub l1: bool,
    pub r1: bool,
    pub l2: bool,
    pub r2: bool,
    pub share: bool,
    pub options: bool,
    pub l3: bool,
    pub r3: bool,
    pub ps: bool,
}

impl Buttons {
    /// Whether `b` is in the set.
    pub open spec fn spec_has(self, b: Button) -> bool {
        match b {
            Button::Up => self.up,
            Button::Down => self.down,
            Button::Left => self.left,
            Button::Right => self.right,
            Button::Square => self.square,
            Button::Cross => self.cross,
            Button::Circle => self.circle,
            Button::Triangle => self.triangle,
            Button::L1 => self.l1,
            Button::R1 => self.r1,
            Button::L2 => self.l2,
            Button::R2 => self.r2,
            Button::Share => self.share,
            Button::Options => self.options,
            Button::L3 => self.l3,
            Button::R3 => self.r3,
            Button::Ps => self.ps,
        }
    }

    /// The snapshot's button set as a mathematical set.
    pub open spec fn set(self) -> Set<Button> {
        Set::new(|b: Button| self.spec_has(b))
    }

    /// The empty button set.
    pub open spec fn spec_none() -> Buttons {
        Buttons {
            up: false,
            down: false,
            left: false,
            right: false,
            square: false,
            cross: false,
            circle: false,
            triangle: false,
            l1: false,
            r1: false,
            l2: false,
            r2: false,
            share: false,
            options: false,
            l3: false,
            r3: false,
            ps: false,
        }
    }

    /// Returns the empty button set.
    pub fn none() -> (r: Buttons)
        ensures
            r == Buttons::spec_none(),
    {
        Buttons {
            up: false,
            down: false,
            left: false,
            right: false,
            square: false,
            cross: false,
            circle: false,
            triangle: false,
            l1: false,
            r1: false,
            l2: false,
            r2: false,
            share: false,
            options: false,
            l3: false,
            r3: false,
            ps: false,
        }
    }

    /// Whether `b` is in the set.
    pub fn has(&self, b: Button) -> (r: bool)
        ensures
            r == self.spec_has(b),
    {
        match b {
            Button::Up => self.up,
            Button::Down => self.down,
            Button::Left => self.left,
            Button::Right => self.right,
            Button::Square => self.square,
            Button::Cross => self.cross,
            Button::Circle => self.circle,
            Button::Triangle => self.triangle,
            Button::L1 => self.l1,
            Button::R1 => self.r1,
            Button::L2 => self.l2,
            Button::R2 => self.r2,
            Button::Share => self.share,
            Button::Options => self.options,
            Button::L3 => self.l3,
            Button::R3 => self.r3,
            Button::Ps => self.ps,
        }
    }
}

/// The canonical order in which the button domain is walked whenever
/// buttons are reported: hat directions, face buttons, shoulder row,
/// menu buttons, stick clicks, vendor button.
pub open spec fn button_order() -> Seq<Button> {
    seq![
        Button::Up,
        Button::Down,
        Button::Left,
        Button::Right,
        Button::Square,
        Button::Cross,
        Button::Circle,
        Button::Triangle,
        Button::L1,
        Button::R1,
        Button::L2,
        Button::R2,
        Button::Share,
        Button::Options,
        Button::L3,
        Button::R3,
        Button::Ps,
    ]
}

/// Returns every button of the domain once, in the canonical order.
pub fn all_buttons() -> (v: Vec<Button>)
    ensures
        v@ == button_order(),
{
    let mut v: Vec<Button> = Vec::new();
    v.push(Button::Up);
    v.push(Button::Down);
    v.push(Button::Left);
    v.push(Button::Right);
    v.push(Button::Square);
    v.push(Button::Cross);
    v.push(Button::Circle);
    v.push(Button::Triangle);
    v.push(Button::L1);
    v.push(Button::R1);
    v.push(Button::L2);
    v.push(Button::R2);
    v.push(Button::Share);
    v.push(Button::Options);
    v.push(Button::L3);
    v.push(Button::R3);
    v.push(Button::Ps);
    proof {
        assert(v@ =~= button_order());
    }
    v
}

/// Every button of the domain appears in the canonical order.
pub proof fn lemma_button_order_complete(b: Button)
    ensures
        button_order().contains(b),
{
    match b {
        Button::Up => assert(button_order()[0] == b),
        Button::Down => assert(button_order()[1] == b),
        Button::Left => assert(button_order()[2] == b),
        Button::Right => assert(button_order()[3] == b),
        Button::Square => assert(button_order()[4] == b),
        Button::Cross => assert(button_order()[5] == b),
        Button::Circle => assert(button_order()[6] == b),
        Button::Triangle => assert(button_order()[7] == b),
        Button::L1 => assert(button_order()[8] == b),
        Button::R1 => assert(button_order()[9] == b),
        Button::L2 => assert(button_order()[10] == b),
        Button::R2 => assert(button_order()[11] == b),
        Button::Share => assert(button_order()[12] == b),
        Button::Options => assert(button_order()[13] == b),
        Button::L3 => assert(button_order()[14] == b),
        Button::R3 => assert(button_order()[15] == b),
        Button::Ps => assert(button_order()[16] == b),
    }
}

/// One fully decoded snapshot of every axis and button at a single
/// sampling instant. Produced fresh each read cycle and never mutated.
#[derive(Clone, Copy, Debug, PartialEq, Eq, Structural)]
pub struct ControllerValues {
    pub left_stick: Coordinate,
    pub right_stick: Coordinate,
    pub left_trigger: u16,
    pub right_trigger: u16,
    pub buttons: Buttons,
}

/// A stick axis byte recentred from its unsigned wire range `0..=255`
/// to a signed position with `128` as the origin.
pub open spec fn axis_value(b: u8) -> i16 {
    (b - 128) as i16
}

/// Whether any of the bits of `mask` is set in `b`.
pub open spec fn bit_set(b: u8, mask: u8) -> bool {
    b & mask != 0
}

/// Whether a hat nibble points up (straight or diagonally).
pub open spec fn hat_up(h: u8) -> bool {
    h == 0 || h == 1 || h == 7
}

/// Whether a hat nibble points right (straight or diagonally).
pub open spec fn hat_right(h: u8) -> bool {
    h == 1 || h == 2 || h == 3
}

/// Whether a hat nibble points down (straight or diagonally).
pub open spec fn hat_down(h: u8) -> bool {
    h == 3 || h == 4 || h == 5
}

/// Whether a hat nibble points left (straight or diagonally).
pub open spec fn hat_left(h: u8) -> bool {
    h == 5 || h == 6 || h == 7
}

/// The button set encoded in a raw report: byte 5 carries the hat
/// nibble and the four face buttons, byte 6 the shoulder row, menu
/// buttons and stick clicks, byte 7 the vendor button.
pub open spec fn spec_decode_buttons(raw: Seq<u8>) -> Buttons {
    let h = raw[5] & 0x0f;
    Buttons {
        up: hat_up(h),
        down: hat_down(h),
        left: hat_left(h),
        right: hat_right(h),
        square: bit_set(raw[5], 0x10),
        cross: bit_set(raw[5], 0x20),
        circle: bit_set(raw[5], 0x40),
        triangle: bit_set(raw[5], 0x80),
        l1: bit_set(raw[6], 0x01),
        r1: bit_set(raw[6], 0x02),
        l2: bit_set(raw[6], 0x04),
        r2: bit_set(raw[6], 0x08),
        share: bit_set(raw[6], 0x10),
        options: bit_set(raw[6], 0x20),
        l3: bit_set(raw[6], 0x40),
        r3: bit_set(raw[6], 0x80),
        ps: bit_set(raw[7], 0x01),
    }
}

/// The snapshot encoded in a raw report: bytes 1 to 4 carry the stick
/// axes (left x, left y, right x, right y), bytes 5 to 7 the buttons,
/// bytes 8 and 9 the trigger magnitudes.
pub open spec fn spec_decode(raw: Seq<u8>) -> ControllerValues {
    ControllerValues {
        left_stick: Coordinate { x: axis_value(raw[1]), y: axis_value(raw[2]) },
        right_stick: Coordinate { x: axis_value(raw[3]), y: axis_value(raw[4]) },
        left_trigger: raw[8] as u16,
        right_trigger: raw[9] as u16,
        buttons: spec_decode_buttons(raw),
    }
}

impl ControllerValues {
    /// Builds a snapshot from already decoded readings.
    pub fn new(
        left_stick: Coordinate,
        right_stick: Coordinate,
        left_trigger: u16,
        right_trigger: u16,
        buttons: Buttons,
    ) -> (v: ControllerValues)
        ensures
            v == (ControllerValues { left_stick, right_stick, left_trigger, right_trigger, buttons }),
    {
        ControllerValues { left_stick, right_stick, left_trigger, right_trigger, buttons }
    }

    /// The canonical zero snapshot: both sticks at the origin, both
    /// triggers released, no button held.
    pub open spec fn spec_zero() -> ControllerValues {
        ControllerValues {
            left_stick: Coordinate::spec_zero(),
            right_stick: Coordinate::spec_zero(),
            left_trigger: 0,
            right_trigger: 0,
            buttons: Buttons::spec_none(),
        }
    }

    /// Returns the canonical zero snapshot.
    pub fn zero() -> (v: ControllerValues)
        ensures
            v == ControllerValues::spec_zero(),
    {
        ControllerValues {
            left_stick: Coordinate::zero(),
            right_stick: Coordinate::zero(),
            left_trigger: 0,
            right_trigger: 0,
            buttons: Buttons::none(),
        }
    }

    /// Decodes one fixed-size raw report into a snapshot. Total: every
    /// report decodes, and nothing is retained from `raw`.
    pub fn decode(raw: &[u8; 20]) -> (v: ControllerValues)
        ensures
            v == spec_decode(raw@),
    {
        let h = raw[5] & 0x0f;
        let buttons = Buttons {
            up: h == 0 || h == 1 || h == 7,
            down: h == 3 || h == 4 || h == 5,
            left: h == 5 || h == 6 || h == 7,
            right: h == 1 || h == 2 || h == 3,
            square: raw[5] & 0x10 != 0,
            cross: raw[5] & 0x20 != 0,
            circle: raw[5] & 0x40 != 0,
            triangle: raw[5] & 0x80 != 0,
            l1: raw[6] & 0x01 != 0,
            r1: raw[6] & 0x02 != 0,
            l2: raw[6] & 0x04 != 0,
            r2: raw[6] & 0x08 != 0,
            share: raw[6] & 0x10 != 0,
            options: raw[6] & 0x20 != 0,
            l3: raw[6] & 0x40 != 0,
            r3: raw[6] & 0x80 != 0,
            ps: raw[7] & 0x01 != 0,
        };
        ControllerValues {
            left_stick: Coordinate { x: (raw[1] as i16) - 128, y: (raw[2] as i16) - 128 },
            right_stick: Coordinate { x: (raw[3] as i16) - 128, y: (raw[4] as i16) - 128 },
            left_trigger: raw[8] as u16,
            right_trigger: raw[9] as u16,
            buttons,
        }
    }
}

/// Buttons held now that were not held before.
pub open spec fn pressed_set(prev: Buttons, cur: Buttons) -> Set<Button> {
    Set::new(|b: Button| cur.spec_has(b) && !prev.spec_has(b))
}

/// Buttons held both now and before.
pub open spec fn held_set(prev: Buttons, cur: Buttons) -> Set<Button> {
    Set::new(|b: Button| cur.spec_has(b) && prev.spec_has(b))
}

/// Buttons held before that are no longer held.
pub open spec fn released_set(prev: Buttons, cur: Buttons) -> Set<Button> {
    Set::new(|b: Button| !cur.spec_has(b) && prev.spec_has(b))
}

/// The buttons of `order` that were just pressed, kept in order.
pub open spec fn pressed_in(prev: Buttons, cur: Buttons, order: Seq<Button>) -> Seq<Button>
    decreases order.len(),
{
    if order.len() == 0 {
        Seq::empty()
    } else {
        let rest = pressed_in(prev, cur, order.drop_last());
        if cur.spec_has(order.last()) && !prev.spec_has(order.last()) {
            rest.push(order.last())
        } else {
            rest
        }
    }
}

/// The buttons of `order` that stay held, kept in order.
pub open spec fn held_in(prev: Buttons, cur: Buttons, order: Seq<Button>) -> Seq<Button>
    decreases order.len(),
{
    if order.len() == 0 {
        Seq::empty()
    } else {
        let rest = held_in(prev, cur, order.drop_last());
        if cur.spec_has(order.last()) && prev.spec_has(order.last()) {
            rest.push(order.last())
        } else {
            rest
        }
    }
}

/// The buttons of `order` that were just released, kept in order.
pub open spec fn released_in(prev: Buttons, cur: Buttons, order: Seq<Button>) -> Seq<Button>
    decreases order.len(),
{
    if order.len() == 0 {
        Seq::empty()
    } else {
        let rest = released_in(prev, cur, order.drop_last());
        if !cur.spec_has(order.last()) && prev.spec_has(order.last()) {
            rest.push(order.last())
        } else {
            rest
        }
    }
}

/// A sequence extended by one element contains exactly its old
/// elements and the new one.
proof fn lemma_push_contains(s: Seq<Button>, x: Button, b: Button)
    ensures
        s.push(x).contains(b) <==> (s.contains(b) || b == x),
{
    if s.push(x).contains(b) {
        let i = choose|i: int| 0 <= i < s.push(x).len() && s.push(x)[i] == b;
        if i < s.len() {
            assert(s[i] == b);
        }
    }
    if s.contains(b) {
        let i = choose|i: int| 0 <= i < s.len() && s[i] == b;
        assert(s.push(x)[i] == b);
    }
    if b == x {
        assert(s.push(x)[s.len() as int] == b);
    }
}

/// Membership in the just-pressed slice of `order` is membership in
/// `order` together with the pressed condition.
pub proof fn lemma_pressed_in_contains(prev: Buttons, cur: Buttons, order: Seq<Button>, b: Button)
    ensures
        pressed_in(prev, cur, order).contains(b) <==> (order.contains(b) && cur.spec_has(b)
            && !prev.spec_has(b)),
    decreases order.len(),
{
    if order.len() > 0 {
        lemma_pressed_in_contains(prev, cur, order.drop_last(), b);
        assert(order =~= order.drop_last().push(order.last()));
        lemma_push_contains(order.drop_last(), order.last(), b);
        lemma_push_contains(pressed_in(prev, cur, order.drop_last()), order.last(), b);
    }
}

/// Membership in the still-held slice of `order` is membership in
/// `order` together with the held condition.
pub proof fn lemma_held_in_contains(prev: Buttons, cur: Buttons, order: Seq<Button>, b: Button)
    ensures
        held_in(prev, cur, order).contains(b) <==> (order.contains(b) && cur.spec_has(b)
            && prev.spec_has(b)),
    decreases order.len(),
{
    if order.len() > 0 {
        lemma_held_in_contains(prev, cur, order.drop_last(), b);
        assert(order =~= order.drop_last().push(order.last()));
        lemma_push_contains(order.drop_last(), order.last(), b);
        lemma_push_contains(held_in(prev, cur, order.drop_last()), order.last(), b);
    }
}

/// Membership in the just-released slice of `order` is membership in
/// `order` together with the released condition.
pub proof fn lemma_released_in_contains(prev: Buttons, cur: Buttons, order: Seq<Button>, b: Button)
    ensures
        released_in(prev, cur, order).contains(b) <==> (order.contains(b) && !cur.spec_has(b)
            && prev.spec_has(b)),
    decreases order.len(),
{
    if order.len() > 0 {
        lemma_released_in_contains(prev, cur, order.drop_last(), b);
        assert(order =~= order.drop_last().push(order.last()));
        lemma_push_contains(order.drop_last(), order.last(), b);
        lemma_push_contains(released_in(prev, cur, order.drop_last()), order.last(), b);
    }
}

/// The two-snapshot state the sampling loop advances: the snapshot of
/// the most recent read and the one immediately before it. The change
/// accessors compare the two by exact equality, so any numeric
/// difference counts as a change, however small.
#[derive(Clone, Copy, Debug, PartialEq, Eq, Structural)]
pub struct Controller {
    pub previous: ControllerValues,
    pub current: ControllerValues,
}

impl Controller {
    /// Starts a connection's state from its first snapshot; until the
    /// first update, nothing has changed, so both snapshots coincide.
    pub fn new(initial: ControllerValues) -> (c: Controller)
        ensures
            c.current == initial,
            c.previous == initial,
    {
        Controller { previous: initial, current: initial }
    }

    /// Advances by one read cycle: the old current snapshot becomes the
    /// previous one and `new_values` becomes current.
    pub fn update(&mut self, new_values: ControllerValues)
        ensures
            final(self).previous == old(self).current,
            final(self).current == new_values,
    {
        *self = Controller { previous: self.current, current: new_values };
    }

    /// The current left stick position.
    pub fn left_pos(&self) -> (r: Coordinate)
        ensures
            r == self.current.left_stick,
    {
        self.current.left_stick
    }

    /// The current right stick position.
    pub fn right_pos(&self) -> (r: Coordinate)
        ensures
            r == self.current.right_stick,
    {
        self.current.right_stick
    }

    /// The current left trigger magnitude.
    pub fn left_trigger(&self) -> (r: u16)
        ensures
            r == self.current.left_trigger,
    {
        self.current.left_trigger
    }

    /// The current right trigger magnitude.
    pub fn right_trigger(&self) -> (r: u16)
        ensures
            r == self.current.right_trigger,
    {
        self.current.right_trigger
    }

    /// The left stick position of the previous cycle.
    pub fn prev_left_pos(&self) -> (r: Coordinate)
        ensures
            r == self.previous.left_stick,
    {
        self.previous.left_stick
    }

    /// The right stick position of the previous cycle.
    pub fn prev_right_pos(&self) -> (r: Coordinate)
        ensures
            r == self.previous.right_stick,
    {
        self.previous.right_stick
    }

    /// The left trigger magnitude of the previous cycle.
    pub fn prev_left_trigger(&self) -> (r: u16)
        ensures
            r == self.previous.left_trigger,
    {
        self.previous.left_trigger
    }

    /// The right trigger magnitude of the previous cycle.
    pub fn prev_right_trigger(&self) -> (r: u16)
        ensures
            r == self.previous.right_trigger,
    {
        self.previous.right_trigger
    }

    /// Whether the left stick position differs from the previous cycle.
    pub fn left_pos_changed(&self) -> (r: bool)
        ensures
            r == (self.current.left_stick != self.previous.left_stick),
    {
        self.current.left_stick != self.previous.left_stick
    }

    /// Whether the right stick position differs from the previous cycle.
    pub fn right_pos_changed(&self) -> (r: bool)
        ensures
            r == (self.current.right_stick != self.previous.right_stick),
    {
        self.current.right_stick != self.previous.right_stick
    }

    /// Whether the left trigger magnitude differs from the previous cycle.
    pub fn left_trigger_changed(&self) -> (r: bool)
        ensures
            r == (self.current.left_trigger != self.previous.left_trigger),
    {
        self.current.left_trigger != self.previous.left_trigger
    }

    /// Whether the right trigger magnitude differs from the previous cycle.
    pub fn right_trigger_changed(&self) -> (r: bool)
        ensures
            r == (self.current.right_trigger != self.previous.right_trigger),
    {
        self.current.right_trigger != self.previous.right_trigger
    }

    /// The three button set differences of this cycle, each walked in
    /// the canonical button order: newly pressed, still held, newly
    /// released.
    pub fn changed_buttons(&self) -> (r: (Vec<Button>, Vec<Button>, Vec<Button>))
        ensures
            r.0@ == pressed_in(self.previous.buttons, self.current.buttons, button_order()),
            r.1@ == held_in(self.previous.buttons, self.current.buttons, button_order()),
            r.2@ == released_in(self.previous.buttons, self.current.buttons, button_order()),
            forall|b: Button|
                r.0@.contains(b) <==> pressed_set(self.previous.buttons, self.current.buttons)
                    .contains(b),
            forall|b: Button|
                r.1@.contains(b) <==> held_set(self.previous.buttons, self.current.buttons)
                    .contains(b),
            forall|b: Button|
                r.2@.contains(b) <==> released_set(self.previous.buttons, self.current.buttons)
                    .contains(b),
    {
        let prev = self.previous.buttons;
        let cur = self.current.buttons;
        let order = all_buttons();
        let mut pressed: Vec<Button> = Vec::new();
        let mut held: Vec<Button> = Vec::new();
        let mut released: Vec<Button> = Vec::new();
        let mut i: usize = 0;
        while i < order.len()
            invariant
                i <= order.len(),
                order@ == button_order(),
                pressed@ == pressed_in(prev, cur, button_order().take(i as int)),
                held@ == held_in(prev, cur, button_order().take(i as int)),
                released@ == released_in(prev, cur, button_order().take(i as int)),
            decreases order.len() - i,
        {
            let b = order[i];
            if cur.has(b) && !prev.has(b) {
                pressed.push(b);
            }
            if cur.has(b) && prev.has(b) {
                held.push(b);
            }
            if !cur.has(b) && prev.has(b) {
                released.push(b);
            }
            proof {
                let s1 = button_order().take(i + 1 as int);
                assert(s1.drop_last() =~= button_order().take(i as int));
                assert(s1.last() == button_order()[i as int]);
            }
            i = i + 1;
        }
        proof {
            assert(button_order().take(order@.len() as int) =~= button_order());
            assert forall|b: Button|
                pressed@.contains(b) <==> pressed_set(prev, cur).contains(b) by {
                lemma_pressed_in_contains(prev, cur, button_order(), b);
                lemma_button_order_complete(b);
            }
            assert forall|b: Button| held@.contains(b) <==> held_set(prev, cur).contains(b) by {
                lemma_held_in_contains(prev, cur, button_order(), b);
                lemma_button_order_complete(b);
            }
            assert forall|b: Button|
                released@.contains(b) <==> released_set(prev, cur).contains(b) by {
                lemma_released_in_contains(prev, cur, button_order(), b);
                lemma_button_order_complete(b);
            }
        }
        (pressed, held, released)
    }
}

} // verus!
