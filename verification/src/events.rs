//! The event derivation engine: classifies a snapshot transition into
//! an ordered sequence of semantic events, and the handler trait
//! through which consumers receive them.

use vstd::prelude::*;

use crate::controller::button_order;
use crate::controller::all_buttons;
use crate::controller::Button;
use crate::controller::Buttons;
use crate::controller::Controller;
use crate::controller::ControllerValues;
use crate::controller::Coordinate;

verus! {

/// Which of the two sticks or triggers an event belongs to.
#[derive(Clone, Copy, Debug, PartialEq, Eq, Structural)]
pub enum LR {
    Left,
    Right,
}

/// A button event: `Down` and `Up` fire once on the edge, `Pressed`
/// fires every cycle while the button stays held.
#[derive(Clone, Copy, Debug, PartialEq, Eq, Structural)]
pub enum ButtonEvt {
    Down,
    Up,
    Pressed,
}

/// A stick event: `Moved` fires on motion beyond the deadzone,
/// `Active` every cycle the stick rests beyond it, `ToOrigin` once
/// when it falls back to or under it.
#[derive(Clone, Copy, Debug, PartialEq, Eq, Structural)]
pub enum StickEvt {
    Moved(Coordinate),
    Active(Coordinate),
    ToOrigin,
}

/// A trigger event, classified exactly as a stick event is, over the
/// scalar magnitude instead of the vector length.
#[derive(Clone, Copy, Debug, PartialEq, Eq, Structural)]
pub enum TriggerEvt {
    Moved(u16),
    Active(u16),
    ToOrigin,
}

/// One semantic event derived from a snapshot transition.
#[derive(Clone, Copy, Debug, PartialEq, Eq, Structural)]
pub enum HidEvent {
    Button(Button, ButtonEvt),
    Stick(LR, StickEvt),
    Trigger(LR, TriggerEvt),
}

/// The events one stick contributes to a cycle: beyond the deadzone it
/// reports `Moved` when its position changed and `Active` when not;
/// at or under the deadzone it reports `ToOrigin` exactly when its
/// position changed, and is silent otherwise.
pub open spec fn stick_events(side: LR, prev: Coordinate, cur: Coordinate, threshold: u16) -> Seq<
    HidEvent,
> {
    if cur.len_sq() > threshold * threshold {
        if cur != prev {
            seq![HidEvent::Stick(side, StickEvt::Moved(cur))]
        } else {
            seq![HidEvent::Stick(side, StickEvt::Active(cur))]
        }
    } else if cur != prev {
        seq![HidEvent::Stick(side, StickEvt::ToOrigin)]
    } else {
        Seq::empty()
    }
}

/// The events one trigger contributes to a cycle, classified as a
/// stick's are, over the scalar magnitude.
pub open spec fn trigger_events(side: LR, prev: u16, cur: u16, threshold: u16) -> Seq<HidEvent> {
    if cur > threshold {
        if cur != prev {
            seq![HidEvent::Trigger(side, TriggerEvt::Moved(cur))]
        } else {
            seq![HidEvent::Trigger(side, TriggerEvt::Active(cur))]
        }
    } else if cur != prev {
        seq![HidEvent::Trigger(side, TriggerEvt::ToOrigin)]
    } else {
        Seq::empty()
    }
}

/// Whether button `b` belongs to the set a `kind` event reports:
/// newly pressed for `Down`, newly released for `Up`, still held for
/// `Pressed`.
pub open spec fn button_cond(prev: Buttons, cur: Buttons, b: Button, kind: ButtonEvt) -> bool {
    match kind {
        ButtonEvt::Down => cur.spec_has(b) && !prev.spec_has(b),
        ButtonEvt::Up => !cur.spec_has(b) && prev.spec_has(b),
        ButtonEvt::Pressed => cur.spec_has(b) && prev.spec_has(b),
    }
}

/// The `kind` button events of a cycle, one per button of `order`
/// meeting the `kind` condition, in the order given.
pub open spec fn button_events(
    prev: Buttons,
    cur: Buttons,
    kind: ButtonEvt,
    order: Seq<Button>,
) -> Seq<HidEvent>
    decreases order.len(),
{
    if order.len() == 0 {
        Seq::empty()
    } else {
        let rest = button_events(prev, cur, kind, order.drop_last());
        if button_cond(prev, cur, order.last(), kind) {
            rest.push(HidEvent::Button(order.last(), kind))
        } else {
            rest
        }
    }
}

/// Every event a snapshot transition gives rise to, in the fixed order
/// consumers may rely on: sticks (left then right), then buttons
/// (down edges, up edges, held levels, each in the canonical button
/// order), then triggers (left then right).
pub open spec fn event_stream(
    prev: ControllerValues,
    cur: ControllerValues,
    stick_threshold: u16,
    trigger_threshold: u16,
) -> Seq<HidEvent> {
    stick_events(LR::Left, prev.left_stick, cur.left_stick, stick_threshold)
        + stick_events(LR::Right, prev.right_stick, cur.right_stick, stick_threshold)
        + button_events(prev.buttons, cur.buttons, ButtonEvt::Down, button_order())
        + button_events(prev.buttons, cur.buttons, ButtonEvt::Up, button_order())
        + button_events(prev.buttons, cur.buttons, ButtonEvt::Pressed, button_order())
        + trigger_events(LR::Left, prev.left_trigger, cur.left_trigger, trigger_threshold)
        + trigger_events(LR::Right, prev.right_trigger, cur.right_trigger, trigger_threshold)
}

/// Appends the events one stick contributes this cycle.
fn push_stick_events(
    evts: &mut Vec<HidEvent>,
    side: LR,
    prev: Coordinate,
    cur: Coordinate,
    threshold: u16,
)
    ensures
        final(evts)@ == old(evts)@ + stick_events(side, prev, cur, threshold),
{
    let ghost base = evts@;
    if cur.exceeds(threshold) {
        if cur != prev {
            evts.push(HidEvent::Stick(side, StickEvt::Moved(cur)));
        } else {
            evts.push(HidEvent::Stick(side, StickEvt::Active(cur)));
        }
    } else if cur != prev {
        evts.push(HidEvent::Stick(side, StickEvt::ToOrigin));
    }
    proof {
        assert(evts@ =~= base + stick_events(side, prev, cur, threshold));
    }
}

/// Appends the events one trigger contributes this cycle.
fn push_trigger_events(evts: &mut Vec<HidEvent>, side: LR, prev: u16, cur: u16, threshold: u16)
    ensures
        final(evts)@ == old(evts)@ + trigger_events(side, prev, cur, threshold),
{
    let ghost base = evts@;
    if cur > threshold {
        if cur != prev {
            evts.push(HidEvent::Trigger(side, TriggerEvt::Moved(cur)));
        } else {
            evts.push(HidEvent::Trigger(side, TriggerEvt::Active(cur)));
        }
    } else if cur != prev {
        evts.push(HidEvent::Trigger(side, TriggerEvt::ToOrigin));
    }
    proof {
        assert(evts@ =~= base + trigger_events(side, prev, cur, threshold));
    }
}

/// Whether button `b` belongs to the set a `kind` event reports.
fn button_matches(prev: &Buttons, cur: &Buttons, b: Button, kind: ButtonEvt) -> (r: bool)
    ensures
        r == button_cond(*prev, *cur, b, kind),
{
    match kind {
        ButtonEvt::Down => cur.has(b) && !prev.has(b),
        ButtonEvt::Up => !cur.has(b) && prev.has(b),
        ButtonEvt::Pressed => cur.has(b) && prev.has(b),
    }
}

/// Appends the `kind` button events of this cycle, walking the
/// canonical button order.
fn push_button_events(evts: &mut Vec<HidEvent>, prev: &Buttons, cur: &Buttons, kind: ButtonEvt)
    ensures
        final(evts)@ == old(evts)@ + button_events(*prev, *cur, kind, button_order()),
{
    let ghost base = evts@;
    let order = all_buttons();
    let mut i: usize = 0;
    while i < order.len()
        invariant
            i <= order.len(),
            order@ == button_order(),
            evts@ == base + button_events(*prev, *cur, kind, button_order().take(i as int)),
        decreases order.len() - i,
    {
        let b = order[i];
        if button_matches(prev, cur, b, kind) {
            evts.push(HidEvent::Button(b, kind));
        }
        proof {
            let s1 = button_order().take(i + 1 as int);
            assert(s1.drop_last() =~= button_order().take(i as int));
            assert(s1.last() == button_order()[i as int]);
            assert(evts@ =~= base + button_events(*prev, *cur, kind, s1));
        }
        i = i + 1;
    }
    proof {
        assert(button_order().take(order@.len() as int) =~= button_order());
    }
}

/// Runs the event derivation engine over one snapshot transition: a
/// pure function of the two snapshots and the two deadzone thresholds,
/// returning every derived event in the fixed order of `event_stream`.
pub fn derive_events(
    controller: &Controller,
    stick_threshold: u16,
    trigger_threshold: u16,
) -> (evts: Vec<HidEvent>)
    ensures
        evts@ == event_stream(
            controller.previous,
            controller.current,
            stick_threshold,
            trigger_threshold,
        ),
{
    let prev = &controller.previous;
    let cur = &controller.current;
    let mut evts: Vec<HidEvent> = Vec::new();
    push_stick_events(&mut evts, LR::Left, prev.left_stick, cur.left_stick, stick_threshold);
    push_stick_events(&mut evts, LR::Right, prev.right_stick, cur.right_stick, stick_threshold);
    push_button_events(&mut evts, &prev.buttons, &cur.buttons, ButtonEvt::Down);
    push_button_events(&mut evts, &prev.buttons, &cur.buttons, ButtonEvt::Up);
    push_button_events(&mut evts, &prev.buttons, &cur.buttons, ButtonEvt::Pressed);
    push_trigger_events(&mut evts, LR::Left, prev.left_trigger, cur.left_trigger, trigger_threshold);
    push_trigger_events(
        &mut evts,
        LR::Right,
        prev.right_trigger,
        cur.right_trigger,
        trigger_threshold,
    );
    proof {
        assert(evts@ =~= event_stream(*prev, *cur, stick_threshold, trigger_threshold));
    }
    evts
}

/// A consumer of derived events: updates a state, sends them over a
/// network or does whatever else with them.
pub trait ControllerHandler {
    /// The stick deadzone threshold this consumer asks for.
    fn min_len_stick(&self) -> u16 {
        0
    }

    /// The trigger deadzone threshold this consumer asks for.
    fn min_len_trigger(&self) -> u16 {
        0
    }

    /// Receives one derived event. This can be a void implementation
    /// if `controller_update` is overridden instead, for direct
    /// control over the raw controller state.
    fn on_event(&mut self, e: HidEvent);

    /// Runs the event derivation engine over the controller's latest
    /// transition and hands each derived event to `on_event`, in the
    /// fixed order of `event_stream`.
    fn controller_update(&mut self, controller: &Controller) {
        let stick_threshold = self.min_len_stick();
        let trigger_threshold = self.min_len_trigger();
        let evts = derive_events(controller, stick_threshold, trigger_threshold);
        let mut i: usize = 0;
        while i < evts.len()
            decreases evts.len() - i,
        {
            self.on_event(evts[i]);
            i = i + 1;
        }
    }
}

} // verus!
