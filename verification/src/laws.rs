//! Properties the event derivation engine guarantees, stated over the
//! same spec functions its contracts use and proved once for every
//! snapshot pair.

use vstd::prelude::*;

use crate::controller::button_order;
use crate::controller::held_set;
use crate::controller::pressed_set;
use crate::controller::released_set;
use crate::controller::Button;
use crate::controller::Buttons;
use crate::controller::ControllerValues;
use crate::controller::Coordinate;
use crate::events::button_events;
use crate::events::event_stream;
use crate::events::stick_events;
use crate::events::trigger_events;
use crate::events::ButtonEvt;
use crate::events::HidEvent;
use crate::events::StickEvt;
use crate::events::TriggerEvt;
use crate::events::LR;

verus! {

/// The stick position of the given side in a snapshot.
pub open spec fn stick_of(v: ControllerValues, side: LR) -> Coordinate {
    match side {
        LR::Left => v.left_stick,
        LR::Right => v.right_stick,
    }
}

/// The trigger magnitude of the given side in a snapshot.
pub open spec fn trigger_of(v: ControllerValues, side: LR) -> u16 {
    match side {
        LR::Left => v.left_trigger,
        LR::Right => v.right_trigger,
    }
}

/// Whether an event is a stick event of the given side.
pub open spec fn is_stick_event(e: HidEvent, side: LR) -> bool {
    match e {
        HidEvent::Stick(s, _) => s == side,
        _ => false,
    }
}

/// Whether an event is a trigger event of the given side.
pub open spec fn is_trigger_event(e: HidEvent, side: LR) -> bool {
    match e {
        HidEvent::Trigger(s, _) => s == side,
        _ => false,
    }
}

/// The subsequence of stick events of the given side, in emission order.
pub open spec fn sticks_of(evts: Seq<HidEvent>, side: LR) -> Seq<HidEvent>
    decreases evts.len(),
{
    if evts.len() == 0 {
        Seq::empty()
    } else {
        let rest = sticks_of(evts.drop_last(), side);
        if is_stick_event(evts.last(), side) {
            rest.push(evts.last())
        } else {
            rest
        }
    }
}

/// The subsequence of trigger events of the given side, in emission order.
pub open spec fn triggers_of(evts: Seq<HidEvent>, side: LR) -> Seq<HidEvent>
    decreases evts.len(),
{
    if evts.len() == 0 {
        Seq::empty()
    } else {
        let rest = triggers_of(evts.drop_last(), side);
        if is_trigger_event(evts.last(), side) {
            rest.push(evts.last())
        } else {
            rest
        }
    }
}

proof fn lemma_sticks_of_add(a: Seq<HidEvent>, b: Seq<HidEvent>, side: LR)
    ensures
        sticks_of(a + b, side) == sticks_of(a, side) + sticks_of(b, side),
    decreases b.len(),
{
    if b.len() == 0 {
        assert(a + b =~= a);
        assert(sticks_of(a, side) + sticks_of(b, side) =~= sticks_of(a, side));
    } else {
        lemma_sticks_of_add(a, b.drop_last(), side);
        assert((a + b).drop_last() =~= a + b.drop_last());
        assert((a + b).last() == b.last());
        if is_stick_event(b.last(), side) {
            assert((sticks_of(a, side) + sticks_of(b.drop_last(), side)).push(b.last()) =~= sticks_of(
                a,
                side,
            ) + sticks_of(b.drop_last(), side).push(b.last()));
        }
    }
}

proof fn lemma_triggers_of_add(a: Seq<HidEvent>, b: Seq<HidEvent>, side: LR)
    ensures
        triggers_of(a + b, side) == triggers_of(a, side) + triggers_of(b, side),
    decreases b.len(),
{
    if b.len() == 0 {
        assert(a + b =~= a);
        assert(triggers_of(a, side) + triggers_of(b, side) =~= triggers_of(a, side));
    } else {
        lemma_triggers_of_add(a, b.drop_last(), side);
        assert((a + b).drop_last() =~= a + b.drop_last());
        assert((a + b).last() == b.last());
        if is_trigger_event(b.last(), side) {
            assert((triggers_of(a, side) + triggers_of(b.drop_last(), side)).push(b.last())
                =~= triggers_of(a, side) + triggers_of(b.drop_last(), side).push(b.last()));
        }
    }
}

proof fn lemma_sticks_of_none(evts: Seq<HidEvent>, side: LR)
    requires
        forall|i: int| 0 <= i < evts.len() ==> !is_stick_event(evts[i], side),
    ensures
        sticks_of(evts, side) == Seq::<HidEvent>::empty(),
    decreases evts.len(),
{
    if evts.len() > 0 {
        assert(forall|i: int|
            0 <= i < evts.drop_last().len() ==> evts.drop_last()[i] == evts[i]);
        lemma_sticks_of_none(evts.drop_last(), side);
    }
}

proof fn lemma_triggers_of_none(evts: Seq<HidEvent>, side: LR)
    requires
        forall|i: int| 0 <= i < evts.len() ==> !is_trigger_event(evts[i], side),
    ensures
        triggers_of(evts, side) == Seq::<HidEvent>::empty(),
    decreases evts.len(),
{
    if evts.len() > 0 {
        assert(forall|i: int|
            0 <= i < evts.drop_last().len() ==> evts.drop_last()[i] == evts[i]);
        lemma_triggers_of_none(evts.drop_last(), side);
    }
}

/// Every event a button walk emits is a button event.
proof fn lemma_button_events_kind(prev: Buttons, cur: Buttons, kind: ButtonEvt, order: Seq<Button>)
    ensures
        forall|i: int|
            0 <= i < button_events(prev, cur, kind, order).len() ==> button_events(
                prev,
                cur,
                kind,
                order,
            )[i] is Button,
    decreases order.len(),
{
    if order.len() > 0 {
        lemma_button_events_kind(prev, cur, kind, order.drop_last());
    }
}

proof fn lemma_sticks_of_one(e: HidEvent, side: LR)
    ensures
        is_stick_event(e, side) ==> sticks_of(seq![e], side) == seq![e],
        !is_stick_event(e, side) ==> sticks_of(seq![e], side) == Seq::<HidEvent>::empty(),
{
    assert(seq![e].drop_last() =~= Seq::<HidEvent>::empty());
    assert(seq![e].last() == e);
    assert(sticks_of(Seq::<HidEvent>::empty(), side) == Seq::<HidEvent>::empty());
    if is_stick_event(e, side) {
        assert(Seq::<HidEvent>::empty().push(e) =~= seq![e]);
    }
}

proof fn lemma_triggers_of_one(e: HidEvent, side: LR)
    ensures
        is_trigger_event(e, side) ==> triggers_of(seq![e], side) == seq![e],
        !is_trigger_event(e, side) ==> triggers_of(seq![e], side) == Seq::<HidEvent>::empty(),
{
    assert(seq![e].drop_last() =~= Seq::<HidEvent>::empty());
    assert(seq![e].last() == e);
    assert(triggers_of(Seq::<HidEvent>::empty(), side) == Seq::<HidEvent>::empty());
    if is_trigger_event(e, side) {
        assert(Seq::<HidEvent>::empty().push(e) =~= seq![e]);
    }
}

/// What the whole event stream holds of one side's stick is exactly
/// that stick's own contribution: the fixed emission order inserts no
/// other stick event of that side and loses none.
pub proof fn lemma_stick_projection(
    prev: ControllerValues,
    cur: ControllerValues,
    st: u16,
    tt: u16,
    side: LR,
)
    ensures
        sticks_of(event_stream(prev, cur, st, tt), side) == stick_events(
            side,
            stick_of(prev, side),
            stick_of(cur, side),
            st,
        ),
{
    let sl = stick_events(LR::Left, prev.left_stick, cur.left_stick, st);
    let sr = stick_events(LR::Right, prev.right_stick, cur.right_stick, st);
    let bd = button_events(prev.buttons, cur.buttons, ButtonEvt::Down, button_order());
    let bu = button_events(prev.buttons, cur.buttons, ButtonEvt::Up, button_order());
    let bp = button_events(prev.buttons, cur.buttons, ButtonEvt::Pressed, button_order());
    let tl = trigger_events(LR::Left, prev.left_trigger, cur.left_trigger, tt);
    let tr = trigger_events(LR::Right, prev.right_trigger, cur.right_trigger, tt);
    lemma_sticks_of_add(sl + sr + bd + bu + bp + tl, tr, side);
    lemma_sticks_of_add(sl + sr + bd + bu + bp, tl, side);
    lemma_sticks_of_add(sl + sr + bd + bu, bp, side);
    lemma_sticks_of_add(sl + sr + bd, bu, side);
    lemma_sticks_of_add(sl + sr, bd, side);
    lemma_sticks_of_add(sl, sr, side);
    lemma_stick_leaf(LR::Left, prev.left_stick, cur.left_stick, st, side);
    lemma_stick_leaf(LR::Right, prev.right_stick, cur.right_stick, st, side);
    lemma_button_events_kind(prev.buttons, cur.buttons, ButtonEvt::Down, button_order());
    lemma_button_events_kind(prev.buttons, cur.buttons, ButtonEvt::Up, button_order());
    lemma_button_events_kind(prev.buttons, cur.buttons, ButtonEvt::Pressed, button_order());
    lemma_sticks_of_none(bd, side);
    lemma_sticks_of_none(bu, side);
    lemma_sticks_of_none(bp, side);
    lemma_trigger_leaf_no_stick(LR::Left, prev.left_trigger, cur.left_trigger, tt, side);
    lemma_trigger_leaf_no_stick(LR::Right, prev.right_trigger, cur.right_trigger, tt, side);
    match side {
        LR::Left => {
            assert(sticks_of(event_stream(prev, cur, st, tt), side) =~= sl);
        },
        LR::Right => {
            assert(sticks_of(event_stream(prev, cur, st, tt), side) =~= sr);
        },
    }
}

/// One stick's contribution projects to itself on its own side and to
/// nothing on the other.
proof fn lemma_stick_leaf(side2: LR, p: Coordinate, c: Coordinate, t: u16, side: LR)
    ensures
        side2 == side ==> sticks_of(stick_events(side2, p, c, t), side) == stick_events(
            side2,
            p,
            c,
            t,
        ),
        side2 != side ==> sticks_of(stick_events(side2, p, c, t), side) == Seq::<
            HidEvent,
        >::empty(),
{
    let s = stick_events(side2, p, c, t);
    if s.len() != 0 {
        lemma_sticks_of_one(s[0], side);
        assert(s =~= seq![s[0]]);
    }
}

/// A trigger's contribution holds no stick event.
proof fn lemma_trigger_leaf_no_stick(side2: LR, p: u16, c: u16, t: u16, side: LR)
    ensures
        sticks_of(trigger_events(side2, p, c, t), side) == Seq::<HidEvent>::empty(),
{
    let s = trigger_events(side2, p, c, t);
    lemma_sticks_of_none(s, side);
}

/// What the whole event stream holds of one side's trigger is exactly
/// that trigger's own contribution.
pub proof fn lemma_trigger_projection(
    prev: ControllerValues,
    cur: ControllerValues,
    st: u16,
    tt: u16,
    side: LR,
)
    ensures
        triggers_of(event_stream(prev, cur, st, tt), side) == trigger_events(
            side,
            trigger_of(prev, side),
            trigger_of(cur, side),
            tt,
        ),
{
    let sl = stick_events(LR::Left, prev.left_stick, cur.left_stick, st);
    let sr = stick_events(LR::Right, prev.right_stick, cur.right_stick, st);
    let bd = button_events(prev.buttons, cur.buttons, ButtonEvt::Down, button_order());
    let bu = button_events(prev.buttons, cur.buttons, ButtonEvt::Up, button_order());
    let bp = button_events(prev.buttons, cur.buttons, ButtonEvt::Pressed, button_order());
    let tl = trigger_events(LR::Left, prev.left_trigger, cur.left_trigger, tt);
    let tr = trigger_events(LR::Right, prev.right_trigger, cur.right_trigger, tt);
    lemma_triggers_of_add(sl + sr + bd + bu + bp + tl, tr, side);
    lemma_triggers_of_add(sl + sr + bd + bu + bp, tl, side);
    lemma_triggers_of_add(sl + sr + bd + bu, bp, side);
    lemma_triggers_of_add(sl + sr + bd, bu, side);
    lemma_triggers_of_add(sl + sr, bd, side);
    lemma_triggers_of_add(sl, sr, side);
    lemma_trigger_leaf(LR::Left, prev.left_trigger, cur.left_trigger, tt, side);
    lemma_trigger_leaf(LR::Right, prev.right_trigger, cur.right_trigger, tt, side);
    lemma_button_events_kind(prev.buttons, cur.buttons, ButtonEvt::Down, button_order());
    lemma_button_events_kind(prev.buttons, cur.buttons, ButtonEvt::Up, button_order());
    lemma_button_events_kind(prev.buttons, cur.buttons, ButtonEvt::Pressed, button_order());
    lemma_triggers_of_none(bd, side);
    lemma_triggers_of_none(bu, side);
    lemma_triggers_of_none(bp, side);
    lemma_stick_leaf_no_trigger(LR::Left, prev.left_stick, cur.left_stick, st, side);
    lemma_stick_leaf_no_trigger(LR::Right, prev.right_stick, cur.right_stick, st, side);
    match side {
        LR::Left => {
            assert(triggers_of(event_stream(prev, cur, st, tt), side) =~= tl);
        },
        LR::Right => {
            assert(triggers_of(event_stream(prev, cur, st, tt), side) =~= tr);
        },
    }
}

/// One trigger's contribution projects to itself on its own side and
/// to nothing on the other.
proof fn lemma_trigger_leaf(side2: LR, p: u16, c: u16, t: u16, side: LR)
    ensures
        side2 == side ==> triggers_of(trigger_events(side2, p, c, t), side) == trigger_events(
            side2,
            p,
            c,
            t,
        ),
        side2 != side ==> triggers_of(trigger_events(side2, p, c, t), side) == Seq::<
            HidEvent,
        >::empty(),
{
    let s = trigger_events(side2, p, c, t);
    if s.len() != 0 {
        lemma_triggers_of_one(s[0], side);
        assert(s =~= seq![s[0]]);
    }
}

/// A stick's contribution holds no trigger event.
proof fn lemma_stick_leaf_no_trigger(side2: LR, p: Coordinate, c: Coordinate, t: u16, side: LR)
    ensures
        triggers_of(stick_events(side2, p, c, t), side) == Seq::<HidEvent>::empty(),
{
    let s = stick_events(side2, p, c, t);
    lemma_triggers_of_none(s, side);
}

/// A stream whose stick projections are empty on both sides holds no
/// stick event at all.
proof fn lemma_no_stick_events(evts: Seq<HidEvent>)
    requires
        sticks_of(evts, LR::Left) == Seq::<HidEvent>::empty(),
        sticks_of(evts, LR::Right) == Seq::<HidEvent>::empty(),
    ensures
        forall|i: int| 0 <= i < evts.len() ==> !(evts[i] is Stick),
    decreases evts.len(),
{
    if evts.len() > 0 {
        let e = evts.last();
        match e {
            HidEvent::Stick(s, _) => {
                assert(is_stick_event(e, s));
                assert(sticks_of(evts, s).len() > 0);
            },
            _ => {},
        }
        assert(sticks_of(evts.drop_last(), LR::Left) == Seq::<HidEvent>::empty());
        assert(sticks_of(evts.drop_last(), LR::Right) == Seq::<HidEvent>::empty());
        lemma_no_stick_events(evts.drop_last());
        assert forall|i: int| 0 <= i < evts.len() implies !(evts[i] is Stick) by {
            if i < evts.len() - 1 {
                assert(evts.drop_last()[i] == evts[i]);
            }
        }
    }
}

/// When both stick positions are unchanged and rest at or under the
/// deadzone, the cycle emits no stick event whatsoever.
pub proof fn lemma_idle_sticks_silent(prev: ControllerValues, cur: ControllerValues, st: u16, tt: u16)
    requires
        cur.left_stick == prev.left_stick,
        cur.left_stick.len_sq() <= st * st,
        cur.right_stick == prev.right_stick,
        cur.right_stick.len_sq() <= st * st,
    ensures
        sticks_of(event_stream(prev, cur, st, tt), LR::Left) == Seq::<HidEvent>::empty(),
        sticks_of(event_stream(prev, cur, st, tt), LR::Right) == Seq::<HidEvent>::empty(),
        forall|i: int|
            0 <= i < event_stream(prev, cur, st, tt).len() ==> !(event_stream(prev, cur, st, tt)[i]
                is Stick),
{
    lemma_stick_projection(prev, cur, st, tt, LR::Left);
    lemma_stick_projection(prev, cur, st, tt, LR::Right);
    lemma_no_stick_events(event_stream(prev, cur, st, tt));
}

/// A stick whose magnitude crosses from beyond the deadzone to at or
/// under it emits exactly one `ToOrigin` this cycle, and stays silent
/// on a following cycle where it rests there unchanged.
pub proof fn lemma_stick_to_origin_once(
    prev: ControllerValues,
    cur: ControllerValues,
    next: ControllerValues,
    st: u16,
    tt: u16,
    side: LR,
)
    requires
        stick_of(prev, side).len_sq() > st * st,
        stick_of(cur, side).len_sq() <= st * st,
        stick_of(next, side) == stick_of(cur, side),
    ensures
        sticks_of(event_stream(prev, cur, st, tt), side) == seq![
            HidEvent::Stick(side, StickEvt::ToOrigin),
        ],
        sticks_of(event_stream(cur, next, st, tt), side) == Seq::<HidEvent>::empty(),
{
    lemma_stick_projection(prev, cur, st, tt, side);
    lemma_stick_projection(cur, next, st, tt, side);
    assert(stick_of(cur, side) != stick_of(prev, side));
}

/// A stick that stays beyond the deadzone with an unchanged position
/// emits exactly one `Active` event, and no `Moved`.
pub proof fn lemma_steady_stick_active(
    prev: ControllerValues,
    cur: ControllerValues,
    st: u16,
    tt: u16,
    side: LR,
)
    requires
        stick_of(cur, side).len_sq() > st * st,
        stick_of(cur, side) == stick_of(prev, side),
    ensures
        sticks_of(event_stream(prev, cur, st, tt), side) == seq![
            HidEvent::Stick(side, StickEvt::Active(stick_of(cur, side))),
        ],
{
    lemma_stick_projection(prev, cur, st, tt, side);
}

/// With the stick threshold at zero a zero-magnitude reading is never
/// reported as `Moved` or `Active`: it yields a single `ToOrigin` when
/// the position changed and nothing at all otherwise.
pub proof fn lemma_zero_magnitude_stick(
    prev: ControllerValues,
    cur: ControllerValues,
    tt: u16,
    side: LR,
)
    requires
        stick_of(cur, side).len_sq() == 0,
    ensures
        stick_of(cur, side) != stick_of(prev, side) ==> sticks_of(
            event_stream(prev, cur, 0, tt),
            side,
        ) == seq![HidEvent::Stick(side, StickEvt::ToOrigin)],
        stick_of(cur, side) == stick_of(prev, side) ==> sticks_of(
            event_stream(prev, cur, 0, tt),
            side,
        ) == Seq::<HidEvent>::empty(),
{
    lemma_stick_projection(prev, cur, 0, tt, side);
}

/// With the trigger threshold at zero a zero-magnitude reading is
/// never reported as `Moved` or `Active`: it yields a single
/// `ToOrigin` when the magnitude changed and nothing at all otherwise.
pub proof fn lemma_zero_magnitude_trigger(
    prev: ControllerValues,
    cur: ControllerValues,
    st: u16,
    side: LR,
)
    requires
        trigger_of(cur, side) == 0,
    ensures
        trigger_of(cur, side) != trigger_of(prev, side) ==> triggers_of(
            event_stream(prev, cur, st, 0),
            side,
        ) == seq![HidEvent::Trigger(side, TriggerEvt::ToOrigin)],
        trigger_of(cur, side) == trigger_of(prev, side) ==> triggers_of(
            event_stream(prev, cur, st, 0),
            side,
        ) == Seq::<HidEvent>::empty(),
{
    lemma_trigger_projection(prev, cur, st, 0, side);
}

/// The three button sets of a cycle partition the changed state:
/// pairwise disjoint, and together exactly the union of the previous
/// and current button sets.
pub proof fn lemma_button_partition(prev: Buttons, cur: Buttons)
    ensures
        pressed_set(prev, cur).disjoint(held_set(prev, cur)),
        pressed_set(prev, cur).disjoint(released_set(prev, cur)),
        held_set(prev, cur).disjoint(released_set(prev, cur)),
        pressed_set(prev, cur).union(held_set(prev, cur)).union(released_set(prev, cur))
            == prev.set().union(cur.set()),
{
    assert(pressed_set(prev, cur).union(held_set(prev, cur)).union(released_set(prev, cur))
        =~= prev.set().union(cur.set()));
}

} // verus!
