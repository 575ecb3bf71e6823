//! Engine-wide laws, each proved against the dispatcher's contract alone:
//! they hold of any call of `process_tap_hold`, whose behaviour `step_ok`
//! captures.

use vstd::prelude::*;

use crate::engine::{
    is_tap_hold, resolved_entry, spec_tap_fx, step_ok, th_state_of, wait_start, waiting_over,
    TapHoldEffect, TapHoldMgr, TapHoldOut,
};
use crate::keys::{KeyCode, KeyEvent, KeyValue};
use crate::layers::{KeyState, LayersManager, TapHoldState, TapHoldWaiting};

verus! {

/// An event of a non-tap-hold key finding an empty waiting set passes
/// through: nothing is absorbed, nothing is emitted, no state changes.
pub proof fn lemma_passthrough(
    m0: TapHoldMgr,
    l0: LayersManager,
    ev: KeyEvent,
    m1: TapHoldMgr,
    l1: LayersManager,
    out: TapHoldOut,
)
    requires
        !is_tap_hold(l0.spec_get(ev.code).action),
        m0.waiting().len() == 0,
        step_ok(m0, l0, ev, m1, l1, out),
    ensures
        out.stop_processing == false,
        out.effects@ == Seq::<TapHoldEffect>::empty(),
        m1.waiting().len() == 0,
        forall|c: KeyCode| #[trigger] l1.spec_get(c) == l0.spec_get(c),
{
    assert forall|c: KeyCode| !m0.waiting().contains(c) by {
        if m0.waiting().contains(c) {
            let j = choose|j: int| 0 <= j < m0.waiting().len() && m0.waiting()[j] == c;
        }
    }
}

/// A press of a tap-hold key is always absorbed, emits nothing yet, and
/// registers the key in the waiting set with the press timestamp.
pub proof fn lemma_press_registers(
    m0: TapHoldMgr,
    l0: LayersManager,
    ev: KeyEvent,
    m1: TapHoldMgr,
    l1: LayersManager,
    out: TapHoldOut,
)
    requires
        is_tap_hold(l0.spec_get(ev.code).action),
        th_state_of(l0.spec_get(ev.code)) is ThIdle,
        ev.value == KeyValue::Press,
        step_ok(m0, l0, ev, m1, l1, out),
    ensures
        out.stop_processing == true,
        out.effects@ == Seq::<TapHoldEffect>::empty(),
        m1.waiting() == m0.waiting().push(ev.code),
        th_state_of(l1.spec_get(ev.code)) == TapHoldState::ThWaiting(
            TapHoldWaiting { timestamp: ev.time },
        ),
{
}

/// A repeat of a tap-hold key is dropped in every state: it is absorbed,
/// emits nothing, and changes neither the waiting set nor any record.
pub proof fn lemma_repeat_dropped(
    m0: TapHoldMgr,
    l0: LayersManager,
    ev: KeyEvent,
    m1: TapHoldMgr,
    l1: LayersManager,
    out: TapHoldOut,
)
    requires
        m0.inv(l0),
        is_tap_hold(l0.spec_get(ev.code).action),
        ev.value == KeyValue::Repeat,
        step_ok(m0, l0, ev, m1, l1, out),
    ensures
        out.stop_processing == true,
        out.effects@ == Seq::<TapHoldEffect>::empty(),
        m1.waiting() == m0.waiting(),
        forall|c: KeyCode| #[trigger] l1.spec_get(c) == l0.spec_get(c),
{
    let e0 = l0.spec_get(ev.code);
    assert(e0.state is KsTapHold);
    assert(e0.state == KeyState::KsTapHold(th_state_of(e0)));
    assert(l1.spec_get(ev.code) == e0);
}

/// Pressing an idle tap-hold key and then releasing it, with no other event
/// in between, flushes exactly the tap press and release, and returns both
/// the waiting set and the whole keymap to what they were before the press —
/// so the sequence can be repeated with the same outcome.
pub proof fn lemma_tap_round_trip(
    m0: TapHoldMgr,
    l0: LayersManager,
    ev1: KeyEvent,
    m1: TapHoldMgr,
    l1: LayersManager,
    out1: TapHoldOut,
    ev2: KeyEvent,
    m2: TapHoldMgr,
    l2: LayersManager,
    out2: TapHoldOut,
)
    requires
        m0.inv(l0),
        is_tap_hold(l0.spec_get(ev1.code).action),
        th_state_of(l0.spec_get(ev1.code)) is ThIdle,
        ev1.value == KeyValue::Press,
        ev2.code == ev1.code,
        ev2.value == KeyValue::Release,
        step_ok(m0, l0, ev1, m1, l1, out1),
        step_ok(m1, l1, ev2, m2, l2, out2),
    ensures
        out1.stop_processing == true,
        out1.effects@ == Seq::<TapHoldEffect>::empty(),
        out2.stop_processing == true,
        out2.effects@ == Seq::<TapHoldEffect>::empty().push(
            TapHoldEffect { fx: spec_tap_fx(l0.spec_get(ev1.code).action), val: KeyValue::Press },
        ).push(
            TapHoldEffect { fx: spec_tap_fx(l0.spec_get(ev1.code).action), val: KeyValue::Release },
        ),
        m2.waiting() == m0.waiting(),
        forall|c: KeyCode| #[trigger] l2.spec_get(c) == l0.spec_get(c),
{
    let c = ev1.code;
    let e0 = l0.spec_get(c);
    let e1 = l1.spec_get(c);
    assert(e0.state is KsTapHold);
    assert(e0.state == KeyState::KsTapHold(TapHoldState::ThIdle));
    assert(e1.action == e0.action);
    assert(th_state_of(e1) == TapHoldState::ThWaiting(TapHoldWaiting { timestamp: ev1.time }));
    assert(l2.spec_get(c) == e0);
    assert(!m0.waiting().contains(c));
    assert(m1.waiting() == m0.waiting().push(c));
    lemma_push_remove_value(m0.waiting(), c);
}

/// Any event of a non-tap-hold key resolves the whole waiting set: the set
/// ends empty, and each formerly waiting key reaches its terminal state by
/// its own elapsed time alone — holding when its wait is over, idle (a
/// flushed tap) when it is not.  Keys that were not waiting are untouched.
pub proof fn lemma_rollover_resolution(
    m0: TapHoldMgr,
    l0: LayersManager,
    ev: KeyEvent,
    m1: TapHoldMgr,
    l1: LayersManager,
    out: TapHoldOut,
)
    requires
        !is_tap_hold(l0.spec_get(ev.code).action),
        step_ok(m0, l0, ev, m1, l1, out),
    ensures
        out.stop_processing == false,
        m1.waiting().len() == 0,
        forall|c: KeyCode|
            m0.waiting().contains(c) && waiting_over(
                ev.time,
                wait_start(th_state_of(#[trigger] l0.spec_get(c))),
            ) ==> l1.spec_get(c).state == KeyState::KsTapHold(TapHoldState::ThHolding),
        forall|c: KeyCode|
            m0.waiting().contains(c) && !waiting_over(
                ev.time,
                wait_start(th_state_of(#[trigger] l0.spec_get(c))),
            ) ==> l1.spec_get(c).state == KeyState::KsTapHold(TapHoldState::ThIdle),
        forall|c: KeyCode| !m0.waiting().contains(c) ==> #[trigger] l1.spec_get(c) == l0.spec_get(
            c,
        ),
{
    assert forall|c: KeyCode|
        m0.waiting().contains(c) && waiting_over(
            ev.time,
            wait_start(th_state_of(#[trigger] l0.spec_get(c))),
        ) implies l1.spec_get(c).state == KeyState::KsTapHold(TapHoldState::ThHolding) by {
        assert(l1.spec_get(c) == resolved_entry(l0, m0.waiting(), c, ev.time));
    }
    assert forall|c: KeyCode|
        m0.waiting().contains(c) && !waiting_over(
            ev.time,
            wait_start(th_state_of(#[trigger] l0.spec_get(c))),
        ) implies l1.spec_get(c).state == KeyState::KsTapHold(TapHoldState::ThIdle) by {
        assert(l1.spec_get(c) == resolved_entry(l0, m0.waiting(), c, ev.time));
    }
    assert forall|c: KeyCode| !m0.waiting().contains(c) implies #[trigger] l1.spec_get(c)
        == l0.spec_get(c) by {
        assert(l1.spec_get(c) == resolved_entry(l0, m0.waiting(), c, ev.time));
    }
}

/// Appending a fresh element and then removing it by value gives the
/// original sequence back.
pub proof fn lemma_push_remove_value(w: Seq<KeyCode>, c: KeyCode)
    requires
        !w.contains(c),
    ensures
        w.push(c).remove_value(c) == w,
{
    let p = w.push(c);
    assert(p[w.len() as int] == c);
    assert(p.contains(c));
    p.index_of_first_ensures(c);
    let k = p.index_of_first(c).unwrap();
    assert forall|j: int| 0 <= j < w.len() implies p[j] != c by {
        assert(p[j] == w[j]);
        if w[j] == c {
            assert(w.contains(c));
        }
    }
    assert(k == w.len() as int);
    assert(p.remove(k) =~= w);
}

} // verus!
