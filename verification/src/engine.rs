//! The tap-hold engine: the per-key state machine, the waiting-set resolver,
//! and the dispatcher `process_tap_hold` that the pipeline calls once per
//! incoming event.

use vstd::prelude::*;

use crate::keys::{EventTime, KeyCode, KeyEvent, KeyValue};
use crate::layers::{
    Action, Effect, KeyState, LayersManager, MergedKey, TapHoldState, TapHoldWaiting,
};

verus! {

/// The event was fully absorbed; the caller must not forward it.
pub const STOP: bool = true;

/// The event still needs default handling by the caller.
pub const CONTINUE: bool = false;

/// The wait period distinguishing a tap from a hold, in microseconds,
/// compared only within the same whole second.
pub const TAP_HOLD_WAIT_PERIOD: i64 = 200000;

/// One synthetic output event: an effect together with press/release/repeat.
#[derive(Clone, Copy, PartialEq, Eq, Structural, Debug)]
pub struct TapHoldEffect {
    pub fx: Effect,
    pub val: KeyValue,
}

impl TapHoldEffect {
    pub fn new(fx: Effect, val: KeyValue) -> (r: TapHoldEffect)
        ensures
            r == (TapHoldEffect { fx, val }),
    {
        TapHoldEffect { fx, val }
    }
}

/// The outcome of one `process_tap_hold` call: whether the raw event is
/// absorbed, and the synthetic effects to inject, in order.
#[derive(Clone, PartialEq, Eq, Debug)]
pub struct TapHoldOut {
    pub stop_processing: bool,
    pub effects: Vec<TapHoldEffect>,
}

impl TapHoldOut {
    /// An outcome carrying one effect.
    pub fn new(stop_processing: bool, effect: Effect, value: KeyValue) -> (r: TapHoldOut)
        ensures
            r.stop_processing == stop_processing,
            r.effects@ == Seq::<TapHoldEffect>::empty().push(TapHoldEffect { fx: effect, val: value }),
    {
        let mut effects: Vec<TapHoldEffect> = Vec::new();
        effects.push(TapHoldEffect::new(effect, value));
        TapHoldOut { stop_processing, effects }
    }

    /// An outcome carrying the given effects.
    pub fn new_multiple(stop_processing: bool, effects: Vec<TapHoldEffect>) -> (r: TapHoldOut)
        ensures
            r.stop_processing == stop_processing,
            r.effects@ == effects@,
    {
        TapHoldOut { stop_processing, effects }
    }

    /// An outcome carrying no effect.
    pub fn empty(stop_processing: bool) -> (r: TapHoldOut)
        ensures
            r.stop_processing == stop_processing,
            r.effects@ == Seq::<TapHoldEffect>::empty(),
    {
        TapHoldOut { stop_processing, effects: Vec::new() }
    }

    /// Appends one effect to the outcome.
    pub fn insert(&mut self, effect: Effect, value: KeyValue)
        ensures
            final(self).stop_processing == old(self).stop_processing,
            final(self).effects@ == old(self).effects@.push(TapHoldEffect { fx: effect, val: value }),
    {
        self.effects.push(TapHoldEffect::new(effect, value));
    }
}

/// The tap-hold automaton value of a record; a simple key counts as idle.
pub open spec fn th_state_of(e: MergedKey) -> TapHoldState {
    match e.state {
        KeyState::KsTapHold(s) => s,
        KeyState::KsClick => TapHoldState::ThIdle,
    }
}

/// Whether an action disambiguates between tap and hold.
pub open spec fn is_tap_hold(a: Action) -> bool {
    a is TapHold
}

/// The tap effect of an action (its only effect for a simple action).
pub open spec fn spec_tap_fx(a: Action) -> Effect {
    match a {
        Action::Simple(fx) => fx,
        Action::TapHold(tap_fx, _) => tap_fx,
    }
}

/// The hold effect of an action (its only effect for a simple action).
pub open spec fn spec_hold_fx(a: Action) -> Effect {
    match a {
        Action::Simple(fx) => fx,
        Action::TapHold(_, hold_fx) => hold_fx,
    }
}

/// A record whose key is still waiting for its tap-vs-hold decision.
pub open spec fn is_waiting_entry(e: MergedKey) -> bool {
    e.state matches KeyState::KsTapHold(TapHoldState::ThWaiting(_))
}

/// The press timestamp a waiting automaton value remembers.
pub open spec fn wait_start(st: TapHoldState) -> EventTime {
    match st {
        TapHoldState::ThWaiting(w) => w.timestamp,
        _ => EventTime { tv_sec: 0, tv_usec: 0 },
    }
}

/// The wait is over when a whole second has passed, or more than the wait
/// period within the same whole second.  The microsecond fields are compared
/// only when the second fields are equal.
pub open spec fn waiting_over(now: EventTime, start: EventTime) -> bool {
    ||| now.tv_sec > start.tv_sec
    ||| (now.tv_sec == start.tv_sec && now.tv_usec - start.tv_usec > TAP_HOLD_WAIT_PERIOD)
}

/// The event values a tap-hold key's own automaton may legally see: a press
/// only while idle, a release only while not idle, a repeat always.
pub open spec fn th_legal(st: TapHoldState, v: KeyValue) -> bool {
    match v {
        KeyValue::Press => st is ThIdle,
        KeyValue::Release => !(st is ThIdle),
        KeyValue::Repeat => true,
    }
}

/// The automaton value after a tap-hold key's own event.
pub open spec fn th_next_state(st: TapHoldState, v: KeyValue, t: EventTime) -> TapHoldState {
    match (st, v) {
        (TapHoldState::ThIdle, KeyValue::Press) => TapHoldState::ThWaiting(
            TapHoldWaiting { timestamp: t },
        ),
        (TapHoldState::ThWaiting(_), KeyValue::Release) => TapHoldState::ThIdle,
        (TapHoldState::ThHolding, KeyValue::Release) => TapHoldState::ThIdle,
        _ => st,
    }
}

/// The effects a tap-hold key's own event emits: a release while waiting
/// flushes the tap, a release while holding releases the hold, everything
/// else emits nothing.
pub open spec fn th_effects(tap_fx: Effect, hold_fx: Effect, st: TapHoldState, v: KeyValue) -> Seq<
    TapHoldEffect,
> {
    match (st, v) {
        (TapHoldState::ThWaiting(_), KeyValue::Release) => Seq::<TapHoldEffect>::empty().push(
            TapHoldEffect { fx: tap_fx, val: KeyValue::Press },
        ).push(TapHoldEffect { fx: tap_fx, val: KeyValue::Release }),
        (TapHoldState::ThHolding, KeyValue::Release) => Seq::<TapHoldEffect>::empty().push(
            TapHoldEffect { fx: hold_fx, val: KeyValue::Release },
        ),
        _ => Seq::<TapHoldEffect>::empty(),
    }
}

/// The waiting set after a tap-hold key's own event: a press registers the
/// key, a release while waiting unregisters it, everything else leaves it.
pub open spec fn th_next_waiting(w: Seq<KeyCode>, st: TapHoldState, v: KeyValue, c: KeyCode) -> Seq<
    KeyCode,
> {
    match (st, v) {
        (TapHoldState::ThIdle, KeyValue::Press) => w.push(c),
        (TapHoldState::ThWaiting(_), KeyValue::Release) => w.remove_value(c),
        _ => w,
    }
}

/// The effects resolving one waiting key emits: the hold press when its wait
/// is over, else the flushed tap press and release.
pub open spec fn resolve_one(lm: LayersManager, c: KeyCode, now: EventTime) -> Seq<TapHoldEffect> {
    let e = lm.spec_get(c);
    if waiting_over(now, wait_start(th_state_of(e))) {
        Seq::<TapHoldEffect>::empty().push(
            TapHoldEffect { fx: spec_hold_fx(e.action), val: KeyValue::Press },
        )
    } else {
        Seq::<TapHoldEffect>::empty().push(
            TapHoldEffect { fx: spec_tap_fx(e.action), val: KeyValue::Press },
        ).push(TapHoldEffect { fx: spec_tap_fx(e.action), val: KeyValue::Release })
    }
}

/// The effects resolving the whole waiting set emits, in waiting-set order.
pub open spec fn resolve_effects(lm: LayersManager, w: Seq<KeyCode>, now: EventTime) -> Seq<
    TapHoldEffect,
>
    decreases w.len(),
{
    if w.len() == 0 {
        Seq::empty()
    } else {
        resolve_effects(lm, w.drop_last(), now) + resolve_one(lm, w.last(), now)
    }
}

/// The terminal automaton value a resolved waiting key reaches.
pub open spec fn resolved_state(lm: LayersManager, c: KeyCode, now: EventTime) -> TapHoldState {
    if waiting_over(now, wait_start(th_state_of(lm.spec_get(c)))) {
        TapHoldState::ThHolding
    } else {
        TapHoldState::ThIdle
    }
}

/// The record a key holds after the waiting set `w` was resolved at `now`:
/// formerly waiting keys reach their terminal state, all others are untouched.
pub open spec fn resolved_entry(lm: LayersManager, w: Seq<KeyCode>, c: KeyCode, now: EventTime) -> MergedKey {
    if w.contains(c) {
        MergedKey { state: KeyState::KsTapHold(resolved_state(lm, c, now)), ..lm.spec_get(c) }
    } else {
        lm.spec_get(c)
    }
}

/// An event the calling layer may legally dispatch: for a tap-hold key, one
/// its automaton accepts; any event of a non-tap-hold key.
pub open spec fn event_legal(lm: LayersManager, ev: KeyEvent) -> bool {
    is_tap_hold(lm.spec_get(ev.code).action) ==> th_legal(
        th_state_of(lm.spec_get(ev.code)),
        ev.value,
    )
}

/// The contract-violating combinations of automaton value and event value,
/// each with its own name.
#[derive(Clone, Copy, PartialEq, Eq, Structural, Debug)]
pub enum TapHoldError {
    ReleaseWhileIdle,
    PressWhileWaiting,
    PressWhileHolding,
}

/// The violation a tap-hold key's own event commits, if any.
pub open spec fn violation_of(st: TapHoldState, v: KeyValue) -> Option<TapHoldError> {
    match (st, v) {
        (TapHoldState::ThIdle, KeyValue::Release) => Some(TapHoldError::ReleaseWhileIdle),
        (TapHoldState::ThWaiting(_), KeyValue::Press) => Some(TapHoldError::PressWhileWaiting),
        (TapHoldState::ThHolding, KeyValue::Press) => Some(TapHoldError::PressWhileHolding),
        _ => None,
    }
}

/// The full behaviour of one legal `process_tap_hold` call: `m0`/`l0` are
/// engine and keymap before, `m1`/`l1` after, `out` the outcome.
///
/// An event of a tap-hold key drives that key's own automaton and is always
/// absorbed.  Any other event makes every waiting key resolve against the
/// event's timestamp and is passed on for default handling.
pub open spec fn step_ok(
    m0: TapHoldMgr,
    l0: LayersManager,
    ev: KeyEvent,
    m1: TapHoldMgr,
    l1: LayersManager,
    out: TapHoldOut,
) -> bool {
    let e = l0.spec_get(ev.code);
    if is_tap_hold(e.action) {
        &&& out.stop_processing == true
        &&& out.effects@ == th_effects(
            spec_tap_fx(e.action),
            spec_hold_fx(e.action),
            th_state_of(e),
            ev.value,
        )
        &&& m1.waiting() == th_next_waiting(m0.waiting(), th_state_of(e), ev.value, ev.code)
        &&& l1.spec_get(ev.code) == (MergedKey {
            state: KeyState::KsTapHold(th_next_state(th_state_of(e), ev.value, ev.time)),
            ..e
        })
        &&& forall|c: KeyCode| c != ev.code ==> #[trigger] l1.spec_get(c) == l0.spec_get(c)
    } else {
        &&& out.stop_processing == false
        &&& out.effects@ == resolve_effects(l0, m0.waiting(), ev.time)
        &&& m1.waiting() == Seq::<KeyCode>::empty()
        &&& forall|c: KeyCode| #[trigger] l1.spec_get(c) == resolved_entry(
            l0,
            m0.waiting(),
            c,
            ev.time,
        )
    }
}

/// The engine instance: the set of keys whose tap-vs-hold decision is still
/// pending, in the order they were pressed.
pub struct TapHoldMgr {
    waiting_keys: Vec<KeyCode>,
}

impl TapHoldMgr {
    /// The waiting set, as the ordered sequence of its key codes.
    pub closed spec fn waiting(self) -> Seq<KeyCode> {
        self.waiting_keys@
    }

    /// The engine invariant tying the waiting set to the keymap: a key is in
    /// the waiting set exactly when its record is in the waiting state, and
    /// no key is in it twice.
    pub open spec fn inv(self, lm: LayersManager) -> bool {
        &&& lm.wf()
        &&& self.waiting().no_duplicates()
        &&& forall|c: KeyCode| self.waiting().contains(c) <==> is_waiting_entry(
            #[trigger] lm.spec_get(c),
        )
    }

    /// A fresh engine: nothing is waiting.
    pub fn new() -> (r: TapHoldMgr)
        ensures
            r.waiting() == Seq::<KeyCode>::empty(),
    {
        let r = TapHoldMgr { waiting_keys: Vec::new() };
        proof {
            assert(r.waiting() =~= Seq::<KeyCode>::empty());
        }
        r
    }

    /// Drops the first occurrence of `c` from the waiting set.
    fn remove_waiting(&mut self, c: KeyCode)
        requires
            old(self).waiting().contains(c),
        ensures
            final(self).waiting() == old(self).waiting().remove_value(c),
    {
        let ghost w = self.waiting_keys@;
        let mut i: usize = 0;
        while i < self.waiting_keys.len()
            invariant
                self.waiting_keys@ == w,
                w == old(self).waiting(),
                w.contains(c),
                i <= w.len(),
                forall|j: int| 0 <= j < i ==> w[j] != c,
            decreases w.len() - i,
        {
            if self.waiting_keys[i].0 == c.0 {
                self.waiting_keys.remove(i);
                proof {
                    w.index_of_first_ensures(c);
                    let k = w.index_of_first(c).unwrap();
                    assert(w[i as int] == c);
                    assert(k == i as int);
                    assert(self.waiting_keys@ == w.remove_value(c));
                }
                return ;
            }
            i = i + 1;
        }
        proof {
            let j = choose|j: int| 0 <= j < w.len() && w[j] == c;
            assert(false);
        }
    }

    /// Handles an event of a tap-hold key whose automaton is holding: its
    /// release emits the hold release; repeats are dropped.
    fn handle_th_holding(
        &self,
        event: &KeyEvent,
        state: TapHoldState,
        tap_fx: Effect,
        hold_fx: Effect,
    ) -> (r: (TapHoldOut, TapHoldState))
        requires
            state is ThHolding,
            th_legal(state, event.value),
        ensures
            r.0.stop_processing == true,
            r.0.effects@ == th_effects(tap_fx, hold_fx, state, event.value),
            r.1 == th_next_state(state, event.value, event.time),
    {
        match event.value {
            KeyValue::Press => {
                proof {
                    assert(false);
                }
                (TapHoldOut::empty(STOP), state)
            },
            KeyValue::Release => {
                // Forward the release of the hold effect
                (TapHoldOut::new(STOP, hold_fx, KeyValue::Release), TapHoldState::ThIdle)
            },
            KeyValue::Repeat => {
                // Drop repeats. These aren't supported for tap-holds
                (TapHoldOut::empty(STOP), state)
            },
        }
    }

    /// Handles an event of a tap-hold key whose automaton is waiting: its
    /// release means the key was never promoted, so the tap effect is flushed
    /// as a press and release; repeats are dropped.
    fn handle_th_waiting(
        &mut self,
        event: &KeyEvent,
        state: TapHoldState,
        tap_fx: Effect,
        hold_fx: Effect,
    ) -> (r: (TapHoldOut, TapHoldState))
        requires
            state is ThWaiting,
            th_legal(state, event.value),
            event.value is Release ==> old(self).waiting().contains(event.code),
        ensures
            r.0.stop_processing == true,
            r.0.effects@ == th_effects(tap_fx, hold_fx, state, event.value),
            r.1 == th_next_state(state, event.value, event.time),
            final(self).waiting() == th_next_waiting(
                old(self).waiting(),
                state,
                event.value,
                event.code,
            ),
    {
        match event.value {
            KeyValue::Press => {
                proof {
                    assert(false);
                }
                (TapHoldOut::empty(STOP), state)
            },
            KeyValue::Release => {
                // The key was not promoted: flush the tap press and release
                self.remove_waiting(event.code);
                let mut out = TapHoldOut::new(STOP, tap_fx, KeyValue::Press);
                out.insert(tap_fx, KeyValue::Release);
                (out, TapHoldState::ThIdle)
            },
            KeyValue::Repeat => {
                // Drop repeats. These aren't supported for tap-holds
                (TapHoldOut::empty(STOP), state)
            },
        }
    }

    /// Handles an event of a tap-hold key whose automaton is idle: its press
    /// registers the key in the waiting set and emits nothing yet; repeats
    /// are dropped.
    fn handle_th_idle(
        &mut self,
        event: &KeyEvent,
        state: TapHoldState,
        tap_fx: Effect,
        hold_fx: Effect,
    ) -> (r: (TapHoldOut, TapHoldState))
        requires
            state is ThIdle,
            th_legal(state, event.value),
        ensures
            r.0.stop_processing == true,
            r.0.effects@ == th_effects(tap_fx, hold_fx, state, event.value),
            r.1 == th_next_state(state, event.value, event.time),
            final(self).waiting() == th_next_waiting(
                old(self).waiting(),
                state,
                event.value,
                event.code,
            ),
    {
        match event.value {
            KeyValue::Press => {
                // Wait for either an interruption (flush the tap effect) or
                // for the wait period to pass (promote to the hold effect)
                self.waiting_keys.push(event.code);
                (
                    TapHoldOut::empty(STOP),
                    TapHoldState::ThWaiting(TapHoldWaiting { timestamp: event.time }),
                )
            },
            KeyValue::Release => {
                proof {
                    assert(false);
                }
                (TapHoldOut::empty(STOP), state)
            },
            KeyValue::Repeat => {
                // Drop repeats. These aren't supported for tap-holds
                (TapHoldOut::empty(STOP), state)
            },
        }
    }

    /// Advances the automaton of a key whose configured action is tap-hold
    /// and writes the new state back to the keymap.
    fn process_tap_hold_key(
        &mut self,
        l_mgr: &mut LayersManager,
        event: &KeyEvent,
        tap_fx: Effect,
        hold_fx: Effect,
    ) -> (out: TapHoldOut)
        requires
            old(self).inv(*old(l_mgr)),
            old(l_mgr).spec_get(event.code).action == Action::TapHold(tap_fx, hold_fx),
            th_legal(th_state_of(old(l_mgr).spec_get(event.code)), event.value),
        ensures
            final(self).inv(*final(l_mgr)),
            step_ok(*old(self), *old(l_mgr), *event, *final(self), *final(l_mgr), out),
    {
        let ghost m0 = *self;
        let ghost l0 = *l_mgr;
        let ghost e0 = l0.spec_get(event.code);
        let entry = l_mgr.get(event.code);
        let st = match entry.state {
            KeyState::KsTapHold(s) => s,
            KeyState::KsClick => {
                proof {
                    assert(false);
                }
                TapHoldState::ThIdle
            },
        };
        let (out, new_state) = match st {
            TapHoldState::ThIdle => self.handle_th_idle(event, st, tap_fx, hold_fx),
            TapHoldState::ThWaiting(_) => self.handle_th_waiting(event, st, tap_fx, hold_fx),
            TapHoldState::ThHolding => self.handle_th_holding(event, st, tap_fx, hold_fx),
        };
        proof {
            assert(l_mgr.configured(event.code));
        }
        l_mgr.set_state(event.code, KeyState::KsTapHold(new_state));
        proof {
            let w0 = m0.waiting();
            let w1 = self.waiting();
            assert(l_mgr.spec_get(event.code) == (MergedKey {
                state: KeyState::KsTapHold(th_next_state(th_state_of(e0), event.value, event.time)),
                ..e0
            }));
            match (st, event.value) {
                (TapHoldState::ThIdle, KeyValue::Press) => {
                    assert(!w0.contains(event.code));
                    lemma_push_no_dup(w0, event.code);
                    assert forall|c: KeyCode| w1.contains(c) <==> is_waiting_entry(
                        #[trigger] l_mgr.spec_get(c),
                    ) by {
                        lemma_push_membership(w0, event.code, c);
                    }
                },
                (TapHoldState::ThWaiting(_), KeyValue::Release) => {
                    assert(w0.contains(event.code));
                    lemma_remove_value_props(w0, event.code);
                    assert forall|c: KeyCode| w1.contains(c) <==> is_waiting_entry(
                        #[trigger] l_mgr.spec_get(c),
                    ) by {}
                },
                _ => {
                    assert(w1 == w0);
                },
            }
        }
        out
    }

    /// Whether the wait of a waiting key is over, judged against the
    /// timestamp of the incoming event.
    fn is_waiting_over(&self, merged_key: &MergedKey, event: &KeyEvent) -> (r: bool)
        requires
            is_waiting_entry(*merged_key),
        ensures
            r == waiting_over(event.time, wait_start(th_state_of(*merged_key))),
    {
        let new_timestamp = event.time;
        let wait_start_timestamp = match merged_key.state {
            KeyState::KsTapHold(TapHoldState::ThWaiting(w)) => w.timestamp,
            _ => {
                proof {
                    assert(false);
                }
                EventTime { tv_sec: 0, tv_usec: 0 }
            },
        };
        let secs_diff: i128 = (new_timestamp.tv_sec as i128) - (wait_start_timestamp.tv_sec
            as i128);
        let usecs_diff: i128 = (new_timestamp.tv_usec as i128) - (wait_start_timestamp.tv_usec
            as i128);
        if secs_diff > 0 {
            true
        } else if secs_diff == 0 && usecs_diff > (TAP_HOLD_WAIT_PERIOD as i128) {
            true
        } else {
            false
        }
    }

    /// Resolves every waiting key against the incoming event's timestamp:
    /// promotes it to holding when its wait is over, else flushes it as a
    /// tap; the triggering event itself is passed on for default handling.
    fn process_non_tap_hold_key(&mut self, l_mgr: &mut LayersManager, event: &KeyEvent) -> (out:
        TapHoldOut)
        requires
            old(self).inv(*old(l_mgr)),
            !is_tap_hold(old(l_mgr).spec_get(event.code).action),
        ensures
            final(self).inv(*final(l_mgr)),
            step_ok(*old(self), *old(l_mgr), *event, *final(self), *final(l_mgr), out),
    {
        let ghost l0 = *l_mgr;
        let ghost w = self.waiting_keys@;
        let mut out = TapHoldOut::empty(CONTINUE);
        let mut i: usize = 0;
        proof {
            assert(w.take(0) =~= Seq::<KeyCode>::empty());
        }
        while i < self.waiting_keys.len()
            invariant
                self.waiting_keys@ == w,
                i <= w.len(),
                w.no_duplicates(),
                l0.wf(),
                forall|c: KeyCode| w.contains(c) <==> is_waiting_entry(#[trigger] l0.spec_get(c)),
                out.stop_processing == false,
                out.effects@ == resolve_effects(l0, w.take(i as int), event.time),
                forall|c: KeyCode| #[trigger] l_mgr.spec_get(c) == resolved_entry(
                    l0,
                    w.take(i as int),
                    c,
                    event.time,
                ),
                l_mgr.wf(),
            decreases w.len() - i,
        {
            let waiting = self.waiting_keys[i];
            proof {
                assert(waiting == w[i as int]);
                assert(!w.take(i as int).contains(waiting)) by {
                    if w.take(i as int).contains(waiting) {
                        let j = choose|j: int|
                            0 <= j < i && w.take(i as int)[j] == waiting;
                        assert(w[j] == w[i as int]);
                    }
                }
                assert(l_mgr.spec_get(waiting) == l0.spec_get(waiting));
                assert(w.contains(waiting)) by {
                    assert(w[i as int] == waiting);
                }
                assert(is_waiting_entry(l0.spec_get(waiting)));
            }
            let merged_key = l_mgr.get(waiting);
            let over = self.is_waiting_over(&merged_key, event);
            proof {
                // A waiting record cannot be the pass-through default, so the
                // key is configured, and its action must be tap-hold.
                assert(l_mgr.configured(waiting));
                assert(is_tap_hold(merged_key.action));
            }
            match merged_key.action {
                Action::TapHold(tap_fx, hold_fx) => {
                    if over {
                        // Append the hold press and promote to holding
                        out.insert(hold_fx, KeyValue::Press);
                        l_mgr.set_state(
                            waiting,
                            KeyState::KsTapHold(TapHoldState::ThHolding),
                        );
                    } else {
                        // Flush the tap press and release, back to idle
                        out.insert(tap_fx, KeyValue::Press);
                        out.insert(tap_fx, KeyValue::Release);
                        l_mgr.set_state(waiting, KeyState::KsTapHold(TapHoldState::ThIdle));
                    }
                },
                Action::Simple(_) => {
                    proof {
                        assert(false);
                    }
                },
            }
            proof {
                assert(w.take(i + 1).drop_last() =~= w.take(i as int));
                assert(w.take(i + 1).last() == w[i as int]);
                assert(out.effects@ == resolve_effects(l0, w.take(i + 1), event.time));
                assert forall|c: KeyCode| #[trigger] l_mgr.spec_get(c) == resolved_entry(
                    l0,
                    w.take(i + 1),
                    c,
                    event.time,
                ) by {
                    lemma_push_membership(w.take(i as int), waiting, c);
                    assert(w.take(i + 1) =~= w.take(i as int).push(waiting));
                }
            }
            i = i + 1;
        }
        proof {
            assert(w.take(w.len() as int) =~= w);
        }
        self.waiting_keys = Vec::new();
        proof {
            assert(self.waiting() =~= Seq::<KeyCode>::empty());
        }
        out
    }

    /// The dispatcher: routes an event of a tap-hold key to that key's own
    /// automaton (the event is absorbed), and any other event to the
    /// waiting-set resolver (the event is passed on).
    pub fn process_tap_hold(&mut self, l_mgr: &mut LayersManager, event: &KeyEvent) -> (out:
        TapHoldOut)
        requires
            old(self).inv(*old(l_mgr)),
            event_legal(*old(l_mgr), *event),
        ensures
            final(self).inv(*final(l_mgr)),
            step_ok(*old(self), *old(l_mgr), *event, *final(self), *final(l_mgr), out),
    {
        let merged_key = l_mgr.get(event.code);
        match merged_key.action {
            Action::TapHold(tap_fx, hold_fx) => self.process_tap_hold_key(
                l_mgr,
                event,
                tap_fx,
                hold_fx,
            ),
            Action::Simple(_) => self.process_non_tap_hold_key(l_mgr, event),
        }
    }

    /// The checked dispatcher: a contract-violating event of a tap-hold key
    /// (a press while not idle, a release while idle) is rejected with its
    /// violation and changes nothing; every legal event is processed.
    pub fn try_process_tap_hold(&mut self, l_mgr: &mut LayersManager, event: &KeyEvent) -> (r:
        Result<TapHoldOut, TapHoldError>)
        requires
            old(self).inv(*old(l_mgr)),
        ensures
            final(self).inv(*final(l_mgr)),
            event_legal(*old(l_mgr), *event) ==> (r matches Ok(out) && step_ok(
                *old(self),
                *old(l_mgr),
                *event,
                *final(self),
                *final(l_mgr),
                out,
            )),
            !event_legal(*old(l_mgr), *event) ==> (r matches Err(e) && Some(e) == violation_of(
                th_state_of(old(l_mgr).spec_get(event.code)),
                event.value,
            ) && *final(self) == *old(self) && *final(l_mgr) == *old(l_mgr)),
    {
        let entry = l_mgr.get(event.code);
        let viol: Option<TapHoldError> = match entry.action {
            Action::Simple(_) => None,
            Action::TapHold(_, _) => match (entry.state, event.value) {
                (KeyState::KsTapHold(TapHoldState::ThIdle), KeyValue::Release) => Some(
                    TapHoldError::ReleaseWhileIdle,
                ),
                (KeyState::KsTapHold(TapHoldState::ThWaiting(_)), KeyValue::Press) => Some(
                    TapHoldError::PressWhileWaiting,
                ),
                (KeyState::KsTapHold(TapHoldState::ThHolding), KeyValue::Press) => Some(
                    TapHoldError::PressWhileHolding,
                ),
                _ => None,
            },
        };
        match viol {
            Some(e) => Err(e),
            None => Ok(self.process_tap_hold(l_mgr, event)),
        }
    }
}

/// A fresh engine paired with a keymap in which no key waits satisfies the
/// engine invariant.
pub proof fn lemma_initial_inv(m: TapHoldMgr, lm: LayersManager)
    requires
        m.waiting().len() == 0,
        lm.wf(),
        forall|c: KeyCode| !is_waiting_entry(#[trigger] lm.spec_get(c)),
    ensures
        m.inv(lm),
{
    assert forall|c: KeyCode| !m.waiting().contains(c) by {
        if m.waiting().contains(c) {
            let j = choose|j: int| 0 <= j < m.waiting().len() && m.waiting()[j] == c;
        }
    }
}

/// Membership in a sequence extended by one element.
pub proof fn lemma_push_membership(w: Seq<KeyCode>, c: KeyCode, x: KeyCode)
    ensures
        w.push(c).contains(x) == (w.contains(x) || x == c),
{
    if w.contains(x) {
        let i = choose|i: int| 0 <= i < w.len() && w[i] == x;
        assert(w.push(c)[i] == x);
    }
    if x == c {
        assert(w.push(c)[w.len() as int] == x);
    }
    if w.push(c).contains(x) && x != c {
        let i = choose|i: int| 0 <= i < w.push(c).len() && w.push(c)[i] == x;
        if i < w.len() {
            assert(w[i] == x);
        }
    }
}

/// Extending a duplicate-free sequence by a fresh element keeps it
/// duplicate-free.
pub proof fn lemma_push_no_dup(w: Seq<KeyCode>, c: KeyCode)
    requires
        w.no_duplicates(),
        !w.contains(c),
    ensures
        w.push(c).no_duplicates(),
{
    assert forall|i: int, j: int|
        0 <= i < j < w.push(c).len() implies w.push(c)[i] != w.push(c)[j] by {
        if j == w.len() {
            assert(w.push(c)[i] == w[i]);
            assert(w.contains(w[i]));
        } else {
            assert(w.push(c)[i] == w[i]);
            assert(w.push(c)[j] == w[j]);
        }
    }
}

/// Removing the only occurrence of an element from a duplicate-free sequence:
/// what stays duplicate-free, loses that element, and keeps every other.
pub proof fn lemma_remove_value_props(w: Seq<KeyCode>, c: KeyCode)
    requires
        w.no_duplicates(),
        w.contains(c),
    ensures
        w.remove_value(c).no_duplicates(),
        forall|x: KeyCode| #[trigger] w.remove_value(c).contains(x) == (w.contains(x) && x != c),
{
    w.index_of_first_ensures(c);
    let k = w.index_of_first(c).unwrap();
    let r = w.remove(k);
    assert(w.remove_value(c) == r);
    assert forall|idx: int| 0 <= idx < r.len() implies r[idx] == (if idx < k {
        w[idx]
    } else {
        w[idx + 1]
    }) by {}
    assert forall|i: int, j: int| 0 <= i < j < r.len() implies r[i] != r[j] by {}
    assert forall|x: KeyCode| #[trigger] r.contains(x) == (w.contains(x) && x != c) by {
        if r.contains(x) {
            let i = choose|i: int| 0 <= i < r.len() && r[i] == x;
            if i < k {
                assert(w[i] == x);
                assert(x != c) by {
                    if x == c {
                        assert(w[i] == w[k]);
                    }
                }
            } else {
                assert(w[i + 1] == x);
                assert(x != c) by {
                    if x == c {
                        assert(w[i + 1] == w[k]);
                    }
                }
            }
        }
        if w.contains(x) && x != c {
            let i = choose|i: int| 0 <= i < w.len() && w[i] == x;
            if i < k {
                assert(r[i] == x);
            } else {
                assert(i != k);
                assert(r[i - 1] == x);
            }
        }
    }
}

} // verus!
