use tap_hold::engine::{TapHoldEffect, TapHoldError, TapHoldMgr, TapHoldOut, CONTINUE, STOP};
use tap_hold::keys::{EventTime, KeyCode, KeyEvent, KeyValue};
use tap_hold::layers::{Action, Effect, Layers, LayersManager};

const KEY_A: u64 = 30;
const KEY_S: u64 = 31;
const KEY_C: u64 = 46;
const KEY_LEFTCTRL: u64 = 29;
const KEY_LEFTALT: u64 = 56;

fn make_taphold_action(tap: u64, hold: u64) -> Action {
    let tap_fx = Effect(KeyCode(tap));
    let hold_fx = Effect(KeyCode(hold));
    Action::TapHold(tap_fx, hold_fx)
}

fn make_taphold_layer_entry(src: u64, tap: u64, hold: u64) -> (KeyCode, Action) {
    let src_code = KeyCode(src);
    let action = make_taphold_action(tap, hold);
    (src_code, action)
}

fn base_layers() -> Layers {
    vec![vec![
        make_taphold_layer_entry(KEY_A, KEY_A, KEY_LEFTCTRL),
        make_taphold_layer_entry(KEY_S, KEY_S, KEY_LEFTALT),
    ]]
}

fn event_at(code: u64, value: KeyValue, tv_sec: i64, tv_usec: i64) -> KeyEvent {
    KeyEvent::new_at(KeyCode(code), value, EventTime { tv_sec, tv_usec })
}

#[test]
fn test_skipped() {
    let mut th_mgr = TapHoldMgr::new();
    let mut l_mgr = LayersManager::new(vec![]);
    let ev_non_th_press = KeyEvent::new_press(KeyCode(KEY_A));
    let ev_non_th_release = KeyEvent::new_release(KeyCode(KEY_A));
    assert_eq!(
        th_mgr.process_tap_hold(&mut l_mgr, &ev_non_th_press),
        TapHoldOut::empty(CONTINUE)
    );
    assert_eq!(
        th_mgr.process_tap_hold(&mut l_mgr, &ev_non_th_release),
        TapHoldOut::empty(CONTINUE)
    );
}

#[test]
fn test_tap() {
    let layers: Layers = base_layers();
    let mut l_mgr = LayersManager::new(layers);
    let mut th_mgr = TapHoldMgr::new();

    l_mgr.init();

    let ev_th_press = KeyEvent::new_press(KeyCode(KEY_A));
    let mut ev_th_release = KeyEvent::new_release(KeyCode(KEY_A));
    ev_th_release.time.tv_usec += 100;

    assert_eq!(
        th_mgr.process_tap_hold(&mut l_mgr, &ev_th_press),
        TapHoldOut::empty(STOP)
    );
    assert_eq!(
        th_mgr.process_tap_hold(&mut l_mgr, &ev_th_release),
        TapHoldOut::new_multiple(
            STOP,
            vec![
                TapHoldEffect::new(Effect(KeyCode(KEY_A)), KeyValue::Press),
                TapHoldEffect::new(Effect(KeyCode(KEY_A)), KeyValue::Release),
            ]
        )
    );

    assert_eq!(
        th_mgr.process_tap_hold(&mut l_mgr, &ev_th_press),
        TapHoldOut::empty(STOP)
    );
    assert_eq!(
        th_mgr.process_tap_hold(&mut l_mgr, &ev_th_release),
        TapHoldOut::new_multiple(
            STOP,
            vec![
                TapHoldEffect::new(Effect(KeyCode(KEY_A)), KeyValue::Press),
                TapHoldEffect::new(Effect(KeyCode(KEY_A)), KeyValue::Release),
            ]
        )
    );
}

#[test]
fn test_hold_by_interruption() {
    let mut l_mgr = LayersManager::new(base_layers());
    let mut th_mgr = TapHoldMgr::new();

    let press_a = event_at(KEY_A, KeyValue::Press, 0, 0);
    assert_eq!(
        th_mgr.process_tap_hold(&mut l_mgr, &press_a),
        TapHoldOut::empty(STOP)
    );

    // A whole second later: a foreign event promotes the waiting key.
    let press_b = event_at(KEY_C, KeyValue::Press, 1, 0);
    assert_eq!(
        th_mgr.process_tap_hold(&mut l_mgr, &press_b),
        TapHoldOut::new_multiple(
            CONTINUE,
            vec![TapHoldEffect::new(
                Effect(KeyCode(KEY_LEFTCTRL)),
                KeyValue::Press
            )]
        )
    );

    // Releasing the held key later releases the hold effect.
    let release_a = event_at(KEY_A, KeyValue::Release, 5, 0);
    assert_eq!(
        th_mgr.process_tap_hold(&mut l_mgr, &release_a),
        TapHoldOut::new_multiple(
            STOP,
            vec![TapHoldEffect::new(
                Effect(KeyCode(KEY_LEFTCTRL)),
                KeyValue::Release
            )]
        )
    );
}

#[test]
fn test_seconds_diff_promotes_even_with_fewer_microseconds() {
    let mut l_mgr = LayersManager::new(base_layers());
    let mut th_mgr = TapHoldMgr::new();

    // Real elapsed time is only 1 microsecond, but the whole-second field
    // advanced, and that alone decides.
    let press_a = event_at(KEY_A, KeyValue::Press, 0, 999999);
    th_mgr.process_tap_hold(&mut l_mgr, &press_a);
    let press_b = event_at(KEY_C, KeyValue::Press, 1, 0);
    assert_eq!(
        th_mgr.process_tap_hold(&mut l_mgr, &press_b),
        TapHoldOut::new_multiple(
            CONTINUE,
            vec![TapHoldEffect::new(
                Effect(KeyCode(KEY_LEFTCTRL)),
                KeyValue::Press
            )]
        )
    );
}

#[test]
fn test_sub_threshold_no_promotion() {
    let mut l_mgr = LayersManager::new(base_layers());
    let mut th_mgr = TapHoldMgr::new();

    let press_a = event_at(KEY_A, KeyValue::Press, 0, 0);
    th_mgr.process_tap_hold(&mut l_mgr, &press_a);

    // 150000 µs within the same second: under the wait period, so the
    // waiting key is flushed as a tap.
    let press_b = event_at(KEY_C, KeyValue::Press, 0, 150000);
    assert_eq!(
        th_mgr.process_tap_hold(&mut l_mgr, &press_b),
        TapHoldOut::new_multiple(
            CONTINUE,
            vec![
                TapHoldEffect::new(Effect(KeyCode(KEY_A)), KeyValue::Press),
                TapHoldEffect::new(Effect(KeyCode(KEY_A)), KeyValue::Release),
            ]
        )
    );
}

#[test]
fn test_exact_period_is_not_over() {
    let mut l_mgr = LayersManager::new(base_layers());
    let mut th_mgr = TapHoldMgr::new();

    let press_a = event_at(KEY_A, KeyValue::Press, 0, 0);
    th_mgr.process_tap_hold(&mut l_mgr, &press_a);

    // Exactly the wait period is not yet over: still a tap.
    let press_b = event_at(KEY_C, KeyValue::Press, 0, 200000);
    assert_eq!(
        th_mgr.process_tap_hold(&mut l_mgr, &press_b),
        TapHoldOut::new_multiple(
            CONTINUE,
            vec![
                TapHoldEffect::new(Effect(KeyCode(KEY_A)), KeyValue::Press),
                TapHoldEffect::new(Effect(KeyCode(KEY_A)), KeyValue::Release),
            ]
        )
    );
}

#[test]
fn test_one_past_period_promotes() {
    let mut l_mgr = LayersManager::new(base_layers());
    let mut th_mgr = TapHoldMgr::new();

    let press_a = event_at(KEY_A, KeyValue::Press, 0, 0);
    th_mgr.process_tap_hold(&mut l_mgr, &press_a);

    let press_b = event_at(KEY_C, KeyValue::Press, 0, 200001);
    assert_eq!(
        th_mgr.process_tap_hold(&mut l_mgr, &press_b),
        TapHoldOut::new_multiple(
            CONTINUE,
            vec![TapHoldEffect::new(
                Effect(KeyCode(KEY_LEFTCTRL)),
                KeyValue::Press
            )]
        )
    );
}

#[test]
fn test_earlier_second_never_promotes() {
    let mut l_mgr = LayersManager::new(base_layers());
    let mut th_mgr = TapHoldMgr::new();

    let press_a = event_at(KEY_A, KeyValue::Press, 0, 0);
    th_mgr.process_tap_hold(&mut l_mgr, &press_a);

    // The second field went backwards: the microsecond fields are not even
    // compared, so the waiting key is flushed as a tap.
    let press_b = event_at(KEY_C, KeyValue::Press, -1, 500000);
    assert_eq!(
        th_mgr.process_tap_hold(&mut l_mgr, &press_b),
        TapHoldOut::new_multiple(
            CONTINUE,
            vec![
                TapHoldEffect::new(Effect(KeyCode(KEY_A)), KeyValue::Press),
                TapHoldEffect::new(Effect(KeyCode(KEY_A)), KeyValue::Release),
            ]
        )
    );
}

#[test]
fn test_rollover() {
    let mut l_mgr = LayersManager::new(base_layers());
    let mut th_mgr = TapHoldMgr::new();

    // Two tap-hold keys pressed before either is released.
    let press_a = event_at(KEY_A, KeyValue::Press, 0, 0);
    let press_s = event_at(KEY_S, KeyValue::Press, 0, 100000);
    assert_eq!(
        th_mgr.process_tap_hold(&mut l_mgr, &press_a),
        TapHoldOut::empty(STOP)
    );
    assert_eq!(
        th_mgr.process_tap_hold(&mut l_mgr, &press_s),
        TapHoldOut::empty(STOP)
    );

    // A third key's event resolves each by its own elapsed time: the first
    // key is past its wait period (250000 µs), the second is not (150000 µs).
    let press_c = event_at(KEY_C, KeyValue::Press, 0, 250000);
    assert_eq!(
        th_mgr.process_tap_hold(&mut l_mgr, &press_c),
        TapHoldOut::new_multiple(
            CONTINUE,
            vec![
                TapHoldEffect::new(Effect(KeyCode(KEY_LEFTCTRL)), KeyValue::Press),
                TapHoldEffect::new(Effect(KeyCode(KEY_S)), KeyValue::Press),
                TapHoldEffect::new(Effect(KeyCode(KEY_S)), KeyValue::Release),
            ]
        )
    );

    // The waiting set is empty again: the next foreign event passes through.
    let press_c2 = event_at(KEY_C, KeyValue::Press, 0, 300000);
    assert_eq!(
        th_mgr.process_tap_hold(&mut l_mgr, &press_c2),
        TapHoldOut::empty(CONTINUE)
    );

    // Both keys ended in a terminal state: the promoted key releases its
    // hold effect, the flushed key can start a fresh tap.
    let release_a = event_at(KEY_A, KeyValue::Release, 1, 0);
    assert_eq!(
        th_mgr.process_tap_hold(&mut l_mgr, &release_a),
        TapHoldOut::new_multiple(
            STOP,
            vec![TapHoldEffect::new(
                Effect(KeyCode(KEY_LEFTCTRL)),
                KeyValue::Release
            )]
        )
    );
    let press_s2 = event_at(KEY_S, KeyValue::Press, 1, 100000);
    assert_eq!(
        th_mgr.process_tap_hold(&mut l_mgr, &press_s2),
        TapHoldOut::empty(STOP)
    );
}

#[test]
fn test_repeat_dropped_in_every_state() {
    let mut l_mgr = LayersManager::new(base_layers());
    let mut th_mgr = TapHoldMgr::new();

    // Idle: a repeat emits nothing and registers nothing.
    let repeat_idle = event_at(KEY_A, KeyValue::Repeat, 0, 0);
    assert_eq!(
        th_mgr.process_tap_hold(&mut l_mgr, &repeat_idle),
        TapHoldOut::empty(STOP)
    );
    let probe = event_at(KEY_C, KeyValue::Press, 5, 0);
    assert_eq!(
        th_mgr.process_tap_hold(&mut l_mgr, &probe),
        TapHoldOut::empty(CONTINUE)
    );

    // Waiting: a repeat neither flushes nor promotes.
    let press_a = event_at(KEY_A, KeyValue::Press, 10, 0);
    th_mgr.process_tap_hold(&mut l_mgr, &press_a);
    let repeat_waiting = event_at(KEY_A, KeyValue::Repeat, 10, 50000);
    assert_eq!(
        th_mgr.process_tap_hold(&mut l_mgr, &repeat_waiting),
        TapHoldOut::empty(STOP)
    );
    let release_a = event_at(KEY_A, KeyValue::Release, 10, 100000);
    assert_eq!(
        th_mgr.process_tap_hold(&mut l_mgr, &release_a),
        TapHoldOut::new_multiple(
            STOP,
            vec![
                TapHoldEffect::new(Effect(KeyCode(KEY_A)), KeyValue::Press),
                TapHoldEffect::new(Effect(KeyCode(KEY_A)), KeyValue::Release),
            ]
        )
    );

    // Holding: a repeat changes nothing; the release still ends the hold.
    let press_a2 = event_at(KEY_A, KeyValue::Press, 20, 0);
    th_mgr.process_tap_hold(&mut l_mgr, &press_a2);
    let promote = event_at(KEY_C, KeyValue::Press, 21, 0);
    th_mgr.process_tap_hold(&mut l_mgr, &promote);
    let repeat_holding = event_at(KEY_A, KeyValue::Repeat, 22, 0);
    assert_eq!(
        th_mgr.process_tap_hold(&mut l_mgr, &repeat_holding),
        TapHoldOut::empty(STOP)
    );
    let release_a2 = event_at(KEY_A, KeyValue::Release, 23, 0);
    assert_eq!(
        th_mgr.process_tap_hold(&mut l_mgr, &release_a2),
        TapHoldOut::new_multiple(
            STOP,
            vec![TapHoldEffect::new(
                Effect(KeyCode(KEY_LEFTCTRL)),
                KeyValue::Release
            )]
        )
    );
}

#[test]
fn test_release_while_idle_is_violation() {
    let mut l_mgr = LayersManager::new(base_layers());
    let mut th_mgr = TapHoldMgr::new();

    let release_a = event_at(KEY_A, KeyValue::Release, 0, 0);
    assert_eq!(
        th_mgr.try_process_tap_hold(&mut l_mgr, &release_a),
        Err(TapHoldError::ReleaseWhileIdle)
    );
}

#[test]
fn test_press_while_waiting_is_violation() {
    let mut l_mgr = LayersManager::new(base_layers());
    let mut th_mgr = TapHoldMgr::new();

    let press_a = event_at(KEY_A, KeyValue::Press, 0, 0);
    assert_eq!(
        th_mgr.try_process_tap_hold(&mut l_mgr, &press_a),
        Ok(TapHoldOut::empty(STOP))
    );
    let press_a_again = event_at(KEY_A, KeyValue::Press, 0, 50000);
    assert_eq!(
        th_mgr.try_process_tap_hold(&mut l_mgr, &press_a_again),
        Err(TapHoldError::PressWhileWaiting)
    );
}

#[test]
fn test_press_while_holding_is_violation() {
    let mut l_mgr = LayersManager::new(base_layers());
    let mut th_mgr = TapHoldMgr::new();

    let press_a = event_at(KEY_A, KeyValue::Press, 0, 0);
    th_mgr.process_tap_hold(&mut l_mgr, &press_a);
    let promote = event_at(KEY_C, KeyValue::Press, 1, 0);
    th_mgr.process_tap_hold(&mut l_mgr, &promote);

    let press_a_again = event_at(KEY_A, KeyValue::Press, 2, 0);
    assert_eq!(
        th_mgr.try_process_tap_hold(&mut l_mgr, &press_a_again),
        Err(TapHoldError::PressWhileHolding)
    );

    // The rejected event changed nothing: the hold still releases cleanly.
    let release_a = event_at(KEY_A, KeyValue::Release, 3, 0);
    assert_eq!(
        th_mgr.try_process_tap_hold(&mut l_mgr, &release_a),
        Ok(TapHoldOut::new_multiple(
            STOP,
            vec![TapHoldEffect::new(
                Effect(KeyCode(KEY_LEFTCTRL)),
                KeyValue::Release
            )]
        ))
    );
}

#[test]
fn test_key_value_from_raw() {
    assert_eq!(KeyValue::from_raw(0), Some(KeyValue::Release));
    assert_eq!(KeyValue::from_raw(1), Some(KeyValue::Press));
    assert_eq!(KeyValue::from_raw(2), Some(KeyValue::Repeat));
    assert_eq!(KeyValue::from_raw(3), None);
    assert_eq!(KeyValue::from_raw(-1), None);
}

#[test]
fn test_layer_override_uses_last_entry() {
    // The same key configured twice: the later entry wins.
    let layers: Layers = vec![vec![
        make_taphold_layer_entry(KEY_A, KEY_A, KEY_LEFTCTRL),
        make_taphold_layer_entry(KEY_A, KEY_A, KEY_LEFTALT),
    ]];
    let mut l_mgr = LayersManager::new(layers);
    let mut th_mgr = TapHoldMgr::new();

    let press_a = event_at(KEY_A, KeyValue::Press, 0, 0);
    th_mgr.process_tap_hold(&mut l_mgr, &press_a);
    let promote = event_at(KEY_C, KeyValue::Press, 1, 0);
    assert_eq!(
        th_mgr.process_tap_hold(&mut l_mgr, &promote),
        TapHoldOut::new_multiple(
            CONTINUE,
            vec![TapHoldEffect::new(
                Effect(KeyCode(KEY_LEFTALT)),
                KeyValue::Press
            )]
        )
    );
}
