//! The plain event model the engine works on: key codes, event kinds and
//! event-source timestamps.

use vstd::prelude::*;

verus! {

/// Identifier of a physical key, as the input-event stream numbers them.
#[derive(Clone, Copy, PartialEq, Eq, Structural, Debug, Hash)]
pub struct KeyCode(pub u64);

/// The kind of a raw key event.
#[derive(Clone, Copy, PartialEq, Eq, Structural, Debug)]
pub enum KeyValue {
    Press,
    Release,
    Repeat,
}

impl KeyValue {
    /// Decodes the numeric value field of a raw input event:
    /// 0 is a release, 1 a press, 2 a repeat; anything else is unknown.
    pub fn from_raw(raw: i32) -> (r: Option<KeyValue>)
        ensures
            r == (if raw == 0 {
                Some(KeyValue::Release)
            } else if raw == 1 {
                Some(KeyValue::Press)
            } else if raw == 2 {
                Some(KeyValue::Repeat)
            } else {
                None::<KeyValue>
            }),
    {
        if raw == 0 {
            Some(KeyValue::Release)
        } else if raw == 1 {
            Some(KeyValue::Press)
        } else if raw == 2 {
            Some(KeyValue::Repeat)
        } else {
            None
        }
    }
}

/// A timestamp of the event-source clock: whole seconds plus microseconds,
/// both signed, never normalized against each other.
#[derive(Clone, Copy, PartialEq, Eq, Structural, Debug)]
pub struct EventTime {
    pub tv_sec: i64,
    pub tv_usec: i64,
}

/// One decoded key event from the input stream.
#[derive(Clone, Copy, PartialEq, Eq, Structural, Debug)]
pub struct KeyEvent {
    pub code: KeyCode,
    pub value: KeyValue,
    pub time: EventTime,
}

impl KeyEvent {
    /// A press of `code` at the clock origin.
    pub fn new_press(code: KeyCode) -> (r: KeyEvent)
        ensures
            r == (KeyEvent {
                code,
                value: KeyValue::Press,
                time: EventTime { tv_sec: 0, tv_usec: 0 },
            }),
    {
        KeyEvent { code, value: KeyValue::Press, time: EventTime { tv_sec: 0, tv_usec: 0 } }
    }

    /// A release of `code` at the clock origin.
    pub fn new_release(code: KeyCode) -> (r: KeyEvent)
        ensures
            r == (KeyEvent {
                code,
                value: KeyValue::Release,
                time: EventTime { tv_sec: 0, tv_usec: 0 },
            }),
    {
        KeyEvent { code, value: KeyValue::Release, time: EventTime { tv_sec: 0, tv_usec: 0 } }
    }

    /// An event of `code` with the given kind and timestamp.
    pub fn new_at(code: KeyCode, value: KeyValue, time: EventTime) -> (r: KeyEvent)
        ensures
            r == (KeyEvent { code, value, time }),
    {
        KeyEvent { code, value, time }
    }
}

} // verus!
