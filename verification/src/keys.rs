//! Keys, key events and event times.

use vstd::prelude::*;
use vstd::std_specs::convert::FromSpecImpl;

verus! {

/// A keyboard key, identified by its kernel key code.
#[derive(PartialEq, Eq, Structural, Hash, Clone, Copy, Debug, PartialOrd, Ord)]
pub struct Key(pub u16);

impl Key {
    /// The key with the given kernel code.
    pub fn new(code: u16) -> (key: Key)
        ensures
            key == Key(code),
    {
        Key(code)
    }

    /// The kernel code of this key.
    pub fn code(self) -> (code: u16)
        ensures
            code == self.0,
    {
        self.0
    }
}

/// Whether a key went down or came up.
#[derive(PartialEq, Eq, Structural, Hash, Clone, Copy, Debug, PartialOrd, Ord)]
pub enum KeyInputKind {
    Press,
    Release,
}

impl KeyInputKind {
    /// The event value that stands for this kind on an output device.
    pub open spec fn value(self) -> i32 {
        match self {
            KeyInputKind::Press => 1,
            KeyInputKind::Release => 0,
        }
    }

    /// The kind that a raw event value stands for: first press (1) and
    /// auto-repeat (2) are presses, everything else is a release.
    pub open spec fn of_value(value: i32) -> KeyInputKind {
        if value == 1 || value == 2 {
            KeyInputKind::Press
        } else {
            KeyInputKind::Release
        }
    }
}

impl From<KeyInputKind> for i32 {
    fn from(k: KeyInputKind) -> (value: i32) {
        match k {
            KeyInputKind::Press => 1,
            KeyInputKind::Release => 0,
        }
    }
}

impl FromSpecImpl<KeyInputKind> for i32 {
    open spec fn obeys_from_spec() -> bool {
        true
    }

    open spec fn from_spec(k: KeyInputKind) -> i32 {
        k.value()
    }
}

impl From<i32> for KeyInputKind {
    fn from(i: i32) -> (kind: KeyInputKind) {
        if i == 1 || i == 2 {
            KeyInputKind::Press
        } else {
            KeyInputKind::Release
        }
    }
}

impl FromSpecImpl<i32> for KeyInputKind {
    open spec fn obeys_from_spec() -> bool {
        true
    }

    open spec fn from_spec(i: i32) -> KeyInputKind {
        KeyInputKind::of_value(i)
    }
}

/// A key together with the direction of the event.
#[derive(PartialEq, Eq, Structural, Hash, Clone, Copy, Debug, PartialOrd, Ord)]
pub struct KeyInput(pub Key, pub KeyInputKind);

impl KeyInput {
    /// The press of `key`.
    pub fn press(key: Key) -> (input: KeyInput)
        ensures
            input == KeyInput(key, KeyInputKind::Press),
    {
        KeyInput(key, KeyInputKind::Press)
    }

    /// The release of `key`.
    pub fn release(key: Key) -> (input: KeyInput)
        ensures
            input == KeyInput(key, KeyInputKind::Release),
    {
        KeyInput(key, KeyInputKind::Release)
    }
}

/// An event time, in microseconds since an epoch that the caller fixes.
#[derive(PartialEq, Eq, Structural, Hash, Clone, Copy, Debug, PartialOrd, Ord)]
pub struct Timestamp {
    pub micros: u64,
}

impl Timestamp {
    /// The time `micros` microseconds after the epoch.
    pub fn from_micros(micros: u64) -> (t: Timestamp)
        ensures
            t.micros == micros,
    {
        Timestamp { micros }
    }

    /// The time `millis` milliseconds after the epoch; times beyond the
    /// representable range collapse to the latest one.
    pub fn from_millis(millis: u64) -> (t: Timestamp)
        ensures
            t.micros == if millis * 1000 <= u64::MAX { millis * 1000 } else { u64::MAX as int },
    {
        if millis <= u64::MAX / 1000 {
            Timestamp { micros: millis * 1000 }
        } else {
            Timestamp { micros: u64::MAX }
        }
    }

    /// Whole milliseconds from `self` to `later`; negative when `later` is
    /// the earlier of the two.
    pub open spec fn millis_until(self, later: Timestamp) -> int {
        (later.micros - self.micros) / 1000
    }

    /// Whether `later` comes no more than `threshold_ms` whole milliseconds
    /// after `self`.
    pub fn within(self, later: Timestamp, threshold_ms: u32) -> (r: bool)
        ensures
            r == (self.millis_until(later) <= threshold_ms),
    {
        if later.micros < self.micros {
            true
        } else {
            (later.micros - self.micros) / 1000 <= threshold_ms as u64
        }
    }
}

/// A key event tagged with the time it is attributed to.
#[derive(PartialEq, Eq, Structural, Hash, Clone, Copy, Debug)]
pub struct TimedKeyInput {
    pub input: KeyInput,
    pub time: Timestamp,
}

/// Every key of `keys`, in order, tagged with `time`.
pub open spec fn timed(keys: Seq<KeyInput>, time: Timestamp) -> Seq<TimedKeyInput> {
    Seq::new(keys.len(), |i: int| TimedKeyInput { input: keys[i], time })
}

} // verus!
