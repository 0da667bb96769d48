//! What a layer does with an event, as mathematics.
//!
//! A layer holds a machine state and at most one press that waits for a
//! partner. Each arriving key event, and each timer that comes due, takes
//! the layer from one such state to the next and yields the keys to pass
//! downstream, stamped with the time they are attributed to.

use crate::keys::{timed, Key, KeyInput, KeyInputKind, TimedKeyInput, Timestamp};
use crate::layer::{LayerState, RemapLayer};
use vstd::prelude::*;

verus! {

/// A press that is held back in case its partner follows.
#[derive(PartialEq, Eq, Structural, Clone, Copy, Debug)]
pub struct WaitingKey {
    pub key: Key,
    pub time: Timestamp,
}

/// What changes in a layer while it runs.
#[derive(PartialEq, Eq, Structural, Clone, Copy, Debug)]
pub struct RecorderState {
    /// The state of the layer's machine.
    pub state: LayerState,
    /// The press that waits for a partner, with its time.
    pub waiting_key: Option<WaitingKey>,
}

/// A timer to arm: after `delay_ms` milliseconds, tell the layer that the
/// press of `key` at `time` has waited long enough.
#[derive(PartialEq, Eq, Structural, Clone, Copy, Debug)]
pub struct FlushRequest {
    pub key: Key,
    pub time: Timestamp,
    pub delay_ms: u32,
}

/// The outcome of one event: the layer's next state, the keys that go
/// downstream and the timer to arm, if any.
pub struct Step {
    pub next: RecorderState,
    pub keys: Seq<TimedKeyInput>,
    pub flush: Option<FlushRequest>,
}

/// What a run of events does to a layer: the state it ends in, every key
/// that went downstream and every timer that was asked for, in order.
pub struct LayerRun {
    pub state: RecorderState,
    pub keys: Seq<TimedKeyInput>,
    pub flushes: Seq<FlushRequest>,
}

/// The timers of one step, as a sequence of none or one.
pub open spec fn flush_seq(flush: Option<FlushRequest>) -> Seq<FlushRequest> {
    match flush {
        Some(request) => seq![request],
        None => Seq::empty(),
    }
}

impl RemapLayer {
    /// The layer's state before any event.
    pub open spec fn start(&self) -> RecorderState {
        RecorderState { state: self.initial_state, waiting_key: None }
    }

    /// A key event that is decided: the single entry for it in `state`
    /// replaces it and names the next state; without one it passes
    /// unchanged.
    pub open spec fn dispatch(&self, state: LayerState, key: KeyInput, time: Timestamp) -> (
        LayerState,
        Seq<TimedKeyInput>,
    ) {
        match self.single_rule(state, key) {
            Some(i) => (self.singles()[i].transition, timed(self.singles()[i].output@, time)),
            None => (state, seq![TimedKeyInput { input: key, time }]),
        }
    }

    /// Gives up on the waiting press, if there is one: it is dispatched as
    /// a press of its own, at its own time.
    pub open spec fn flush_waiting(&self, s: RecorderState) -> (RecorderState, Seq<TimedKeyInput>) {
        match s.waiting_key {
            Some(w) => {
                let (state, keys) = self.dispatch(s.state, KeyInput(w.key, KeyInputKind::Press), w.time);
                (RecorderState { state, waiting_key: None }, keys)
            },
            None => (s, Seq::empty()),
        }
    }

    /// The event `key` may be the first half of a pair: it is a press, and
    /// some pair entry of the current state has its key.
    pub open spec fn holds(&self, s: RecorderState, key: KeyInput) -> bool {
        key.1 == KeyInputKind::Press && self.starts_pair(s.state, key.0)
    }

    /// The pair entry that the event `key` at `time` completes, if any: the
    /// event may start a pair, a press is waiting, an entry of the current
    /// state has the two keys, and the second press comes within that
    /// entry's threshold of the first.
    pub open spec fn pair_fired(&self, s: RecorderState, key: KeyInput, time: Timestamp) -> Option<int> {
        if self.holds(s, key) && s.waiting_key is Some {
            let w = s.waiting_key->0;
            match self.pair_rule(s.state, w.key, key.0) {
                Some(i) => if w.time.millis_until(time) <= self.pairs()[i].threshold {
                    Some(i)
                } else {
                    None
                },
                None => None,
            }
        } else {
            None
        }
    }

    /// The timer that goes with holding the press of `key` at `time`.
    pub open spec fn flush_for(&self, key: Key, time: Timestamp) -> FlushRequest {
        FlushRequest { key, time, delay_ms: self.max_threshold() }
    }

    /// What the event `key` at `time` does to a layer in state `s`.
    ///
    /// A press that completes a pair is replaced, together with the waiting
    /// press, by the pair's output. Any other press that may start a pair
    /// is held back, after the press that waited before it has been given
    /// up. Every other event gives up the waiting press and is dispatched
    /// after it.
    pub open spec fn on_key(&self, s: RecorderState, key: KeyInput, time: Timestamp) -> Step {
        if self.holds(s, key) {
            match self.pair_fired(s, key, time) {
                Some(i) => Step {
                    next: RecorderState { state: self.pairs()[i].transition, waiting_key: None },
                    keys: timed(self.pairs()[i].output@, time),
                    flush: None,
                },
                None => {
                    let (flushed, keys) = self.flush_waiting(s);
                    Step {
                        next: RecorderState {
                            state: flushed.state,
                            waiting_key: Some(WaitingKey { key: key.0, time }),
                        },
                        keys,
                        flush: Some(self.flush_for(key.0, time)),
                    }
                },
            }
        } else {
            let (flushed, before) = self.flush_waiting(s);
            let (state, after) = self.dispatch(flushed.state, key, time);
            Step {
                next: RecorderState { state, waiting_key: None },
                keys: before + after,
                flush: None,
            }
        }
    }

    /// What the end of the input does to a layer in state `s`: the waiting
    /// press, if any, is given up.
    pub open spec fn on_close(&self, s: RecorderState) -> Step {
        Step { next: self.flush_waiting(s).0, keys: self.flush_waiting(s).1, flush: None }
    }

    /// What the key events `events`, taken one after the other, do to a
    /// layer in state `s`.
    pub open spec fn run(&self, s: RecorderState, events: Seq<TimedKeyInput>) -> LayerRun
        decreases events.len(),
    {
        if events.len() == 0 {
            LayerRun { state: s, keys: Seq::empty(), flushes: Seq::empty() }
        } else {
            let before = self.run(s, events.drop_last());
            let step = self.on_key(before.state, events.last().input, events.last().time);
            LayerRun {
                state: step.next,
                keys: before.keys + step.keys,
                flushes: before.flushes + flush_seq(step.flush),
            }
        }
    }

    /// What a timer for the press of `key` at `time` does to a layer in
    /// state `s`: if that very press is still waiting it is given up,
    /// otherwise nothing happens.
    pub open spec fn on_flush(&self, s: RecorderState, key: Key, time: Timestamp) -> Step {
        if s.waiting_key == Some(WaitingKey { key, time }) {
            let (next, keys) = self.flush_waiting(s);
            Step { next, keys, flush: None }
        } else {
            Step { next: s, keys: Seq::empty(), flush: None }
        }
    }
}

} // verus!
