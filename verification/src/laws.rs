//! What holds of every layer and every pipeline.

use crate::keys::{timed, Key, KeyInput, KeyInputKind, TimedKeyInput, Timestamp};
use crate::layer::RemapLayer;
use crate::model::{flush_seq, FlushRequest, RecorderState, WaitingKey};
use crate::pipeline::{close_from, flushes_of_layer, run_from, LayerFlush};
use crate::run::{trace_run, Event, EV_KEY};
use vstd::prelude::*;

verus! {

/// An event whose key starts no pair in the current state, arriving while
/// no press is waiting, is dispatched on the spot: what goes downstream is
/// the output of its single entry, or the event itself where it has none,
/// every key stamped with the time of the event. Nothing is held back and
/// no timer is asked for.
pub proof fn lemma_plain_key_is_dispatched(
    layer: RemapLayer,
    s: RecorderState,
    key: KeyInput,
    time: Timestamp,
)
    requires
        !layer.starts_pair(s.state, key.0),
        s.waiting_key is None,
    ensures
        layer.on_key(s, key, time).keys == (match layer.single_rule(s.state, key) {
            Some(i) => timed(layer.singles()[i].output@, time),
            None => seq![TimedKeyInput { input: key, time }],
        }),
        layer.on_key(s, key, time).next.state == (match layer.single_rule(s.state, key) {
            Some(i) => layer.singles()[i].transition,
            None => s.state,
        }),
        layer.on_key(s, key, time).next.waiting_key is None,
        layer.on_key(s, key, time).flush is None,
        forall|i: int|
            0 <= i < layer.on_key(s, key, time).keys.len() ==> (#[trigger] layer.on_key(
                s,
                key,
                time,
            ).keys[i]).time == time,
{
    let out = layer.dispatch(s.state, key, time).1;
    assert(Seq::<TimedKeyInput>::empty() + out =~= out);
}

/// A layer holds at most one press, and it is always the latest: after a
/// key event a press is waiting exactly when a timer was asked for, and
/// then the press that waits is the event itself and the timer is the one
/// for it.
pub proof fn lemma_waiting_key_is_latest(
    layer: RemapLayer,
    s: RecorderState,
    key: KeyInput,
    time: Timestamp,
)
    ensures
        layer.on_key(s, key, time).next.waiting_key is Some <==> layer.on_key(s, key, time).flush is Some,
        layer.on_key(s, key, time).next.waiting_key is Some ==> {
            &&& key.1 == KeyInputKind::Press
            &&& layer.starts_pair(s.state, key.0)
            &&& layer.on_key(s, key, time).next.waiting_key == Some(WaitingKey { key: key.0, time })
            &&& layer.on_key(s, key, time).flush == Some(layer.flush_for(key.0, time))
        },
{
}

/// A timer never leaves a press waiting and never asks for another timer.
pub proof fn lemma_flush_leaves_nothing_waiting(
    layer: RemapLayer,
    s: RecorderState,
    key: Key,
    time: Timestamp,
)
    ensures
        layer.on_flush(s, key, time).flush is None,
        layer.on_flush(s, key, time).next.waiting_key is Some ==> layer.on_flush(s, key, time).next
            == s,
{
}

/// No pair fires unless its two presses come within its own threshold: when
/// an event completes the pair entry at position `i`, a press was waiting,
/// the entry is one for the waiting key and the key of the event in the
/// current state, and the event comes no more than the entry's threshold
/// after the waiting press. What goes downstream is then the entry's
/// output, stamped with the time of the event.
pub proof fn lemma_pair_fires_within_threshold(
    layer: RemapLayer,
    s: RecorderState,
    key: KeyInput,
    time: Timestamp,
    i: int,
)
    requires
        layer.pair_fired(s, key, time) == Some(i),
    ensures
        key.1 == KeyInputKind::Press,
        s.waiting_key is Some,
        layer.pair_applies(i, s.state, s.waiting_key->0.key, key.0),
        s.waiting_key->0.time.millis_until(time) <= layer.pairs()[i].threshold,
        layer.on_key(s, key, time).keys == timed(layer.pairs()[i].output@, time),
        layer.on_key(s, key, time).next == (RecorderState {
            state: layer.pairs()[i].transition,
            waiting_key: None,
        }),
        layer.on_key(s, key, time).flush is None,
{
}

/// Without a pair that fires, nothing of a pair entry is applied: the
/// waiting press, if any, is dispatched as a press of its own, and the
/// event is held back or dispatched after it.
pub proof fn lemma_no_pair_no_pair_action(
    layer: RemapLayer,
    s: RecorderState,
    key: KeyInput,
    time: Timestamp,
)
    requires
        layer.pair_fired(s, key, time) is None,
    ensures
        layer.on_key(s, key, time).keys == (if layer.holds(s, key) {
            layer.flush_waiting(s).1
        } else {
            layer.flush_waiting(s).1 + layer.dispatch(layer.flush_waiting(s).0.state, key, time).1
        }),
{
}

/// An entry that names the current state as the next one leaves the state
/// as it is.
pub proof fn lemma_transition_to_self(
    layer: RemapLayer,
    s: RecorderState,
    key: KeyInput,
    time: Timestamp,
)
    requires
        s.waiting_key is None,
        !layer.holds(s, key),
        layer.single_rule(s.state, key) matches Some(i) ==> layer.singles()[i].transition == s.state,
    ensures
        layer.on_key(s, key, time).next == s,
{
}

/// A pair that names the current state as the next one leaves the state as
/// it is, and nothing waiting.
pub proof fn lemma_pair_transition_to_self(
    layer: RemapLayer,
    s: RecorderState,
    key: KeyInput,
    time: Timestamp,
    i: int,
)
    requires
        layer.pair_fired(s, key, time) == Some(i),
        layer.pairs()[i].transition == s.state,
    ensures
        layer.on_key(s, key, time).next == (RecorderState { state: s.state, waiting_key: None }),
{
}

/// When a pair fires, the timer that was armed for its first press finds
/// nothing to do: it changes nothing and passes nothing downstream.
pub proof fn lemma_stale_flush_is_discarded(
    layer: RemapLayer,
    s: RecorderState,
    key: KeyInput,
    time: Timestamp,
)
    requires
        layer.pair_fired(s, key, time) is Some,
    ensures
        ({
            let after = layer.on_key(s, key, time).next;
            let w = s.waiting_key->0;
            &&& after.waiting_key is None
            &&& layer.on_flush(after, w.key, w.time).next == after
            &&& layer.on_flush(after, w.key, w.time).keys == Seq::<TimedKeyInput>::empty()
        }),
{
}

/// A timer for a press other than the one that is waiting does nothing.
pub proof fn lemma_flush_for_other_press(
    layer: RemapLayer,
    s: RecorderState,
    key: Key,
    time: Timestamp,
)
    requires
        s.waiting_key != Some(WaitingKey { key, time }),
    ensures
        layer.on_flush(s, key, time).next == s,
        layer.on_flush(s, key, time).keys == Seq::<TimedKeyInput>::empty(),
{
}

/// A timer for the press that is waiting gives it up: the press is
/// dispatched as a press of its own, at its own time.
pub proof fn lemma_flush_dispatches_waiting_press(
    layer: RemapLayer,
    s: RecorderState,
    key: Key,
    time: Timestamp,
)
    requires
        s.waiting_key == Some(WaitingKey { key, time }),
    ensures
        layer.on_flush(s, key, time).keys == layer.dispatch(
            s.state,
            KeyInput(key, KeyInputKind::Press),
            time,
        ).1,
        layer.on_flush(s, key, time).next == (RecorderState {
            state: layer.dispatch(s.state, KeyInput(key, KeyInputKind::Press), time).0,
            waiting_key: None,
        }),
{
}

/// A second press that may start a pair, but comes too late for the pair
/// with the waiting press or forms no pair with it, takes its place: the
/// waiting press is dispatched as a press of its own, at its own time, and
/// the second press waits, with a timer of its own.
pub proof fn lemma_late_second_press(
    layer: RemapLayer,
    s: RecorderState,
    key: KeyInput,
    time: Timestamp,
)
    requires
        layer.holds(s, key),
        s.waiting_key is Some,
        layer.pair_rule(s.state, s.waiting_key->0.key, key.0) matches Some(i)
            ==> s.waiting_key->0.time.millis_until(time) > layer.pairs()[i].threshold,
    ensures
        ({
            let w = s.waiting_key->0;
            let first = layer.dispatch(s.state, KeyInput(w.key, KeyInputKind::Press), w.time);
            &&& layer.on_key(s, key, time).keys == first.1
            &&& layer.on_key(s, key, time).next == (RecorderState {
                state: first.0,
                waiting_key: Some(WaitingKey { key: key.0, time }),
            })
            &&& layer.on_key(s, key, time).flush == Some(layer.flush_for(key.0, time))
        }),
{
}

/// An event that cannot start a pair gives up the waiting press: the
/// waiting press is dispatched first, at its own time, and the event after
/// it, in the state that the waiting press has led to.
pub proof fn lemma_other_key_flushes_waiting(
    layer: RemapLayer,
    s: RecorderState,
    key: KeyInput,
    time: Timestamp,
)
    requires
        s.waiting_key is Some,
        !layer.holds(s, key),
    ensures
        ({
            let w = s.waiting_key->0;
            let first = layer.dispatch(s.state, KeyInput(w.key, KeyInputKind::Press), w.time);
            let second = layer.dispatch(first.0, key, time);
            &&& layer.on_key(s, key, time).keys == first.1 + second.1
            &&& layer.on_key(s, key, time).next == (RecorderState {
                state: second.0,
                waiting_key: None,
            })
            &&& layer.on_key(s, key, time).flush is None
        }),
{
}

/// A layer passes keys downstream in the order in which the events that
/// caused them arrived: running one batch of events and then another comes
/// to the same as running both in one go, and in what goes downstream
/// everything from the first batch stands before anything from the second.
pub proof fn lemma_run_in_order(
    layer: RemapLayer,
    s: RecorderState,
    first: Seq<TimedKeyInput>,
    second: Seq<TimedKeyInput>,
)
    ensures
        ({
            let one = layer.run(s, first);
            let two = layer.run(one.state, second);
            let both = layer.run(s, first + second);
            &&& both.state == two.state
            &&& both.keys == one.keys + two.keys
            &&& both.flushes == one.flushes + two.flushes
        }),
    decreases second.len(),
{
    let one = layer.run(s, first);
    let two = layer.run(one.state, second);
    let both = layer.run(s, first + second);
    if second.len() == 0 {
        assert(first + second =~= first);
        assert(one.keys + two.keys =~= one.keys);
        assert(one.flushes + two.flushes =~= one.flushes);
    } else {
        lemma_run_in_order(layer, s, first, second.drop_last());
        assert((first + second).drop_last() =~= first + second.drop_last());
        assert((first + second).last() == second.last());
        let shorter = layer.run(one.state, second.drop_last());
        let step = layer.on_key(shorter.state, second.last().input, second.last().time);
        assert((one.keys + shorter.keys) + step.keys =~= one.keys + (shorter.keys + step.keys));
        assert((one.flushes + shorter.flushes) + flush_seq(step.flush) =~= one.flushes + (
        shorter.flushes + flush_seq(step.flush)));
    }
}

/// A run of one event is the step for that event.
pub proof fn lemma_run_of_one(layer: RemapLayer, s: RecorderState, event: TimedKeyInput)
    ensures
        layer.run(s, seq![event]).state == layer.on_key(s, event.input, event.time).next,
        layer.run(s, seq![event]).keys == layer.on_key(s, event.input, event.time).keys,
        layer.run(s, seq![event]).flushes == flush_seq(layer.on_key(s, event.input, event.time).flush),
{
    let events = seq![event];
    assert(events.drop_last() =~= Seq::<TimedKeyInput>::empty());
    assert(events.last() == event);
    let step = layer.on_key(s, event.input, event.time);
    assert(layer.run(s, events.drop_last()).state == s);
    assert(Seq::<TimedKeyInput>::empty() + step.keys =~= step.keys);
    assert(Seq::<FlushRequest>::empty() + flush_seq(step.flush) =~= flush_seq(
        step.flush,
    ));
}

/// A layer without rules passes every event on as it came, holds nothing
/// back and asks for no timer.
pub proof fn lemma_empty_layer_passes_all(
    layer: RemapLayer,
    s: RecorderState,
    events: Seq<TimedKeyInput>,
)
    requires
        layer.singles().len() == 0,
        layer.pairs().len() == 0,
        s.waiting_key is None,
    ensures
        layer.run(s, events).state == s,
        layer.run(s, events).keys == events,
        layer.run(s, events).flushes == Seq::<FlushRequest>::empty(),
    decreases events.len(),
{
    if events.len() > 0 {
        lemma_empty_layer_passes_all(layer, s, events.drop_last());
        let last = events.last();
        assert(!layer.starts_pair(s.state, last.input.0));
        assert(layer.single_rule(s.state, last.input) is None);
        let step = layer.on_key(s, last.input, last.time);
        assert(step.keys =~= seq![last]);
        assert(events.drop_last() + seq![last] =~= events);
        assert(layer.run(s, events).flushes =~= Seq::<FlushRequest>::empty());
    }
}

/// A pipeline whose layers all have no rules writes exactly the events it
/// is given, in order, and asks for no timer.
pub proof fn lemma_empty_pipeline_round_trip(
    layers: Seq<RemapLayer>,
    states: Seq<RecorderState>,
    from: int,
    events: Seq<TimedKeyInput>,
)
    requires
        0 <= from,
        states.len() == layers.len(),
        forall|i: int|
            0 <= i < layers.len() ==> {
                &&& (#[trigger] layers[i]).singles().len() == 0
                &&& layers[i].pairs().len() == 0
            },
        forall|i: int| 0 <= i < states.len() ==> (#[trigger] states[i]).waiting_key is None,
    ensures
        run_from(layers, states, from, events).keys == events,
        run_from(layers, states, from, events).states == states,
        run_from(layers, states, from, events).flushes == Seq::<LayerFlush>::empty(),
    decreases layers.len() - from,
{
    if from < layers.len() {
        lemma_empty_layer_passes_all(layers[from], states[from], events);
        let here = layers[from].run(states[from], events);
        assert(states.update(from, here.state) =~= states);
        lemma_empty_pipeline_round_trip(layers, states, from + 1, events);
        assert(flushes_of_layer(from, here.flushes) =~= Seq::<LayerFlush>::empty());
        assert(run_from(layers, states, from, events).flushes =~= Seq::<LayerFlush>::empty());
    }
}


/// What enters a chain at some position neither reads nor changes the
/// states of the layers above that position.
pub proof fn lemma_upper_layers_untouched(
    layers: Seq<RemapLayer>,
    states: Seq<RecorderState>,
    from: int,
    events: Seq<TimedKeyInput>,
    above: int,
    other: RecorderState,
)
    requires
        0 <= above < from,
        above < states.len(),
        states.len() == layers.len(),
    ensures
        run_from(layers, states.update(above, other), from, events).keys == run_from(
            layers,
            states,
            from,
            events,
        ).keys,
        run_from(layers, states.update(above, other), from, events).flushes == run_from(
            layers,
            states,
            from,
            events,
        ).flushes,
        run_from(layers, states.update(above, other), from, events).states == run_from(
            layers,
            states,
            from,
            events,
        ).states.update(above, other),
        run_from(layers, states, from, events).states.len() == states.len(),
    decreases layers.len() - from,
{
    if from < layers.len() {
        let here = layers[from].run(states[from], events);
        let changed = states.update(above, other);
        assert(changed[from] == states[from]);
        assert(changed.update(from, here.state) =~= states.update(from, here.state).update(
            above,
            other,
        ));
        lemma_upper_layers_untouched(
            layers,
            states.update(from, here.state),
            from + 1,
            here.keys,
            above,
            other,
        );
    }
}

/// A run down a chain leaves as many states as it found, and below the
/// position where the events enter nothing else than the layers' own runs
/// decides them.
pub proof fn lemma_run_keeps_the_number_of_states(
    layers: Seq<RemapLayer>,
    states: Seq<RecorderState>,
    from: int,
    events: Seq<TimedKeyInput>,
)
    requires
        0 <= from,
        states.len() == layers.len(),
    ensures
        run_from(layers, states, from, events).states.len() == states.len(),
        forall|i: int|
            0 <= i < from && i < states.len() ==> run_from(layers, states, from, events).states[i]
                == #[trigger] states[i],
    decreases layers.len() - from,
{
    if from < layers.len() {
        let here = layers[from].run(states[from], events);
        let next = states.update(from, here.state);
        lemma_run_keeps_the_number_of_states(layers, next, from + 1, here.keys);
        assert forall|i: int| 0 <= i < from && i < states.len() implies run_from(
            layers,
            states,
            from,
            events,
        ).states[i] == #[trigger] states[i] by {
            assert(next[i] == states[i]);
        }
    }
}

/// A pipeline writes keys in the order in which the events that caused
/// them arrived: running one batch of events down the chain and then
/// another leaves the same states and writes the same keys as running both
/// in one go, everything from the first batch before anything from the
/// second.
pub proof fn lemma_pipeline_in_order(
    layers: Seq<RemapLayer>,
    states: Seq<RecorderState>,
    from: int,
    first: Seq<TimedKeyInput>,
    second: Seq<TimedKeyInput>,
)
    requires
        0 <= from,
        states.len() == layers.len(),
    ensures
        ({
            let one = run_from(layers, states, from, first);
            let two = run_from(layers, one.states, from, second);
            let both = run_from(layers, states, from, first + second);
            &&& both.states == two.states
            &&& both.keys == one.keys + two.keys
        }),
    decreases layers.len() - from,
{
    let one = run_from(layers, states, from, first);
    if from < layers.len() {
        let layer = layers[from];
        let a = layer.run(states[from], first);
        let b = layer.run(a.state, second);
        lemma_run_in_order(layer, states[from], first, second);
        // The first batch alone.
        let after_a = states.update(from, a.state);
        let below_a = run_from(layers, after_a, from + 1, a.keys);
        assert(one.states == below_a.states);
        lemma_run_keeps_the_number_of_states(layers, after_a, from + 1, a.keys);
        assert(after_a[from] == a.state);
        assert(below_a.states[from] == a.state);
        // The second batch after it.
        let after_b = below_a.states.update(from, b.state);
        let below_b = run_from(layers, after_b, from + 1, b.keys);
        // Both batches in one go.
        let after_both = states.update(from, b.state);
        lemma_pipeline_in_order(layers, after_both, from + 1, a.keys, b.keys);
        let first_down = run_from(layers, after_both, from + 1, a.keys);
        lemma_upper_layers_untouched(layers, after_a, from + 1, a.keys, from, b.state);
        assert(after_a.update(from, b.state) =~= after_both);
        assert(first_down.states =~= after_b);
    } else {
        assert(run_from(layers, one.states, from, second).keys == second);
    }
}

/// A configuration whose layers all have no rules, run without an
/// emergency stop key over key events, writes exactly what it reads: for
/// every event its key, as a press for a first press or an auto-repeat and
/// as a release otherwise, with the time of the event.
pub proof fn lemma_empty_config_round_trip(
    layers: Seq<RemapLayer>,
    states: Seq<RecorderState>,
    events: Seq<Event>,
)
    requires
        states.len() == layers.len(),
        forall|i: int|
            0 <= i < layers.len() ==> {
                &&& (#[trigger] layers[i]).singles().len() == 0
                &&& layers[i].pairs().len() == 0
            },
        forall|i: int| 0 <= i < states.len() ==> (#[trigger] states[i]).waiting_key is None,
        forall|i: int|
            0 <= i < events.len() ==> (#[trigger] events[i]) is Input && events[i]->Input_0.event_type
                == EV_KEY,
    ensures
        !trace_run(layers, None, states, events).stopped,
        trace_run(layers, None, states, events).states == states,
        trace_run(layers, None, states, events).flushes == Seq::<LayerFlush>::empty(),
        trace_run(layers, None, states, events).keys == Seq::new(
            events.len(),
            |i: int|
                TimedKeyInput {
                    input: KeyInput(
                        Key(events[i]->Input_0.code),
                        KeyInputKind::of_value(events[i]->Input_0.value),
                    ),
                    time: events[i]->Input_0.time,
                },
        ),
    decreases events.len(),
{
    let written = Seq::new(
        events.len(),
        |i: int|
            TimedKeyInput {
                input: KeyInput(
                    Key(events[i]->Input_0.code),
                    KeyInputKind::of_value(events[i]->Input_0.value),
                ),
                time: events[i]->Input_0.time,
            },
    );
    if events.len() > 0 {
        let shorter = events.drop_last();
        lemma_empty_config_round_trip(layers, states, shorter);
        let raw = events.last()->Input_0;
        let key = TimedKeyInput {
            input: KeyInput(Key(raw.code), KeyInputKind::of_value(raw.value)),
            time: raw.time,
        };
        lemma_empty_pipeline_round_trip(layers, states, 0, seq![key]);
        let before = trace_run(layers, None, states, shorter);
        assert(before.keys + seq![key] =~= written);
        assert(before.flushes + Seq::<LayerFlush>::empty() =~= Seq::<LayerFlush>::empty());
    } else {
        assert(written =~= Seq::<TimedKeyInput>::empty());
    }
}


/// After the end of the input no layer holds a press: once the layers from
/// the top down have given up their waiting presses, nothing is waiting
/// anywhere in the chain.
pub proof fn lemma_close_leaves_nothing_waiting(
    layers: Seq<RemapLayer>,
    states: Seq<RecorderState>,
    from: int,
)
    requires
        0 <= from,
        states.len() == layers.len(),
        forall|j: int| 0 <= j < from && j < states.len() ==> (#[trigger] states[j]).waiting_key is None,
    ensures
        close_from(layers, states, from).states.len() == states.len(),
        forall|j: int|
            0 <= j < states.len() ==> (#[trigger] close_from(
                layers,
                states,
                from,
            ).states[j]).waiting_key is None,
    decreases layers.len() - from,
{
    if from < layers.len() {
        let step = layers[from].on_close(states[from]);
        let next = states.update(from, step.next);
        let down = run_from(layers, next, from + 1, step.keys);
        lemma_run_keeps_the_number_of_states(layers, next, from + 1, step.keys);
        assert forall|j: int| 0 <= j < from + 1 && j < down.states.len() implies (
        #[trigger] down.states[j]).waiting_key is None by {
            assert(down.states[j] == next[j]);
            if j < from {
                assert(next[j] == states[j]);
            }
        }
        lemma_close_leaves_nothing_waiting(layers, down.states, from + 1);
    }
}

/// The end of the input changes nothing in a chain that holds no press,
/// and writes nothing.
pub proof fn lemma_close_with_nothing_waiting(
    layers: Seq<RemapLayer>,
    states: Seq<RecorderState>,
    from: int,
)
    requires
        0 <= from,
        states.len() == layers.len(),
        forall|j: int| 0 <= j < states.len() ==> (#[trigger] states[j]).waiting_key is None,
    ensures
        close_from(layers, states, from).states == states,
        close_from(layers, states, from).keys == Seq::<TimedKeyInput>::empty(),
        close_from(layers, states, from).flushes == Seq::<LayerFlush>::empty(),
    decreases layers.len() - from,
{
    if from < layers.len() {
        let step = layers[from].on_close(states[from]);
        assert(states.update(from, step.next) =~= states);
        lemma_nothing_in_nothing_out(layers, states, from + 1);
        lemma_close_with_nothing_waiting(layers, states, from + 1);
        let down = run_from(layers, states, from + 1, Seq::<TimedKeyInput>::empty());
        let below = close_from(layers, states, from + 1);
        assert(down.keys + below.keys =~= Seq::<TimedKeyInput>::empty());
        assert(down.flushes + below.flushes =~= Seq::<LayerFlush>::empty());
    }
}

/// A chain that is given no event does nothing.
pub proof fn lemma_nothing_in_nothing_out(
    layers: Seq<RemapLayer>,
    states: Seq<RecorderState>,
    from: int,
)
    requires
        0 <= from,
        states.len() == layers.len(),
    ensures
        run_from(layers, states, from, Seq::empty()).states == states,
        run_from(layers, states, from, Seq::empty()).keys == Seq::<TimedKeyInput>::empty(),
        run_from(layers, states, from, Seq::empty()).flushes == Seq::<LayerFlush>::empty(),
    decreases layers.len() - from,
{
    if from < layers.len() {
        let here = layers[from].run(states[from], Seq::empty());
        assert(states.update(from, here.state) =~= states);
        lemma_nothing_in_nothing_out(layers, states, from + 1);
        assert(flushes_of_layer(from, here.flushes) =~= Seq::<LayerFlush>::empty());
        assert(run_from(layers, states, from, Seq::empty()).flushes =~= Seq::<LayerFlush>::empty());
    }
}

} // verus!
