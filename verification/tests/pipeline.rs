use kiri::{
    ConfigError, FlushRequest, Key, KeyInput, LayerError, LayerFlush, PairRemapEntry, Pipeline,
    PipelineOutput, RemapLayer, SingleRemapEntry, TimedKeyInput, Timestamp,
};

const A: Key = Key(30);
const B: Key = Key(48);
const C: Key = Key(46);
const J: Key = Key(36);
const K: Key = Key(37);
const Y: Key = Key(21);

fn at(ms: u64) -> Timestamp {
    Timestamp::from_millis(ms)
}

fn ev(input: KeyInput, ms: u64) -> TimedKeyInput {
    TimedKeyInput { input, time: at(ms) }
}

fn remap(name: &'static str, from: Key, to: Key) -> RemapLayer {
    RemapLayer {
        pair_remap_entries: vec![],
        single_remap_entries: vec![SingleRemapEntry {
            condition: 0,
            input: KeyInput::press(from),
            output: vec![KeyInput::press(to)],
            transition: 0,
        }],
        layer_name: name,
        initial_state: 0,
        state_count: 1,
    }
}

fn chord(name: &'static str, a: Key, b: Key, to: Key, threshold: u32) -> RemapLayer {
    RemapLayer {
        pair_remap_entries: vec![PairRemapEntry {
            condition: 0,
            input: [a, b],
            output: vec![KeyInput::press(to)],
            transition: 0,
            threshold,
        }],
        single_remap_entries: vec![],
        layer_name: name,
        initial_state: 0,
        state_count: 1,
    }
}

fn empty(name: &'static str) -> RemapLayer {
    RemapLayer { layer_name: name, ..RemapLayer::default() }
}

fn lf(layer: usize, key: Key, ms: u64, delay_ms: u32) -> LayerFlush {
    LayerFlush { layer, request: FlushRequest { key, time: at(ms), delay_ms } }
}

#[test]
fn two_layer_composition() {
    let mut p = Pipeline::new(vec![remap("L1", A, B), remap("L2", B, C)]).expect("sound");
    assert_eq!(p.len(), 2);
    let out = p.send_key(KeyInput::press(A), at(0));
    assert_eq!(out, PipelineOutput { keys: vec![ev(KeyInput::press(C), 0)], flushes: vec![] });
}

#[test]
fn lower_layer_sees_only_what_the_upper_layer_passes() {
    let mut p = Pipeline::new(vec![remap("L1", A, B), remap("L2", A, C)]).expect("sound");
    // A never reaches the second layer: it has become B.
    let out = p.send_key(KeyInput::press(A), at(0));
    assert_eq!(out.keys, vec![ev(KeyInput::press(B), 0)]);
    let out = p.send_key(KeyInput::release(A), at(1));
    assert_eq!(out.keys, vec![ev(KeyInput::release(A), 1)]);
}

#[test]
fn empty_layers_round_trip() {
    let mut p = Pipeline::new(vec![empty("a"), empty("b"), empty("c")]).expect("sound");
    let stream = vec![
        ev(KeyInput::press(A), 0),
        ev(KeyInput::press(J), 1),
        ev(KeyInput::release(A), 2),
        ev(KeyInput::press(K), 3),
        ev(KeyInput::release(K), 3),
        ev(KeyInput::release(J), 900),
    ];
    let mut written = Vec::new();
    for e in &stream {
        let out = p.send_key(e.input, e.time);
        assert_eq!(out.flushes, vec![]);
        written.extend(out.keys);
    }
    assert_eq!(written, stream);
}

#[test]
fn no_layers_is_refused() {
    assert_eq!(Pipeline::new(vec![]).err(), Some(ConfigError::NoLayers));
}

#[test]
fn first_unsound_layer_is_reported() {
    let mut bad = remap("bad", A, B);
    bad.initial_state = 1;
    let mut worse = chord("worse", J, J, Y, 10);
    worse.state_count = 0;
    let r = Pipeline::new(vec![empty("ok"), bad, worse]);
    assert_eq!(
        r.err(),
        Some(ConfigError::Layer { layer: 1, error: LayerError::UnknownInitialState })
    );
}

#[test]
fn unsound_last_layer_is_reported() {
    let r = Pipeline::new(vec![empty("ok"), remap("ok too", A, B), chord("bad", J, J, Y, 10)]);
    assert_eq!(r.err(), Some(ConfigError::Layer { layer: 2, error: LayerError::PairOfOneKey(0) }));
}

#[test]
fn timers_name_their_layer() {
    let mut p =
        Pipeline::new(vec![remap("top", A, J), chord("middle", J, K, Y, 50), empty("bottom")])
            .expect("sound");
    let out = p.send_key(KeyInput::press(A), at(0));
    assert_eq!(out, PipelineOutput { keys: vec![], flushes: vec![lf(1, J, 0, 50)] });
    let out = p.send_key(KeyInput::press(K), at(20));
    assert_eq!(out, PipelineOutput { keys: vec![ev(KeyInput::press(Y), 20)], flushes: vec![] });
}

#[test]
fn timer_enters_its_own_layer_and_runs_down() {
    let mut p = Pipeline::new(vec![chord("top", J, K, Y, 50), remap("bottom", J, C)]).expect("sound");
    let out = p.send_key(KeyInput::press(J), at(0));
    assert_eq!(out, PipelineOutput { keys: vec![], flushes: vec![lf(0, J, 0, 50)] });
    // The timer names the wrong layer: the bottom layer holds nothing.
    let out = p.fire_specific_waiting_key(1, J, at(0));
    assert_eq!(out, PipelineOutput { keys: vec![], flushes: vec![] });
    // The right layer: J is given up and the bottom layer turns it into C.
    let out = p.fire_specific_waiting_key(0, J, at(0));
    assert_eq!(out, PipelineOutput { keys: vec![ev(KeyInput::press(C), 0)], flushes: vec![] });
    // The same timer once more finds nothing.
    let out = p.fire_specific_waiting_key(0, J, at(0));
    assert_eq!(out, PipelineOutput { keys: vec![], flushes: vec![] });
}

#[test]
fn timer_for_a_layer_that_is_not_there() {
    let mut p = Pipeline::new(vec![chord("only", J, K, Y, 50)]).expect("sound");
    p.send_key(KeyInput::press(J), at(0));
    let out = p.fire_specific_waiting_key(1, J, at(0));
    assert_eq!(out, PipelineOutput { keys: vec![], flushes: vec![] });
    let out = p.fire_specific_waiting_key(usize::MAX, J, at(0));
    assert_eq!(out, PipelineOutput { keys: vec![], flushes: vec![] });
    let out = p.fire_specific_waiting_key(0, J, at(0));
    assert_eq!(out.keys, vec![ev(KeyInput::press(J), 0)]);
}

#[test]
fn upper_timer_output_can_start_a_lower_wait() {
    let mut p = Pipeline::new(vec![chord("top", A, B, C, 20), chord("bottom", A, J, Y, 70)])
        .expect("sound");
    let out = p.send_key(KeyInput::press(A), at(0));
    assert_eq!(out, PipelineOutput { keys: vec![], flushes: vec![lf(0, A, 0, 20)] });
    // When the upper timer comes due, A reaches the lower layer, which holds
    // it in turn.
    let out = p.fire_specific_waiting_key(0, A, at(0));
    assert_eq!(out, PipelineOutput { keys: vec![], flushes: vec![lf(1, A, 0, 70)] });
    let out = p.send_key(KeyInput::press(J), at(60));
    assert_eq!(out, PipelineOutput { keys: vec![ev(KeyInput::press(Y), 60)], flushes: vec![] });
}

#[test]
fn one_event_can_ask_for_several_timers() {
    // The top layer turns A into J, B and K. The bottom layer holds J, gives
    // it up for B, and then holds K.
    let top = RemapLayer {
        pair_remap_entries: vec![],
        single_remap_entries: vec![SingleRemapEntry {
            condition: 0,
            input: KeyInput::press(A),
            output: vec![KeyInput::press(J), KeyInput::press(B), KeyInput::press(K)],
            transition: 0,
        }],
        layer_name: "top",
        initial_state: 0,
        state_count: 1,
    };
    let mut p = Pipeline::new(vec![top, chord("bottom", J, K, Y, 50)]).expect("sound");
    let out = p.send_key(KeyInput::press(A), at(5));
    assert_eq!(
        out,
        PipelineOutput {
            keys: vec![ev(KeyInput::press(J), 5), ev(KeyInput::press(B), 5)],
            flushes: vec![lf(1, J, 5, 50), lf(1, K, 5, 50)],
        }
    );
    let out = p.fire_specific_waiting_key(1, J, at(5));
    assert_eq!(out, PipelineOutput { keys: vec![], flushes: vec![] });
    let out = p.fire_specific_waiting_key(1, K, at(5));
    assert_eq!(out, PipelineOutput { keys: vec![ev(KeyInput::press(K), 5)], flushes: vec![] });
}

#[test]
fn layers_keep_their_own_state() {
    let toggle = |name: &'static str, key: Key, to: Key| RemapLayer {
        pair_remap_entries: vec![],
        single_remap_entries: vec![
            SingleRemapEntry {
                condition: 0,
                input: KeyInput::press(key),
                output: vec![KeyInput::press(to)],
                transition: 1,
            },
            SingleRemapEntry {
                condition: 1,
                input: KeyInput::press(key),
                output: vec![],
                transition: 0,
            },
        ],
        layer_name: name,
        initial_state: 0,
        state_count: 2,
    };
    let mut p = Pipeline::new(vec![toggle("one", A, B), toggle("two", B, C)]).expect("sound");
    let mut seen = Vec::new();
    for i in 0..8 {
        seen.push(p.send_key(KeyInput::press(A), at(i)).keys);
    }
    // The top layer passes B on every other press of A, and the bottom layer
    // passes C on every other B.
    assert_eq!(
        seen,
        vec![
            vec![ev(KeyInput::press(C), 0)],
            vec![],
            vec![],
            vec![],
            vec![ev(KeyInput::press(C), 4)],
            vec![],
            vec![],
            vec![],
        ]
    );
}
