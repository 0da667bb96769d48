use kiri::{
    AddLayer, FlushRequest, Key, KeyConfig, KeyInput, KeyRecorder, LayerFlush, LayerOutput,
    PairRemapEntry, Pipeline, PipelineOutput, RemapLayer, Remapper, SingleRemapEntry, TimedKeyInput,
    Timestamp,
};

const A: Key = Key(30);
const B: Key = Key(48);
const J: Key = Key(36);
const K: Key = Key(37);
const Y: Key = Key(21);

fn at(ms: u64) -> Timestamp {
    Timestamp::from_millis(ms)
}

fn ev(input: KeyInput, ms: u64) -> TimedKeyInput {
    TimedKeyInput { input, time: at(ms) }
}

/// Holds `a` and `b` for each other; `a` alone becomes `alone`.
fn chord(name: &'static str, a: Key, b: Key, alone: Key, threshold: u32) -> RemapLayer {
    RemapLayer {
        pair_remap_entries: vec![PairRemapEntry {
            condition: 0,
            input: [a, b],
            output: vec![KeyInput::press(Y)],
            transition: 0,
            threshold,
        }],
        single_remap_entries: vec![SingleRemapEntry {
            condition: 0,
            input: KeyInput::press(a),
            output: vec![KeyInput::press(alone)],
            transition: 0,
        }],
        layer_name: name,
        initial_state: 0,
        state_count: 1,
    }
}

#[test]
fn closing_a_layer_gives_up_the_waiting_press() {
    let mut r = KeyRecorder::new(chord("one", J, K, A, 50)).expect("sound");
    r.send_key(KeyInput::press(J), at(3));
    let out = r.close();
    assert_eq!(out, LayerOutput { keys: vec![ev(KeyInput::press(A), 3)], flush: None });
    assert_eq!(r.waiting_key(), None);
    // Nothing is left for a second call or for the timer.
    assert_eq!(r.close(), LayerOutput { keys: vec![], flush: None });
    assert_eq!(r.fire_specific_waiting_key(J, at(3)), LayerOutput { keys: vec![], flush: None });
}

#[test]
fn closing_a_layer_that_holds_nothing() {
    let mut r = KeyRecorder::new(chord("one", J, K, A, 50)).expect("sound");
    assert_eq!(r.close(), LayerOutput { keys: vec![], flush: None });
    assert_eq!(r.state(), 0);
}

#[test]
fn closing_a_pipeline_empties_every_layer() {
    // The top layer holds J; given up it becomes A, which the bottom layer
    // holds in turn and gives up as B.
    let mut p = Pipeline::new(vec![chord("top", J, K, A, 50), chord("bottom", A, K, B, 20)])
        .expect("sound");
    let out = p.send_key(KeyInput::press(J), at(0));
    assert_eq!(out.keys, vec![]);
    let out = p.close();
    assert_eq!(
        out,
        PipelineOutput {
            keys: vec![ev(KeyInput::press(B), 0)],
            flushes: vec![LayerFlush {
                layer: 1,
                request: FlushRequest { key: A, time: at(0), delay_ms: 20 },
            }],
        }
    );
    // The timers that are still armed find nothing.
    assert_eq!(p.fire_specific_waiting_key(0, J, at(0)), PipelineOutput { keys: vec![], flushes: vec![] });
    assert_eq!(p.fire_specific_waiting_key(1, A, at(0)), PipelineOutput { keys: vec![], flushes: vec![] });
    assert_eq!(p.close(), PipelineOutput { keys: vec![], flushes: vec![] });
}

#[test]
fn closing_a_pipeline_writes_upper_layers_first() {
    let mut p = Pipeline::new(vec![chord("top", J, K, J, 50), chord("bottom", A, K, B, 20)])
        .expect("sound");
    // A passes the top layer and waits in the bottom one; J waits in the top
    // one.
    p.send_key(KeyInput::press(A), at(0));
    p.send_key(KeyInput::press(J), at(5));
    let out = p.close();
    // J comes down first and makes the bottom layer give up A.
    assert_eq!(
        out,
        PipelineOutput { keys: vec![ev(KeyInput::press(B), 0), ev(KeyInput::press(J), 5)], flushes: vec![] }
    );
}

#[test]
fn closing_a_remapper() {
    let config = KeyConfig::default().add_layer(chord("one", J, K, A, 50));
    let mut r = Remapper::new(config).expect("sound");
    assert_eq!(r.close(), PipelineOutput { keys: vec![], flushes: vec![] });
}
