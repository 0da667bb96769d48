use kiri::{
    FlushRequest, Key, KeyInput, KeyRecorder, LayerOutput, PairRemapEntry, RemapLayer,
    SingleRemapEntry, TimedKeyInput, Timestamp, WaitingKey,
};

const A: Key = Key(30);
const J: Key = Key(36);
const K: Key = Key(37);
const X: Key = Key(45);
const Y: Key = Key(21);

const S0: u32 = 0;
const S1: u32 = 1;

fn at(ms: u64) -> Timestamp {
    Timestamp::from_millis(ms)
}

fn ev(input: KeyInput, ms: u64) -> TimedKeyInput {
    TimedKeyInput { input, time: at(ms) }
}

fn scenario_layer() -> RemapLayer {
    RemapLayer {
        pair_remap_entries: vec![PairRemapEntry {
            condition: S0,
            input: [J, K],
            output: vec![KeyInput::press(Y), KeyInput::release(Y)],
            transition: S1,
            threshold: 50,
        }],
        single_remap_entries: vec![SingleRemapEntry {
            condition: S0,
            input: KeyInput::press(A),
            output: vec![KeyInput::press(X), KeyInput::release(X)],
            transition: S0,
        }],
        layer_name: "scenario",
        initial_state: S0,
        state_count: 2,
    }
}

fn recorder() -> KeyRecorder {
    KeyRecorder::new(scenario_layer()).expect("the scenario layer is sound")
}

#[test]
fn plain_single() {
    let mut r = recorder();
    let first = r.send_key(KeyInput::press(A), at(0));
    assert_eq!(
        first,
        LayerOutput {
            keys: vec![ev(KeyInput::press(X), 0), ev(KeyInput::release(X), 0)],
            flush: None,
        }
    );
    let second = r.send_key(KeyInput::release(A), at(10));
    assert_eq!(second, LayerOutput { keys: vec![ev(KeyInput::release(A), 10)], flush: None });
    assert_eq!(r.state(), S0);
    assert_eq!(r.waiting_key(), None);
}

#[test]
fn pair_within_threshold() {
    let mut r = recorder();
    let first = r.send_key(KeyInput::press(J), at(0));
    assert_eq!(
        first,
        LayerOutput {
            keys: vec![],
            flush: Some(FlushRequest { key: J, time: at(0), delay_ms: 50 }),
        }
    );
    assert_eq!(r.waiting_key(), Some(WaitingKey { key: J, time: at(0) }));
    let second = r.send_key(KeyInput::press(K), at(20));
    assert_eq!(
        second,
        LayerOutput {
            keys: vec![ev(KeyInput::press(Y), 20), ev(KeyInput::release(Y), 20)],
            flush: None,
        }
    );
    assert_eq!(r.state(), S1);
    assert_eq!(r.waiting_key(), None);
}

#[test]
fn pair_exceeds_threshold() {
    let mut r = recorder();
    let first = r.send_key(KeyInput::press(J), at(0));
    assert_eq!(first.keys, vec![]);
    assert_eq!(first.flush, Some(FlushRequest { key: J, time: at(0), delay_ms: 50 }));
    // The timer for J comes due at 50 ms, before K arrives.
    let due = r.fire_specific_waiting_key(J, at(0));
    assert_eq!(due, LayerOutput { keys: vec![ev(KeyInput::press(J), 0)], flush: None });
    let second = r.send_key(KeyInput::press(K), at(60));
    assert_eq!(
        second,
        LayerOutput {
            keys: vec![],
            flush: Some(FlushRequest { key: K, time: at(60), delay_ms: 50 }),
        }
    );
    assert_eq!(r.waiting_key(), Some(WaitingKey { key: K, time: at(60) }));
    // The timer for K comes due at 110 ms.
    let last = r.fire_specific_waiting_key(K, at(60));
    assert_eq!(last, LayerOutput { keys: vec![ev(KeyInput::press(K), 60)], flush: None });
    assert_eq!(r.state(), S0);
    assert_eq!(r.waiting_key(), None);
}

#[test]
fn pair_exceeds_threshold_without_timer() {
    // The same two presses when the first timer has not come due yet: the
    // second press gives up the first and waits in its place.
    let mut r = recorder();
    r.send_key(KeyInput::press(J), at(0));
    let second = r.send_key(KeyInput::press(K), at(60));
    assert_eq!(
        second,
        LayerOutput {
            keys: vec![ev(KeyInput::press(J), 0)],
            flush: Some(FlushRequest { key: K, time: at(60), delay_ms: 50 }),
        }
    );
    assert_eq!(r.state(), S0);
    assert_eq!(r.waiting_key(), Some(WaitingKey { key: K, time: at(60) }));
}

#[test]
fn interleaved_non_pair_key() {
    let mut r = recorder();
    r.send_key(KeyInput::press(J), at(0));
    let second = r.send_key(KeyInput::press(A), at(10));
    assert_eq!(
        second,
        LayerOutput {
            keys: vec![
                ev(KeyInput::press(J), 0),
                ev(KeyInput::press(X), 10),
                ev(KeyInput::release(X), 10),
            ],
            flush: None,
        }
    );
    assert_eq!(r.waiting_key(), None);
}

#[test]
fn flush_race() {
    let mut r = recorder();
    r.send_key(KeyInput::press(J), at(0));
    let second = r.send_key(KeyInput::press(K), at(20));
    assert_eq!(second.keys, vec![ev(KeyInput::press(Y), 20), ev(KeyInput::release(Y), 20)]);
    // The timer armed for J at 0 ms arrives after the pair has fired.
    let stale = r.fire_specific_waiting_key(J, at(0));
    assert_eq!(stale, LayerOutput { keys: vec![], flush: None });
    assert_eq!(r.state(), S1);
    assert_eq!(r.waiting_key(), None);
}
