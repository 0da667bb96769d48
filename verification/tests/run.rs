use kiri::index::{first_code_of, pair_code_of, single_code_of};
use kiri::{
    is_keyboard, read_event, AddLayer, ConfigError, Event, FlushRequest, Key, KeyConfig,
    KeyConfigRun, KeyInput, KeyInputKind, LayerError, LayerFlush, PairRemapEntry, RawEvent,
    ReaderAction, RemapLayer, Remapper, SingleRemapEntry, TimedKeyInput, Timestamp, TraceOutput,
};

const EV_SYN: u16 = 0;
const EV_KEY: u16 = 1;
const EV_REL: u16 = 2;
const EV_MSC: u16 = 4;

const A: Key = Key(30);
const B: Key = Key(48);
const J: Key = Key(36);
const K: Key = Key(37);
const Y: Key = Key(21);
const Z: Key = Key(44);
const SPACE: Key = Key(57);
const CALC: Key = Key(140);

fn at(ms: u64) -> Timestamp {
    Timestamp::from_millis(ms)
}

fn ev(input: KeyInput, ms: u64) -> TimedKeyInput {
    TimedKeyInput { input, time: at(ms) }
}

fn raw(event_type: u16, code: u16, value: i32, ms: u64) -> RawEvent {
    RawEvent { event_type, code, value, time: at(ms) }
}

fn key_event(key: Key, value: i32, ms: u64) -> Event {
    Event::Input(raw(EV_KEY, key.0, value, ms))
}

fn timer(layer: usize, key: Key, ms: u64, delay_ms: u32) -> LayerFlush {
    LayerFlush { layer, request: FlushRequest { key, time: at(ms), delay_ms } }
}

fn chord_layer() -> RemapLayer {
    RemapLayer {
        pair_remap_entries: vec![PairRemapEntry {
            condition: 0,
            input: [J, K],
            output: vec![KeyInput::press(Y), KeyInput::release(Y)],
            transition: 0,
            threshold: 50,
        }],
        single_remap_entries: vec![SingleRemapEntry {
            condition: 0,
            input: KeyInput::press(A),
            output: vec![KeyInput::press(B)],
            transition: 0,
        }],
        layer_name: "chords",
        initial_state: 0,
        state_count: 1,
    }
}

fn config() -> KeyConfig {
    KeyConfig::default().add_layer(chord_layer()).emergency_stop_key(CALC).expect("one stop key")
}

#[test]
fn events_that_are_not_key_events_are_ignored() {
    assert_eq!(read_event(None, &raw(EV_SYN, 0, 0, 0)), ReaderAction::Ignore);
    assert_eq!(read_event(Some(A), &raw(EV_REL, A.0, 1, 0)), ReaderAction::Ignore);
    assert_eq!(read_event(Some(A), &raw(EV_MSC, 4, 458756, 0)), ReaderAction::Ignore);
    assert_eq!(read_event(Some(A), &raw(u16::MAX, A.0, 1, 0)), ReaderAction::Ignore);
}

#[test]
fn key_events_are_submitted_with_their_kind() {
    assert_eq!(
        read_event(None, &raw(EV_KEY, A.0, 1, 0)),
        ReaderAction::Submit(KeyInput(A, KeyInputKind::Press))
    );
    assert_eq!(
        read_event(None, &raw(EV_KEY, A.0, 2, 0)),
        ReaderAction::Submit(KeyInput(A, KeyInputKind::Press))
    );
    assert_eq!(
        read_event(None, &raw(EV_KEY, A.0, 0, 0)),
        ReaderAction::Submit(KeyInput(A, KeyInputKind::Release))
    );
    assert_eq!(
        read_event(Some(CALC), &raw(EV_KEY, A.0, 7, 0)),
        ReaderAction::Submit(KeyInput(A, KeyInputKind::Release))
    );
}

#[test]
fn first_press_of_the_stop_key_stops() {
    assert_eq!(read_event(Some(CALC), &raw(EV_KEY, CALC.0, 1, 0)), ReaderAction::Stop);
}

#[test]
fn repeat_and_release_of_the_stop_key_do_not_stop() {
    assert_eq!(
        read_event(Some(CALC), &raw(EV_KEY, CALC.0, 2, 0)),
        ReaderAction::Submit(KeyInput::press(CALC))
    );
    assert_eq!(
        read_event(Some(CALC), &raw(EV_KEY, CALC.0, 0, 0)),
        ReaderAction::Submit(KeyInput::release(CALC))
    );
}

#[test]
fn without_a_stop_key_nothing_stops() {
    assert_eq!(
        read_event(None, &raw(EV_KEY, CALC.0, 1, 0)),
        ReaderAction::Submit(KeyInput::press(CALC))
    );
}

#[test]
fn keyboard_has_a_z_and_space() {
    assert!(is_keyboard(&vec![A, Z, SPACE]));
    assert!(is_keyboard(&vec![SPACE, J, Z, K, A, A]));
    assert!(!is_keyboard(&vec![]));
    assert!(!is_keyboard(&vec![A, Z]));
    assert!(!is_keyboard(&vec![A, SPACE]));
    assert!(!is_keyboard(&vec![Z, SPACE]));
    assert!(!is_keyboard(&vec![Key(272), Key(273), Key(274)]));
}

#[test]
fn codes_tell_states_keys_and_kinds_apart() {
    let inputs = [
        (0u32, KeyInput::press(A)),
        (0, KeyInput::release(A)),
        (0, KeyInput::press(B)),
        (1, KeyInput::press(A)),
        (u32::MAX, KeyInput::press(Key(u16::MAX))),
        (u32::MAX, KeyInput::release(Key(u16::MAX))),
        (u32::MAX, KeyInput::press(Key(0))),
        (0, KeyInput::press(Key(u16::MAX))),
    ];
    for (i, a) in inputs.iter().enumerate() {
        for (j, b) in inputs.iter().enumerate() {
            assert_eq!(single_code_of(a.0, a.1) == single_code_of(b.0, b.1), i == j);
        }
    }
    assert_eq!(single_code_of(0, KeyInput::release(Key(0))), 0);
    assert_eq!(single_code_of(3, KeyInput::press(A)), 3 * 0x20000 + 30 * 2 + 1);
    assert_eq!(first_code_of(3, A), 3 * 0x10000 + 30);
    assert_ne!(first_code_of(0, Key(u16::MAX)), first_code_of(1, Key(0)));
}

#[test]
fn pair_codes_ignore_the_order_of_the_keys() {
    assert_eq!(pair_code_of(2, J, K), pair_code_of(2, K, J));
    assert_eq!(pair_code_of(2, J, K), 2 * 0x1_0000_0000 + 36 * 0x1_0000 + 37);
    assert_ne!(pair_code_of(2, J, K), pair_code_of(3, J, K));
    assert_ne!(pair_code_of(2, J, K), pair_code_of(2, J, A));
    assert_ne!(pair_code_of(0, Key(1), Key(0)), pair_code_of(0, Key(0), Key(0x100)));
    assert_eq!(
        pair_code_of(u32::MAX, Key(u16::MAX), Key(u16::MAX)),
        u64::MAX
    );
}

#[test]
fn remapper_handles_input_and_timers() {
    let mut r = Remapper::new(config()).expect("sound");
    let out = r.handle(&key_event(A, 1, 0)).expect("not stopped");
    assert_eq!(out.keys, vec![ev(KeyInput::press(B), 0)]);
    assert_eq!(out.flushes, vec![]);
    let out = r.handle(&Event::Input(raw(EV_SYN, 0, 0, 0))).expect("not stopped");
    assert_eq!(out.keys, vec![]);
    assert_eq!(out.flushes, vec![]);
    let out = r.handle(&key_event(J, 1, 10)).expect("not stopped");
    assert_eq!(out.keys, vec![]);
    assert_eq!(out.flushes, vec![timer(0, J, 10, 50)]);
    let out = r.handle(&Event::Timer(timer(0, J, 10, 50))).expect("not stopped");
    assert_eq!(out.keys, vec![ev(KeyInput::press(J), 10)]);
    assert_eq!(out.flushes, vec![]);
    assert!(r.handle(&key_event(CALC, 1, 20)).is_none());
}

#[test]
fn remapper_refuses_what_the_pipeline_refuses() {
    assert_eq!(Remapper::new(KeyConfig::default()).err(), Some(ConfigError::NoLayers));
    let mut bad = chord_layer();
    bad.pair_remap_entries[0].input = [J, J];
    let config = KeyConfig::default().add_layer(chord_layer()).add_layer(bad);
    assert_eq!(
        Remapper::new(config).err(),
        Some(ConfigError::Layer { layer: 1, error: LayerError::PairOfOneKey(0) })
    );
}

#[test]
fn run_over_a_trace() {
    let trace = vec![
        key_event(A, 1, 0),
        key_event(A, 0, 5),
        Event::Input(raw(EV_SYN, 0, 0, 5)),
        key_event(J, 1, 10),
        key_event(K, 1, 30),
        Event::Timer(timer(0, J, 10, 50)),
        key_event(K, 1, 100),
        Event::Timer(timer(0, K, 100, 50)),
        key_event(K, 0, 160),
    ];
    let out = config().run(&trace).expect("sound");
    assert_eq!(
        out,
        TraceOutput {
            keys: vec![
                ev(KeyInput::press(B), 0),
                ev(KeyInput::release(A), 5),
                ev(KeyInput::press(Y), 30),
                ev(KeyInput::release(Y), 30),
                ev(KeyInput::press(K), 100),
                ev(KeyInput::release(K), 160),
            ],
            flushes: vec![timer(0, J, 10, 50), timer(0, K, 100, 50)],
            stopped: false,
        }
    );
}

#[test]
fn run_ends_at_the_stop_key() {
    let trace = vec![
        key_event(A, 1, 0),
        key_event(J, 1, 10),
        key_event(CALC, 1, 20),
        key_event(A, 1, 30),
        Event::Timer(timer(0, J, 10, 50)),
    ];
    let out = config().run(&trace).expect("sound");
    assert_eq!(
        out,
        TraceOutput {
            keys: vec![ev(KeyInput::press(B), 0)],
            flushes: vec![timer(0, J, 10, 50)],
            stopped: true,
        }
    );
}

#[test]
fn run_without_events() {
    let out = config().run(&vec![]).expect("sound");
    assert_eq!(out, TraceOutput { keys: vec![], flushes: vec![], stopped: false });
}

#[test]
fn run_stops_at_once() {
    let out = config().run(&vec![key_event(CALC, 1, 0)]).expect("sound");
    assert_eq!(out, TraceOutput { keys: vec![], flushes: vec![], stopped: true });
}

#[test]
fn run_of_empty_layers_writes_what_it_reads() {
    let config = KeyConfig::default()
        .add_layer(RemapLayer::default())
        .add_layer(RemapLayer::default());
    let trace = vec![
        key_event(A, 1, 0),
        key_event(J, 1, 1),
        key_event(J, 2, 40),
        key_event(A, 0, 41),
        key_event(CALC, 1, 42),
        key_event(J, 0, 43),
    ];
    let out = config.run(&trace).expect("sound");
    assert_eq!(
        out,
        TraceOutput {
            keys: vec![
                ev(KeyInput::press(A), 0),
                ev(KeyInput::press(J), 1),
                ev(KeyInput::press(J), 40),
                ev(KeyInput::release(A), 41),
                ev(KeyInput::press(CALC), 42),
                ev(KeyInput::release(J), 43),
            ],
            flushes: vec![],
            stopped: false,
        }
    );
}

#[test]
fn run_refuses_what_the_pipeline_refuses() {
    assert_eq!(KeyConfig::default().run(&vec![key_event(A, 1, 0)]).err(), Some(ConfigError::NoLayers));
    let mut bad = chord_layer();
    bad.state_count = 0;
    assert_eq!(
        KeyConfig::default().add_layer(bad).run(&vec![]).err(),
        Some(ConfigError::Layer { layer: 0, error: LayerError::UnknownInitialState })
    );
}
