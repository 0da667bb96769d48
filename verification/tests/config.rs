use kiri::{
    AddLayer, ConfigError, EmptyLayer, Key, KeyConfig, KeyInput, LayerChain, LayerError, RemapLayer,
    RemapLayers, SingleRemapEntry, TimedKeyInput, Timestamp, ToKeyRecorder,
};

const A: Key = Key(30);
const B: Key = Key(48);
const C: Key = Key(46);
const ESC: Key = Key(1);
const CALC: Key = Key(140);

fn remap(name: &'static str, from: Key, to: Key) -> RemapLayer {
    RemapLayer {
        pair_remap_entries: vec![],
        single_remap_entries: vec![SingleRemapEntry {
            condition: 0,
            input: KeyInput::press(from),
            output: vec![KeyInput::press(to)],
            transition: 0,
        }],
        layer_name: name,
        initial_state: 0,
        state_count: 1,
    }
}

fn names(layers: &[RemapLayer]) -> Vec<&'static str> {
    layers.iter().map(|l| l.layer_name).collect()
}

#[test]
fn empty_layer_has_no_layers() {
    assert_eq!(EmptyLayer.into_layers(), vec![]);
    assert_eq!(EmptyLayer::default(), EmptyLayer);
}

#[test]
fn layers_are_added_at_the_end() {
    let chain = EmptyLayer.add_layer(remap("one", A, B)).add_layer(remap("two", B, C));
    assert_eq!(names(&chain.0), vec!["one", "two"]);
    let chain = chain.add_layer(remap("three", C, A));
    assert_eq!(names(&chain.0), vec!["one", "two", "three"]);
    assert_eq!(chain.0[1], remap("two", B, C));
}

#[test]
fn layer_followed_by_layer() {
    let chain = remap("one", A, B).add_layer(remap("two", B, C));
    assert_eq!(chain, RemapLayers(vec![remap("one", A, B), remap("two", B, C)]));
}

#[test]
fn chains_are_joined_end_to_end() {
    let head = EmptyLayer.add_layer(remap("one", A, B)).add_layer(remap("two", B, C));
    let tail = remap("three", C, A).add_layer(remap("four", A, A));
    let chain = head.add_layer(tail);
    assert_eq!(names(&chain.0), vec!["one", "two", "three", "four"]);
}

#[test]
fn adding_nothing_changes_nothing() {
    let chain = remap("one", A, B).add_layer(EmptyLayer);
    assert_eq!(names(&chain.0), vec!["one"]);
    let chain = EmptyLayer.add_layer(EmptyLayer);
    assert_eq!(chain, RemapLayers(vec![]));
}

#[test]
fn default_config_is_empty() {
    let config = KeyConfig::default();
    assert_eq!(config.layers, RemapLayers(vec![]));
    assert_eq!(config.emergency_stop_key, None);
}

#[test]
fn config_takes_layers_and_keeps_its_stop_key() {
    let config = KeyConfig::default()
        .emergency_stop_key(CALC)
        .expect("first stop key")
        .add_layer(remap("one", A, B))
        .add_layer(remap("two", B, C));
    assert_eq!(names(&config.layers.0), vec!["one", "two"]);
    assert_eq!(config.emergency_stop_key, Some(CALC));
    assert_eq!(names(&config.into_layers()), vec!["one", "two"]);
}

#[test]
fn second_emergency_stop_key_is_refused() {
    let config = KeyConfig::default().add_layer(remap("one", A, B)).emergency_stop_key(CALC);
    let config = config.expect("first stop key");
    assert_eq!(config.emergency_stop_key, Some(CALC));
    assert_eq!(config.clone().emergency_stop_key(ESC).err(), Some(ConfigError::SecondEmergencyStopKey));
    assert_eq!(config.emergency_stop_key(CALC).err(), Some(ConfigError::SecondEmergencyStopKey));
}

#[test]
fn single_layer_to_pipeline() {
    let mut p = remap("one", A, B).to_key_recorder().expect("sound");
    assert_eq!(p.len(), 1);
    let out = p.send_key(KeyInput::press(A), Timestamp::from_millis(3));
    assert_eq!(
        out.keys,
        vec![TimedKeyInput { input: KeyInput::press(B), time: Timestamp::from_millis(3) }]
    );
}

#[test]
fn chain_to_pipeline() {
    let chain = remap("one", A, B).add_layer(remap("two", B, C));
    let mut p = chain.to_key_recorder().expect("sound");
    assert_eq!(p.len(), 2);
    let out = p.send_key(KeyInput::press(A), Timestamp::from_millis(3));
    assert_eq!(
        out.keys,
        vec![TimedKeyInput { input: KeyInput::press(C), time: Timestamp::from_millis(3) }]
    );
}

#[test]
fn empty_chain_to_pipeline_is_refused() {
    assert_eq!(RemapLayers(vec![]).to_key_recorder().err(), Some(ConfigError::NoLayers));
    assert_eq!(KeyConfig::default().layers.to_key_recorder().err(), Some(ConfigError::NoLayers));
}

#[test]
fn unsound_layer_to_pipeline_is_refused() {
    let mut bad = remap("bad", A, B);
    bad.single_remap_entries.push(bad.single_remap_entries[0].clone());
    assert_eq!(
        bad.clone().to_key_recorder().err(),
        Some(ConfigError::Layer { layer: 0, error: LayerError::DuplicateSingle(1) })
    );
    let chain = remap("one", A, B).add_layer(bad);
    assert_eq!(
        chain.to_key_recorder().err(),
        Some(ConfigError::Layer { layer: 1, error: LayerError::DuplicateSingle(1) })
    );
}
