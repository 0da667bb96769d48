//! Putting a configuration together: layers in order, and the key that
//! stops the remapper.

use crate::keys::Key;
use crate::layer::RemapLayer;
use crate::pipeline::{chain_violation, start_states, ConfigError, Pipeline};
use vstd::prelude::*;

verus! {

/// A chain without a layer: where a configuration starts.
#[derive(PartialEq, Eq, Structural, Clone, Copy, Debug, Default)]
pub struct EmptyLayer;

/// Layers in the order in which events pass through them.
#[derive(PartialEq, Eq, Clone, Debug)]
pub struct RemapLayers(pub Vec<RemapLayer>);

/// Layers and the emergency stop key.
#[derive(PartialEq, Eq, Clone, Debug)]
pub struct KeyConfig {
    pub layers: RemapLayers,
    pub emergency_stop_key: Option<Key>,
}

/// An ordered chain of layers.
pub trait LayerChain: Sized {
    /// The layers of the chain, in order.
    spec fn layer_seq(&self) -> Seq<RemapLayer>;

    /// The layers of the chain, in order.
    fn into_layers(self) -> (layers: Vec<RemapLayer>)
        ensures
            layers@ == self.layer_seq(),
    ;
}

/// Chains of layers that can be made longer.
pub trait AddLayer: LayerChain {
    /// What the chain becomes when layers are added to it.
    type LayerAdded: LayerChain;

    /// The chain followed by the layers of `tail`.
    fn add_layer<T: LayerChain>(self, tail: T) -> (added: Self::LayerAdded)
        ensures
            added.layer_seq() == self.layer_seq() + tail.layer_seq(),
    ;
}

impl LayerChain for EmptyLayer {
    open spec fn layer_seq(&self) -> Seq<RemapLayer> {
        Seq::empty()
    }

    fn into_layers(self) -> (layers: Vec<RemapLayer>) {
        Vec::new()
    }
}

impl LayerChain for RemapLayer {
    open spec fn layer_seq(&self) -> Seq<RemapLayer> {
        seq![*self]
    }

    fn into_layers(self) -> (layers: Vec<RemapLayer>) {
        let mut layers: Vec<RemapLayer> = Vec::new();
        layers.push(self);
        assert(layers@ =~= seq![self]);
        layers
    }
}

impl LayerChain for RemapLayers {
    open spec fn layer_seq(&self) -> Seq<RemapLayer> {
        self.0@
    }

    fn into_layers(self) -> (layers: Vec<RemapLayer>) {
        self.0
    }
}

impl LayerChain for KeyConfig {
    open spec fn layer_seq(&self) -> Seq<RemapLayer> {
        self.layers.0@
    }

    fn into_layers(self) -> (layers: Vec<RemapLayer>) {
        self.layers.0
    }
}

impl AddLayer for EmptyLayer {
    type LayerAdded = RemapLayers;

    fn add_layer<T: LayerChain>(self, tail: T) -> (added: RemapLayers) {
        let layers = tail.into_layers();
        assert(Seq::<RemapLayer>::empty() + layers@ =~= layers@);
        RemapLayers(layers)
    }
}

impl AddLayer for RemapLayer {
    type LayerAdded = RemapLayers;

    fn add_layer<T: LayerChain>(self, tail: T) -> (added: RemapLayers) {
        let mut layers = self.into_layers();
        let mut rest = tail.into_layers();
        layers.append(&mut rest);
        RemapLayers(layers)
    }
}

impl AddLayer for RemapLayers {
    type LayerAdded = RemapLayers;

    fn add_layer<T: LayerChain>(self, tail: T) -> (added: RemapLayers) {
        let mut layers = self.0;
        let mut rest = tail.into_layers();
        layers.append(&mut rest);
        RemapLayers(layers)
    }
}

impl AddLayer for KeyConfig {
    type LayerAdded = KeyConfig;

    /// The emergency stop key stays as it is.
    fn add_layer<T: LayerChain>(self, tail: T) -> (added: KeyConfig)
        ensures
            added.emergency_stop_key == self.emergency_stop_key,
    {
        KeyConfig {
            layers: self.layers.add_layer(tail),
            emergency_stop_key: self.emergency_stop_key,
        }
    }
}

impl Default for KeyConfig {
    /// The configuration without a layer and without an emergency stop
    /// key.
    fn default() -> (config: KeyConfig)
        ensures
            config.layers.0@.len() == 0,
            config.emergency_stop_key is None,
    {
        KeyConfig { layers: RemapLayers(Vec::new()), emergency_stop_key: None }
    }
}

impl KeyConfig {
    /// Names `key` as the emergency stop key. A configuration takes one
    /// such key: a second one is refused.
    pub fn emergency_stop_key(self, key: Key) -> (r: Result<KeyConfig, ConfigError>)
        ensures
            match r {
                Ok(config) => {
                    &&& self.emergency_stop_key is None
                    &&& config.emergency_stop_key == Some(key)
                    &&& config.layers == self.layers
                },
                Err(e) => self.emergency_stop_key is Some && e == ConfigError::SecondEmergencyStopKey,
            },
    {
        if self.emergency_stop_key.is_some() {
            return Err(ConfigError::SecondEmergencyStopKey);
        }
        Ok(KeyConfig { layers: self.layers, emergency_stop_key: Some(key) })
    }
}

/// Chains of layers that can be set to work.
pub trait ToKeyRecorder: Sized {
    /// The layers of the chain, in order.
    spec fn chain(&self) -> Seq<RemapLayer>;

    /// Builds the pipeline of the chain, every layer in its initial state.
    /// Refuses an empty chain and a chain with a layer that is not sound,
    /// with the reason.
    fn to_key_recorder(self) -> (r: Result<Pipeline, ConfigError>)
        ensures
            match r {
                Ok(pipeline) => {
                    &&& chain_violation(self.chain()) is None
                    &&& pipeline.wf()
                    &&& pipeline.layers() == self.chain()
                    &&& pipeline@ == start_states(self.chain())
                },
                Err(e) => chain_violation(self.chain()) == Some(e),
            },
    ;
}

impl ToKeyRecorder for RemapLayer {
    open spec fn chain(&self) -> Seq<RemapLayer> {
        seq![*self]
    }

    fn to_key_recorder(self) -> (r: Result<Pipeline, ConfigError>) {
        Pipeline::new(self.into_layers())
    }
}

impl ToKeyRecorder for RemapLayers {
    open spec fn chain(&self) -> Seq<RemapLayer> {
        self.0@
    }

    fn to_key_recorder(self) -> (r: Result<Pipeline, ConfigError>) {
        Pipeline::new(self.0)
    }
}

} // verus!
