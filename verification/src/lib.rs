//! A chord-and-state key remapping engine.
//!
//! A remap layer is a finite-state machine that rewrites single key events
//! and pairs of near-simultaneous presses into output sequences. Layers are
//! chained into a pipeline: what one layer emits is what the next receives.
//! Nothing here touches a device or a clock; callers hand in events with
//! their timestamps and get back what to emit and which timers to arm.
//!
//! - [`keys`]: keys, key events and event times.
//! - [`layer`]: the rules of a layer, and when they are sound.
//! - [`model`]: what a layer does with an event, as mathematics.
//! - [`recorder`]: the engine of one layer.
//! - [`pipeline`]: layers in a chain.
//! - [`config`]: putting a configuration together.
//! - [`run`]: which raw events enter the pipeline, and when it stops.
//! - [`laws`]: what holds of every layer and every pipeline.
//! - [`index`]: the lookup tables of a layer.
//! - [`hotkeys`] and [`layout`]: hotkey tables and keyboard layouts written
//!   as nested configuration values.

pub mod config;
pub mod hotkeys;
pub mod index;
pub mod keys;
pub mod laws;
pub mod layer;
pub mod layout;
pub mod model;
pub mod pipeline;
pub mod recorder;
pub mod run;

pub use crate::config::{AddLayer, EmptyLayer, KeyConfig, LayerChain, RemapLayers, ToKeyRecorder};
pub use crate::hotkeys::{
    read_config, read_hotkeys, ConfigValue, Flag, Flags, HotKey, KeyOutput, ReadError,
};
pub use crate::keys::{Key, KeyInput, KeyInputKind, TimedKeyInput, Timestamp};
pub use crate::layer::{LayerError, LayerState, PairRemapEntry, RemapLayer, SingleRemapEntry};
pub use crate::layout::{load_layout, read_combinated_hotkeys, zip_keys, Layout, LayoutError};
pub use crate::model::{FlushRequest, RecorderState, WaitingKey};
pub use crate::pipeline::{ConfigError, LayerFlush, Pipeline, PipelineOutput};
pub use crate::recorder::{KeyRecorder, LayerOutput};
pub use crate::run::{
    is_keyboard, read_event, Event, KeyConfigRun, RawEvent, ReaderAction, Remapper, TraceOutput,
};
