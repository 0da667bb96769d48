//! Running a configuration: which raw events enter the pipeline, when the
//! remapper stops, and what a whole trace of events comes to.

use crate::config::{KeyConfig, ToKeyRecorder};
use crate::keys::{Key, KeyInput, KeyInputKind, TimedKeyInput, Timestamp};
use crate::layer::RemapLayer;
use crate::model::RecorderState;
use crate::pipeline::{
    chain_violation, close_from, flush_at, run_from, start_states, ConfigError, LayerFlush, Pipeline,
    PipelineOutput, PipelineRun,
};
use vstd::prelude::*;

verus! {

/// The kernel's event type for keys and buttons.
pub const EV_KEY: u16 = 1;

/// The kernel's code for the key A.
pub const KEY_A: u16 = 30;

/// The kernel's code for the key Z.
pub const KEY_Z: u16 = 44;

/// The kernel's code for the space bar.
pub const KEY_SPACE: u16 = 57;

/// One record of an input device, as the kernel reports it.
#[derive(PartialEq, Eq, Structural, Clone, Copy, Debug)]
pub struct RawEvent {
    pub event_type: u16,
    pub code: u16,
    pub value: i32,
    pub time: Timestamp,
}

/// What to do with a raw event.
#[derive(PartialEq, Eq, Structural, Clone, Copy, Debug)]
pub enum ReaderAction {
    /// Not a key event: nothing to do.
    Ignore,
    /// The emergency stop key went down: stop.
    Stop,
    /// A key event for the pipeline.
    Submit(KeyInput),
}

/// What to do with the raw event `event` when `stop` is the emergency stop
/// key: events that are not key events are ignored, the first press of the
/// emergency stop key stops the remapper, and every other key event goes to
/// the pipeline, as a press for a first press or an auto-repeat and as a
/// release otherwise.
pub open spec fn reader_action(stop: Option<Key>, event: RawEvent) -> ReaderAction {
    if event.event_type != EV_KEY {
        ReaderAction::Ignore
    } else if event.value == 1 && stop == Some(Key(event.code)) {
        ReaderAction::Stop
    } else {
        ReaderAction::Submit(KeyInput(Key(event.code), KeyInputKind::of_value(event.value)))
    }
}

/// Decides what to do with a raw event: see [`reader_action`].
pub fn read_event(stop: Option<Key>, event: &RawEvent) -> (action: ReaderAction)
    ensures
        action == reader_action(stop, *event),
{
    if event.event_type != EV_KEY {
        return ReaderAction::Ignore;
    }
    if event.value == 1 {
        if let Some(key) = stop {
            if key.0 == event.code {
                return ReaderAction::Stop;
            }
        }
    }
    let kind = if event.value == 1 || event.value == 2 {
        KeyInputKind::Press
    } else {
        KeyInputKind::Release
    };
    ReaderAction::Submit(KeyInput(Key(event.code), kind))
}

/// Whether a device that supports the keys `supported` counts as a
/// keyboard: it does when A, Z and the space bar are among them.
pub fn is_keyboard(supported: &Vec<Key>) -> (r: bool)
    ensures
        r == (supported@.contains(Key(KEY_A)) && supported@.contains(Key(KEY_Z))
            && supported@.contains(Key(KEY_SPACE))),
{
    let mut a = false;
    let mut z = false;
    let mut space = false;
    let mut i: usize = 0;
    while i < supported.len()
        invariant
            i <= supported.len(),
            a == supported@.subrange(0, i as int).contains(Key(KEY_A)),
            z == supported@.subrange(0, i as int).contains(Key(KEY_Z)),
            space == supported@.subrange(0, i as int).contains(Key(KEY_SPACE)),
        decreases supported.len() - i,
    {
        let code = supported[i].0;
        proof {
            let before = supported@.subrange(0, i as int);
            let after = supported@.subrange(0, i + 1);
            assert(after =~= before.push(supported@[i as int]));
            assert forall|k: Key| after.contains(k) <==> (before.contains(k) || k == supported@[i as int]) by {
                if before.contains(k) {
                    let j = choose|j: int| 0 <= j < before.len() && before[j] == k;
                    assert(after[j] == k);
                }
                if k == supported@[i as int] {
                    assert(after[i as int] == k);
                }
            }
        }
        if code == KEY_A {
            a = true;
        }
        if code == KEY_Z {
            z = true;
        }
        if code == KEY_SPACE {
            space = true;
        }
        i += 1;
    }
    assert(supported@.subrange(0, i as int) =~= supported@);
    a && z && space
}


/// Something that happens to a running remapper.
#[derive(PartialEq, Eq, Structural, Clone, Copy, Debug)]
pub enum Event {
    /// An input device reported a record.
    Input(RawEvent),
    /// A timer that a layer asked for came due.
    Timer(LayerFlush),
}

/// What one event does to the chain `layers` in the states `states` when
/// `stop` is the emergency stop key; `None` when the event stops the
/// remapper.
pub open spec fn event_run(
    layers: Seq<RemapLayer>,
    stop: Option<Key>,
    states: Seq<RecorderState>,
    event: Event,
) -> Option<PipelineRun> {
    match event {
        Event::Input(raw) => match reader_action(stop, raw) {
            ReaderAction::Ignore => Some(
                PipelineRun { states, keys: Seq::empty(), flushes: Seq::empty() },
            ),
            ReaderAction::Stop => None,
            ReaderAction::Submit(key) => Some(
                run_from(layers, states, 0, seq![TimedKeyInput { input: key, time: raw.time }]),
            ),
        },
        Event::Timer(flush) => Some(
            flush_at(layers, states, flush.layer as int, flush.request.key, flush.request.time),
        ),
    }
}

/// What a trace of events comes to: the states that the layers end in,
/// every key written and every timer asked for, in order, and whether the
/// remapper was stopped.
pub struct TraceRun {
    pub states: Seq<RecorderState>,
    pub keys: Seq<TimedKeyInput>,
    pub flushes: Seq<LayerFlush>,
    pub stopped: bool,
}

/// What the events `events`, taken one after the other, do to the chain
/// `layers` in the states `states`. Nothing that follows a stop counts.
pub open spec fn trace_run(
    layers: Seq<RemapLayer>,
    stop: Option<Key>,
    states: Seq<RecorderState>,
    events: Seq<Event>,
) -> TraceRun
    decreases events.len(),
{
    if events.len() == 0 {
        TraceRun { states, keys: Seq::empty(), flushes: Seq::empty(), stopped: false }
    } else {
        let before = trace_run(layers, stop, states, events.drop_last());
        if before.stopped {
            before
        } else {
            match event_run(layers, stop, before.states, events.last()) {
                Some(run) => TraceRun {
                    states: run.states,
                    keys: before.keys + run.keys,
                    flushes: before.flushes + run.flushes,
                    stopped: false,
                },
                None => TraceRun {
                    states: before.states,
                    keys: before.keys,
                    flushes: before.flushes,
                    stopped: true,
                },
            }
        }
    }
}

/// A configuration at work: a pipeline and the emergency stop key.
pub struct Remapper {
    pipeline: Pipeline,
    stop_key: Option<Key>,
}

impl View for Remapper {
    type V = Seq<RecorderState>;

    /// The state of every layer, top layer first.
    closed spec fn view(&self) -> Seq<RecorderState> {
        self.pipeline@
    }
}

impl Remapper {
    /// The rules of every layer, top layer first.
    pub closed spec fn layers(&self) -> Seq<RemapLayer> {
        self.pipeline.layers()
    }

    /// The emergency stop key.
    pub closed spec fn stop_key(&self) -> Option<Key> {
        self.stop_key
    }

    /// The remapper is sound: its pipeline is.
    pub closed spec fn wf(&self) -> bool {
        self.pipeline.wf()
    }

    /// Sets the configuration `config` to work, every layer in its initial
    /// state. Refuses a configuration without a layer or with a layer that
    /// is not sound, with the reason.
    pub fn new(config: KeyConfig) -> (r: Result<Remapper, ConfigError>)
        ensures
            match r {
                Ok(remapper) => {
                    &&& chain_violation(config.layers.0@) is None
                    &&& remapper.wf()
                    &&& remapper.layers() == config.layers.0@
                    &&& remapper.stop_key() == config.emergency_stop_key
                    &&& remapper@ == start_states(config.layers.0@)
                },
                Err(e) => chain_violation(config.layers.0@) == Some(e),
            },
    {
        let stop_key = config.emergency_stop_key;
        match config.layers.to_key_recorder() {
            Ok(pipeline) => Ok(Remapper { pipeline, stop_key }),
            Err(e) => Err(e),
        }
    }

    /// Takes one event. Returns the keys to write and the timers to arm,
    /// or `None` when the event stops the remapper.
    pub fn handle(&mut self, event: &Event) -> (out: Option<PipelineOutput>)
        requires
            old(self).wf(),
        ensures
            final(self).wf(),
            final(self).layers() == old(self).layers(),
            final(self).stop_key() == old(self).stop_key(),
            match event_run(old(self).layers(), old(self).stop_key(), old(self)@, *event) {
                Some(run) => {
                    &&& out is Some
                    &&& final(self)@ == run.states
                    &&& out->0.keys@ == run.keys
                    &&& out->0.flushes@ == run.flushes
                },
                None => out is None && final(self)@ == old(self)@,
            },
    {
        match event {
            Event::Input(raw) => match read_event(self.stop_key, raw) {
                ReaderAction::Ignore => Some(
                    PipelineOutput { keys: Vec::new(), flushes: Vec::new() },
                ),
                ReaderAction::Stop => None,
                ReaderAction::Submit(key) => Some(self.pipeline.send_key(key, raw.time)),
            },
            Event::Timer(flush) => Some(
                self.pipeline.fire_specific_waiting_key(
                    flush.layer,
                    flush.request.key,
                    flush.request.time,
                ),
            ),
        }
    }

    /// Takes the end of the input: every layer, from the top down, gives up
    /// its waiting press. Returns the keys to write.
    pub fn close(&mut self) -> (out: PipelineOutput)
        requires
            old(self).wf(),
        ensures
            final(self).wf(),
            final(self).layers() == old(self).layers(),
            final(self).stop_key() == old(self).stop_key(),
            final(self)@ == close_from(old(self).layers(), old(self)@, 0).states,
            out.keys@ == close_from(old(self).layers(), old(self)@, 0).keys,
            out.flushes@ == close_from(old(self).layers(), old(self)@, 0).flushes,
    {
        self.pipeline.close()
    }
}

/// What a run over a trace of events hands back.
#[derive(PartialEq, Eq, Clone, Debug)]
pub struct TraceOutput {
    /// The keys written, in order.
    pub keys: Vec<TimedKeyInput>,
    /// The timers asked for, in order.
    pub flushes: Vec<LayerFlush>,
    /// Whether the emergency stop key ended the run.
    pub stopped: bool,
}

/// Configurations that can be run.
pub trait KeyConfigRun: Sized {
    /// Runs the configuration over the events `events`, taken one after the
    /// other, up to the end or to the event that stops the remapper.
    fn run(self, events: &Vec<Event>) -> (r: Result<TraceOutput, ConfigError>);
}

impl KeyConfigRun for KeyConfig {
    /// Refuses a configuration without a layer or with a layer that is not
    /// sound, with the reason; else says what the trace comes to when every
    /// layer starts in its initial state.
    fn run(self, events: &Vec<Event>) -> (r: Result<TraceOutput, ConfigError>)
        ensures
            match r {
                Ok(out) => {
                    let run = trace_run(
                        self.layers.0@,
                        self.emergency_stop_key,
                        start_states(self.layers.0@),
                        events@,
                    );
                    &&& chain_violation(self.layers.0@) is None
                    &&& out.keys@ == run.keys
                    &&& out.flushes@ == run.flushes
                    &&& out.stopped == run.stopped
                },
                Err(e) => chain_violation(self.layers.0@) == Some(e),
            },
    {
        let ghost layers = self.layers.0@;
        let ghost stop = self.emergency_stop_key;
        let mut remapper = match Remapper::new(self) {
            Ok(remapper) => remapper,
            Err(e) => {
                return Err(e);
            },
        };
        let mut keys: Vec<TimedKeyInput> = Vec::new();
        let mut flushes: Vec<LayerFlush> = Vec::new();
        let mut i: usize = 0;
        assert(events@.subrange(0, 0) =~= Seq::empty());
        while i < events.len()
            invariant
                i <= events.len(),
                layers == self.layers.0@,
                stop == self.emergency_stop_key,
                chain_violation(layers) is None,
                remapper.wf(),
                remapper.layers() == layers,
                remapper.stop_key() == stop,
                !trace_run(layers, stop, start_states(layers), events@.subrange(0, i as int)).stopped,
                remapper@ == trace_run(
                    layers,
                    stop,
                    start_states(layers),
                    events@.subrange(0, i as int),
                ).states,
                keys@ == trace_run(
                    layers,
                    stop,
                    start_states(layers),
                    events@.subrange(0, i as int),
                ).keys,
                flushes@ == trace_run(
                    layers,
                    stop,
                    start_states(layers),
                    events@.subrange(0, i as int),
                ).flushes,
            decreases events.len() - i,
        {
            proof {
                assert(events@.subrange(0, i + 1).drop_last() =~= events@.subrange(0, i as int));
            }
            match remapper.handle(&events[i]) {
                Some(out) => {
                    let mut out = out;
                    keys.append(&mut out.keys);
                    flushes.append(&mut out.flushes);
                },
                None => {
                    proof {
                        assert(trace_run(
                            layers,
                            stop,
                            start_states(layers),
                            events@.subrange(0, i + 1),
                        ).stopped);
                        lemma_stopped_stays(
                            layers,
                            stop,
                            start_states(layers),
                            events@,
                            i + 1,
                        );
                    }
                    return Ok(TraceOutput { keys, flushes, stopped: true });
                },
            }
            i += 1;
        }
        assert(events@.subrange(0, i as int) =~= events@);
        Ok(TraceOutput { keys, flushes, stopped: false })
    }
}

/// Once a trace has stopped the remapper, more events change nothing.
pub proof fn lemma_stopped_stays(
    layers: Seq<RemapLayer>,
    stop: Option<Key>,
    states: Seq<RecorderState>,
    events: Seq<Event>,
    n: int,
)
    requires
        0 <= n <= events.len(),
        trace_run(layers, stop, states, events.subrange(0, n)).stopped,
    ensures
        trace_run(layers, stop, states, events) == trace_run(
            layers,
            stop,
            states,
            events.subrange(0, n),
        ),
    decreases events.len() - n,
{
    if n == events.len() {
        assert(events.subrange(0, n) =~= events);
    } else {
        assert(events.subrange(0, n + 1).drop_last() =~= events.subrange(0, n));
        lemma_stopped_stays(layers, stop, states, events, n + 1);
    }
}

} // verus!
