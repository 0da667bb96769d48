//! Layers in a chain: what one layer passes downstream is what the next
//! one receives, and what the last one passes on leaves the pipeline.

use crate::keys::{Key, KeyInput, TimedKeyInput, Timestamp};
use crate::layer::{LayerError, RemapLayer};
use crate::model::{FlushRequest, RecorderState};
use crate::recorder::KeyRecorder;
use vstd::prelude::*;

verus! {

/// A timer to arm for one layer of a pipeline.
#[derive(PartialEq, Eq, Structural, Clone, Copy, Debug)]
pub struct LayerFlush {
    /// Position of the layer that asked for the timer.
    pub layer: usize,
    pub request: FlushRequest,
}

/// What a pipeline hands back for one event.
#[derive(PartialEq, Eq, Clone, Debug)]
pub struct PipelineOutput {
    /// The keys that leave the last layer, in order.
    pub keys: Vec<TimedKeyInput>,
    /// The timers to arm, in the order in which they were asked for.
    pub flushes: Vec<LayerFlush>,
}

/// Why a configuration is refused.
#[derive(PartialEq, Eq, Structural, Clone, Copy, Debug)]
pub enum ConfigError {
    /// A pipeline needs at least one layer.
    NoLayers,
    /// The layer at position `layer` is not sound.
    Layer { layer: usize, error: LayerError },
    /// An emergency stop key was given twice.
    SecondEmergencyStopKey,
}

/// What a run of events does to the layers from some position down: the
/// states that all layers end in, the keys that leave the last layer and
/// the timers that were asked for.
pub struct PipelineRun {
    pub states: Seq<RecorderState>,
    pub keys: Seq<TimedKeyInput>,
    pub flushes: Seq<LayerFlush>,
}

/// The timers `requests`, each marked as asked for by the layer at
/// position `layer`.
pub open spec fn flushes_of_layer(layer: int, requests: Seq<FlushRequest>) -> Seq<LayerFlush> {
    Seq::new(requests.len(), |i: int| LayerFlush { layer: layer as usize, request: requests[i] })
}

/// What the key events `events` do when they enter the chain `layers` at
/// position `from`: that layer takes them one after the other, and what it
/// passes downstream enters the chain at the next position; what enters
/// past the last layer leaves the pipeline.
pub open spec fn run_from(
    layers: Seq<RemapLayer>,
    states: Seq<RecorderState>,
    from: int,
    events: Seq<TimedKeyInput>,
) -> PipelineRun
    decreases layers.len() - from,
{
    if 0 <= from < layers.len() {
        let here = layers[from].run(states[from], events);
        let below = run_from(layers, states.update(from, here.state), from + 1, here.keys);
        PipelineRun {
            states: below.states,
            keys: below.keys,
            flushes: flushes_of_layer(from, here.flushes) + below.flushes,
        }
    } else {
        PipelineRun { states, keys: events, flushes: Seq::empty() }
    }
}

/// What a timer for the press of `key` at `time` does when it comes due in
/// the layer at position `layer`: that layer takes the timer, and what it
/// passes downstream enters the chain below it. A timer for a layer that
/// the chain does not have does nothing.
pub open spec fn flush_at(
    layers: Seq<RemapLayer>,
    states: Seq<RecorderState>,
    layer: int,
    key: Key,
    time: Timestamp,
) -> PipelineRun {
    if 0 <= layer < layers.len() {
        let step = layers[layer].on_flush(states[layer], key, time);
        run_from(layers, states.update(layer, step.next), layer + 1, step.keys)
    } else {
        PipelineRun { states, keys: Seq::empty(), flushes: Seq::empty() }
    }
}

/// What the end of the input does to the layers of `layers` from position
/// `from` down: the layer at `from` gives up its waiting press, what that
/// becomes runs down the chain, and then the layers below do the same, one
/// after the other.
pub open spec fn close_from(layers: Seq<RemapLayer>, states: Seq<RecorderState>, from: int) -> PipelineRun
    decreases layers.len() - from,
{
    if 0 <= from < layers.len() {
        let step = layers[from].on_close(states[from]);
        let down = run_from(layers, states.update(from, step.next), from + 1, step.keys);
        let below = close_from(layers, down.states, from + 1);
        PipelineRun {
            states: below.states,
            keys: down.keys + below.keys,
            flushes: down.flushes + below.flushes,
        }
    } else {
        PipelineRun { states, keys: Seq::empty(), flushes: Seq::empty() }
    }
}

/// The states in which the layers of `layers` start.
pub open spec fn start_states(layers: Seq<RemapLayer>) -> Seq<RecorderState> {
    Seq::new(layers.len(), |i: int| layers[i].start())
}

/// The layer at position `i` is the first one that is not sound.
pub open spec fn is_first_bad_layer(layers: Seq<RemapLayer>, i: int) -> bool {
    &&& 0 <= i < layers.len()
    &&& layers[i].first_violation() is Some
    &&& forall|j: int| 0 <= j < i ==> (#[trigger] layers[j]).first_violation() is None
}

/// The reason to refuse the chain `layers`: that it is empty, else what is
/// wrong with the first layer that is not sound. `None` for a chain that
/// can run.
pub open spec fn chain_violation(layers: Seq<RemapLayer>) -> Option<ConfigError> {
    if layers.len() == 0 {
        Some(ConfigError::NoLayers)
    } else if exists|i: int| is_first_bad_layer(layers, i) {
        let i = choose|i: int| is_first_bad_layer(layers, i);
        Some(ConfigError::Layer { layer: i as usize, error: layers[i].first_violation()->0 })
    } else {
        None
    }
}

/// The first layer that is not sound decides why a chain is refused.
pub proof fn lemma_first_bad_layer(layers: Seq<RemapLayer>, i: int)
    requires
        is_first_bad_layer(layers, i),
    ensures
        chain_violation(layers) == Some(
            ConfigError::Layer { layer: i as usize, error: layers[i].first_violation()->0 },
        ),
{
    let c = choose|c: int| is_first_bad_layer(layers, c);
    if c < i {
        assert(layers[c].first_violation() is None);
    } else if i < c {
        assert(layers[i].first_violation() is None);
    }
}

/// A chain of layers at work.
pub struct Pipeline {
    recorders: Vec<KeyRecorder>,
}

impl View for Pipeline {
    type V = Seq<RecorderState>;

    /// The state of every layer, top layer first.
    closed spec fn view(&self) -> Seq<RecorderState> {
        Seq::new(self.recorders@.len(), |i: int| self.recorders@[i]@)
    }
}

impl Pipeline {
    /// The rules of every layer, top layer first.
    pub closed spec fn layers(&self) -> Seq<RemapLayer> {
        Seq::new(self.recorders@.len(), |i: int| self.recorders@[i].layer())
    }

    /// The pipeline is sound: it has a layer, and every layer is sound.
    pub closed spec fn wf(&self) -> bool {
        &&& self.recorders@.len() > 0
        &&& forall|i: int| 0 <= i < self.recorders@.len() ==> (#[trigger] self.recorders@[i]).wf()
    }

    /// A sound pipeline has a layer, runs sound rules, and has a state for
    /// each layer.
    pub proof fn lemma_wf(&self)
        requires
            self.wf(),
        ensures
            self.layers().len() > 0,
            self@.len() == self.layers().len(),
            forall|i: int| 0 <= i < self.layers().len() ==> (#[trigger] self.layers()[i]).valid(),
    {
        assert forall|i: int| 0 <= i < self.layers().len() implies (#[trigger] self.layers()[i]).valid() by {
            self.recorders@[i].lemma_wf();
        }
    }

    /// Builds the pipeline of `layers`, top layer first, every layer in its
    /// initial state. Refuses an empty chain and a chain with a layer that
    /// is not sound, with the reason.
    pub fn new(layers: Vec<RemapLayer>) -> (r: Result<Pipeline, ConfigError>)
        ensures
            match r {
                Ok(pipeline) => {
                    &&& chain_violation(layers@) is None
                    &&& pipeline.wf()
                    &&& pipeline.layers() == layers@
                    &&& pipeline@ == start_states(layers@)
                },
                Err(e) => chain_violation(layers@) == Some(e),
            },
    {
        if layers.len() == 0 {
            return Err(ConfigError::NoLayers);
        }
        let ghost all = layers@;
        let mut rest = layers;
        let mut recorders: Vec<KeyRecorder> = Vec::new();
        while rest.len() > 0
            invariant
                all == layers@,
                recorders@.len() + rest@.len() == all.len(),
                rest@ == all.subrange(recorders@.len() as int, all.len() as int),
                forall|j: int|
                    0 <= j < recorders@.len() ==> {
                        &&& (#[trigger] recorders@[j]).wf()
                        &&& recorders@[j].layer() == all[j]
                        &&& recorders@[j]@ == all[j].start()
                    },
                forall|j: int| 0 <= j < recorders@.len() ==> (#[trigger] all[j]).first_violation() is None,
            decreases rest@.len(),
        {
            let ghost i = recorders@.len() as int;
            let layer = rest.remove(0);
            assert(layer == all[i]);
            match KeyRecorder::new(layer) {
                Ok(recorder) => {
                    recorders.push(recorder);
                },
                Err(error) => {
                    proof {
                        assert(is_first_bad_layer(all, i));
                        lemma_first_bad_layer(all, i);
                    }
                    return Err(ConfigError::Layer { layer: recorders.len(), error });
                },
            }
        }
        let pipeline = Pipeline { recorders };
        proof {
            assert(pipeline.layers() =~= all);
            assert(pipeline@ =~= start_states(all));
            assert forall|i: int| !is_first_bad_layer(all, i) by {
                if is_first_bad_layer(all, i) {
                    assert(all[i].first_violation() is None);
                }
            }
        }
        Ok(pipeline)
    }

    /// Lets `events` enter the chain at position `from` and run down to
    /// the end. Appends the timers asked for on the way to `flushes` and
    /// returns the keys that leave the last layer.
    fn feed(&mut self, from: usize, events: Vec<TimedKeyInput>, flushes: &mut Vec<LayerFlush>) -> (keys:
        Vec<TimedKeyInput>)
        requires
            old(self).wf(),
        ensures
            final(self).wf(),
            final(self).layers() == old(self).layers(),
            final(self)@ == run_from(old(self).layers(), old(self)@, from as int, events@).states,
            keys@ == run_from(old(self).layers(), old(self)@, from as int, events@).keys,
            final(flushes)@ == old(flushes)@ + run_from(
                old(self).layers(),
                old(self)@,
                from as int,
                events@,
            ).flushes,
    {
        let ghost layers = self.layers();
        let ghost whole = run_from(layers, self@, from as int, events@);
        let mut current = events;
        let mut i = from;
        assert(flushes@ + Seq::<LayerFlush>::empty() =~= flushes@);
        while i < self.recorders.len()
            invariant
                self.wf(),
                self.layers() == layers,
                self@.len() == layers.len(),
                whole.states == run_from(layers, self@, i as int, current@).states,
                whole.keys == run_from(layers, self@, i as int, current@).keys,
                old(flushes)@ + whole.flushes == flushes@ + run_from(
                    layers,
                    self@,
                    i as int,
                    current@,
                ).flushes,
            decreases self.recorders@.len() - i,
        {
            let ghost before = self@;
            let ghost asked = flushes@;
            let (keys, requests) = self.recorders[i].send_keys(&current);
            let ghost here = layers[i as int].run(before[i as int], current@);
            proof {
                assert(self@ =~= before.update(i as int, here.state));
                assert(self.layers() =~= layers);
            }
            let mut j: usize = 0;
            while j < requests.len()
                invariant
                    j <= requests.len(),
                    flushes@ == asked + flushes_of_layer(i as int, requests@).subrange(0, j as int),
                decreases requests.len() - j,
            {
                flushes.push(LayerFlush { layer: i, request: requests[j] });
                j += 1;
            }
            proof {
                let tagged = flushes_of_layer(i as int, requests@);
                assert(tagged.subrange(0, j as int) =~= tagged);
                let below = run_from(layers, self@, i + 1, keys@);
                assert((asked + tagged) + below.flushes =~= asked + (tagged + below.flushes));
            }
            current = keys;
            i += 1;
        }
        current
    }

    /// Takes the key event `key` that arrived at `time`: it enters the top
    /// layer. Returns the keys that leave the last layer and the timers to
    /// arm.
    pub fn send_key(&mut self, key: KeyInput, time: Timestamp) -> (out: PipelineOutput)
        requires
            old(self).wf(),
        ensures
            final(self).wf(),
            final(self).layers() == old(self).layers(),
            final(self)@ == run_from(
                old(self).layers(),
                old(self)@,
                0,
                seq![TimedKeyInput { input: key, time }],
            ).states,
            out.keys@ == run_from(
                old(self).layers(),
                old(self)@,
                0,
                seq![TimedKeyInput { input: key, time }],
            ).keys,
            out.flushes@ == run_from(
                old(self).layers(),
                old(self)@,
                0,
                seq![TimedKeyInput { input: key, time }],
            ).flushes,
    {
        let mut events: Vec<TimedKeyInput> = Vec::new();
        events.push(TimedKeyInput { input: key, time });
        assert(events@ =~= seq![TimedKeyInput { input: key, time }]);
        let mut flushes: Vec<LayerFlush> = Vec::new();
        let keys = self.feed(0, events, &mut flushes);
        assert(flushes@ =~= run_from(
            old(self).layers(),
            old(self)@,
            0,
            seq![TimedKeyInput { input: key, time }],
        ).flushes);
        PipelineOutput { keys, flushes }
    }

    /// Takes the timer that the layer at position `layer` asked for, for
    /// the press of `key` at `time`, now due. Returns the keys that leave
    /// the last layer and the timers to arm.
    pub fn fire_specific_waiting_key(&mut self, layer: usize, key: Key, time: Timestamp) -> (out:
        PipelineOutput)
        requires
            old(self).wf(),
        ensures
            final(self).wf(),
            final(self).layers() == old(self).layers(),
            final(self)@ == flush_at(old(self).layers(), old(self)@, layer as int, key, time).states,
            out.keys@ == flush_at(old(self).layers(), old(self)@, layer as int, key, time).keys,
            out.flushes@ == flush_at(old(self).layers(), old(self)@, layer as int, key, time).flushes,
    {
        let mut flushes: Vec<LayerFlush> = Vec::new();
        if layer >= self.recorders.len() {
            assert(self@.len() == self.layers().len());
            return PipelineOutput { keys: Vec::new(), flushes };
        }
        let ghost before = self@;
        let ghost layers = self.layers();
        let step = self.recorders[layer].fire_specific_waiting_key(key, time);
        proof {
            let next = layers[layer as int].on_flush(before[layer as int], key, time).next;
            assert(self@ =~= before.update(layer as int, next));
            assert(self.layers() =~= layers);
        }
        let keys = self.feed(layer + 1, step.keys, &mut flushes);
        assert(flushes@ =~= flush_at(layers, before, layer as int, key, time).flushes);
        PipelineOutput { keys, flushes }
    }

    /// Takes the end of the input: every layer, from the top down, gives up
    /// its waiting press, and what that becomes runs down the chain.
    /// Returns the keys that leave the last layer and the timers that were
    /// asked for on the way; all of them are stale when this returns.
    pub fn close(&mut self) -> (out: PipelineOutput)
        requires
            old(self).wf(),
        ensures
            final(self).wf(),
            final(self).layers() == old(self).layers(),
            final(self)@ == close_from(old(self).layers(), old(self)@, 0).states,
            out.keys@ == close_from(old(self).layers(), old(self)@, 0).keys,
            out.flushes@ == close_from(old(self).layers(), old(self)@, 0).flushes,
    {
        let ghost layers = self.layers();
        let ghost whole = close_from(layers, self@, 0);
        let mut keys: Vec<TimedKeyInput> = Vec::new();
        let mut flushes: Vec<LayerFlush> = Vec::new();
        let mut i: usize = 0;
        assert(keys@ + whole.keys =~= whole.keys);
        assert(flushes@ + whole.flushes =~= whole.flushes);
        while i < self.recorders.len()
            invariant
                self.wf(),
                self.layers() == layers,
                self@.len() == layers.len(),
                whole.states == close_from(layers, self@, i as int).states,
                whole.keys == keys@ + close_from(layers, self@, i as int).keys,
                whole.flushes == flushes@ + close_from(layers, self@, i as int).flushes,
            decreases self.recorders@.len() - i,
        {
            let ghost before = self@;
            let ghost written = keys@;
            let ghost asked = flushes@;
            let step = self.recorders[i].close();
            proof {
                let next = layers[i as int].on_close(before[i as int]).next;
                assert(self@ =~= before.update(i as int, next));
                assert(self.layers() =~= layers);
            }
            let ghost down = run_from(layers, self@, i + 1, step.keys@);
            let mut more = self.feed(i + 1, step.keys, &mut flushes);
            keys.append(&mut more);
            proof {
                let below = close_from(layers, self@, i + 1);
                assert((written + down.keys) + below.keys =~= written + (down.keys + below.keys));
                assert((asked + down.flushes) + below.flushes =~= asked + (down.flushes
                    + below.flushes));
            }
            i += 1;
        }
        proof {
            assert(keys@ + Seq::<TimedKeyInput>::empty() =~= keys@);
            assert(flushes@ + Seq::<LayerFlush>::empty() =~= flushes@);
        }
        PipelineOutput { keys, flushes }
    }

    /// Number of layers.
    pub fn len(&self) -> (n: usize)
        ensures
            n == self.layers().len(),
    {
        self.recorders.len()
    }
}

} // verus!
