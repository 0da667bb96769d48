//! The engine of one layer.

use crate::index::{
    codes_contains, codes_insert, codes_new, first_code, first_code_of,
    lemma_first_code_injective, lemma_pair_code_injective, lemma_single_code_injective, pair_code,
    pair_code_of, single_code, single_code_of, table_get, table_insert, table_new,
};
use crate::keys::{timed, Key, KeyInput, KeyInputKind, TimedKeyInput, Timestamp};
use crate::layer::{
    lemma_first_violation, lemma_pair_rule_found, lemma_single_rule_found,
    lemma_valid_iff_no_violation, max_threshold_of, LayerError, LayerState, RemapLayer,
};
use crate::model::{FlushRequest, RecorderState, WaitingKey};
use rustc_hash::{FxHashMap, FxHashSet};
use vstd::prelude::*;

verus! {

/// What a layer hands back for one event.
#[derive(PartialEq, Eq, Clone, Debug)]
pub struct LayerOutput {
    /// The keys to pass downstream, in order.
    pub keys: Vec<TimedKeyInput>,
    /// The timer to arm, if a press is now waiting.
    pub flush: Option<FlushRequest>,
}

/// One remap layer at work: its rules, its current state, and tables that
/// find the rule for an event.
pub struct KeyRecorder {
    layer: RemapLayer,
    current: RecorderState,
    single_hotkeys_map: FxHashMap<u64, usize>,
    pair_hotkeys_map: FxHashMap<u64, usize>,
    pair_input_keys: FxHashSet<u64>,
    threshold: u32,
}

/// The code under which the single entry at position `i` is filed.
spec fn single_code_at(layer: RemapLayer, i: int) -> u64 {
    single_code(layer.singles()[i].condition, layer.singles()[i].input)
}

/// The code under which the pair entry at position `i` is filed.
spec fn pair_code_at(layer: RemapLayer, i: int) -> u64 {
    pair_code(layer.pairs()[i].condition, layer.pairs()[i].input[0], layer.pairs()[i].input[1])
}

/// `code` is the code of one of the two keys of the pair entry at position
/// `i`, pressed in the state in which the entry applies.
spec fn pair_has_first_code(layer: RemapLayer, i: int, code: u64) -> bool {
    ||| code == first_code(layer.pairs()[i].condition, layer.pairs()[i].input[0])
    ||| code == first_code(layer.pairs()[i].condition, layer.pairs()[i].input[1])
}

/// `table` files exactly the first `n` single entries, each under its code.
spec fn singles_indexed(layer: RemapLayer, table: Map<u64, usize>, n: int) -> bool {
    &&& forall|i: int|
        0 <= i < n ==> table.contains_key(#[trigger] single_code_at(layer, i)) && table[single_code_at(
            layer,
            i,
        )] == i
    &&& forall|c: u64| #[trigger]
        table.contains_key(c) ==> 0 <= table[c] < n && single_code_at(layer, table[c] as int) == c
}

/// `table` files exactly the first `n` pair entries, each under its code.
spec fn pairs_indexed(layer: RemapLayer, table: Map<u64, usize>, n: int) -> bool {
    &&& forall|i: int|
        0 <= i < n ==> table.contains_key(#[trigger] pair_code_at(layer, i)) && table[pair_code_at(
            layer,
            i,
        )] == i
    &&& forall|c: u64| #[trigger]
        table.contains_key(c) ==> 0 <= table[c] < n && pair_code_at(layer, table[c] as int) == c
}

/// `codes` holds exactly the codes of the keys of the first `n` pair
/// entries.
spec fn first_keys_indexed(layer: RemapLayer, codes: Set<u64>, n: int) -> bool {
    &&& forall|i: int, c: u64|
        0 <= i < n && #[trigger] pair_has_first_code(layer, i, c) ==> codes.contains(c)
    &&& forall|c: u64| #[trigger]
        codes.contains(c) ==> exists|i: int| 0 <= i < n && pair_has_first_code(layer, i, c)
}

/// Files every single entry of `layer` under its code, or reports the first
/// one that breaks a rule.
fn index_singles(layer: &RemapLayer) -> (r: Result<FxHashMap<u64, usize>, LayerError>)
    ensures
        match r {
            Ok(table) => {
                &&& singles_indexed(*layer, table@, layer.singles().len() as int)
                &&& forall|n: int|
                    0 <= n < layer.singles().len() ==> (#[trigger] layer.violation_at(n)) is None
            },
            Err(e) => exists|n: int| layer.is_first_violation(n) && layer.violation_at(n) == Some(e),
        },
{
    let mut table = table_new();
    let mut i: usize = 0;
    while i < layer.single_remap_entries.len()
        invariant
            i <= layer.singles().len(),
            singles_indexed(*layer, table@, i as int),
            forall|n: int| 0 <= n < i ==> (#[trigger] layer.violation_at(n)) is None,
        decreases layer.singles().len() - i,
    {
        let entry = &layer.single_remap_entries[i];
        if entry.condition >= layer.state_count || entry.transition >= layer.state_count {
            assert(layer.is_first_violation(i as int));
            return Err(LayerError::UnknownStateInSingle(i));
        }
        let code = single_code_of(entry.condition, entry.input);
        assert(code == single_code_at(*layer, i as int));
        let ghost before = table@;
        match table_insert(&mut table, code, i) {
            Some(earlier) => {
                proof {
                    lemma_single_code_injective(
                        layer.singles()[earlier as int].condition,
                        layer.singles()[earlier as int].input,
                        entry.condition,
                        entry.input,
                    );
                    assert(layer.single_applies(earlier as int, entry.condition, entry.input));
                    assert(layer.is_first_violation(i as int));
                }
                return Err(LayerError::DuplicateSingle(i));
            },
            None => {
                proof {
                    assert forall|j: int| j < i implies !layer.single_applies(
                        j,
                        entry.condition,
                        entry.input,
                    ) by {
                        if layer.single_applies(j, entry.condition, entry.input) {
                            assert(before.contains_key(single_code_at(*layer, j)));
                        }
                    }
                    assert(layer.violation_at(i as int) is None);
                    assert forall|j: int| 0 <= j < i + 1 implies table@.contains_key(
                        #[trigger] single_code_at(*layer, j),
                    ) && table@[single_code_at(*layer, j)] == j by {
                        if j < i {
                            assert(before.contains_key(single_code_at(*layer, j)));
                        }
                    }
                }
            },
        }
        i += 1;
    }
    Ok(table)
}

/// The tables for the pair entries of a layer.
struct PairIndex {
    table: FxHashMap<u64, usize>,
    first_keys: FxHashSet<u64>,
    threshold: u32,
}

/// Files every pair entry of `layer` under its code, notes the keys that may
/// start a pair and finds the largest threshold, or reports the first pair
/// entry that breaks a rule.
fn index_pairs(layer: &RemapLayer) -> (r: Result<PairIndex, LayerError>)
    requires
        forall|n: int| 0 <= n < layer.singles().len() ==> (#[trigger] layer.violation_at(n)) is None,
    ensures
        match r {
            Ok(index) => {
                &&& pairs_indexed(*layer, index.table@, layer.pairs().len() as int)
                &&& first_keys_indexed(*layer, index.first_keys@, layer.pairs().len() as int)
                &&& index.threshold == layer.max_threshold()
                &&& forall|n: int|
                    0 <= n < layer.entry_count() ==> (#[trigger] layer.violation_at(n)) is None
            },
            Err(e) => exists|n: int| layer.is_first_violation(n) && layer.violation_at(n) == Some(e),
        },
{
    let mut table = table_new();
    let mut first_keys = codes_new();
    let mut threshold: u32 = 0;
    let mut i: usize = 0;
    let ghost singles = layer.singles().len() as int;
    assert(layer.pairs().subrange(0, 0) =~= Seq::empty());
    while i < layer.pair_remap_entries.len()
        invariant
            i <= layer.pairs().len(),
            singles == layer.singles().len(),
            pairs_indexed(*layer, table@, i as int),
            first_keys_indexed(*layer, first_keys@, i as int),
            threshold == max_threshold_of(layer.pairs().subrange(0, i as int)),
            forall|n: int| 0 <= n < singles + i ==> (#[trigger] layer.violation_at(n)) is None,
        decreases layer.pairs().len() - i,
    {
        let entry = &layer.pair_remap_entries[i];
        let a = entry.input[0];
        let b = entry.input[1];
        assert(layer.violation_at(singles + i) == layer.pair_violation(i as int));
        if entry.condition >= layer.state_count || entry.transition >= layer.state_count {
            assert(layer.is_first_violation(singles + i));
            return Err(LayerError::UnknownStateInPair(i));
        }
        if a.0 == b.0 {
            assert(layer.is_first_violation(singles + i));
            return Err(LayerError::PairOfOneKey(i));
        }
        let code = pair_code_of(entry.condition, a, b);
        assert(code == pair_code_at(*layer, i as int));
        let ghost before = table@;
        let ghost keys_before = first_keys@;
        match table_insert(&mut table, code, i) {
            Some(earlier) => {
                proof {
                    let other = layer.pairs()[earlier as int];
                    lemma_pair_code_injective(
                        other.condition,
                        other.input[0],
                        other.input[1],
                        entry.condition,
                        a,
                        b,
                    );
                    assert(layer.pair_applies(earlier as int, entry.condition, a, b));
                    assert(layer.is_first_violation(singles + i));
                }
                return Err(LayerError::DuplicatePair(i));
            },
            None => {
                proof {
                    assert forall|j: int| j < i implies !layer.pair_applies(
                        j,
                        entry.condition,
                        a,
                        b,
                    ) by {
                        if layer.pair_applies(j, entry.condition, a, b) {
                            assert(before.contains_key(pair_code_at(*layer, j)));
                        }
                    }
                    assert(layer.violation_at(singles + i) is None);
                    assert forall|j: int| 0 <= j < i + 1 implies table@.contains_key(
                        #[trigger] pair_code_at(*layer, j),
                    ) && table@[pair_code_at(*layer, j)] == j by {
                        if j < i {
                            assert(before.contains_key(pair_code_at(*layer, j)));
                        }
                    }
                }
            },
        }
        let code_a = first_code_of(entry.condition, a);
        let code_b = first_code_of(entry.condition, b);
        codes_insert(&mut first_keys, code_a);
        codes_insert(&mut first_keys, code_b);
        proof {
            assert forall|c: u64| #[trigger] first_keys@.contains(c) implies exists|j: int|
                0 <= j < i + 1 && pair_has_first_code(*layer, j, c) by {
                if keys_before.contains(c) {
                    let j = choose|j: int| 0 <= j < i && pair_has_first_code(*layer, j, c);
                    assert(pair_has_first_code(*layer, j, c));
                } else {
                    assert(pair_has_first_code(*layer, i as int, c));
                }
            }
            assert(layer.pairs().subrange(0, i + 1).drop_last() =~= layer.pairs().subrange(
                0,
                i as int,
            ));
        }
        if entry.threshold > threshold {
            threshold = entry.threshold;
        }
        i += 1;
    }
    assert(layer.pairs().subrange(0, i as int) =~= layer.pairs());
    Ok(PairIndex { table, first_keys, threshold })
}


/// Appends every key of `output`, in order and stamped with `time`, to
/// `out`, and returns `transition`, the state that the action leads to.
fn perform_action(
    output: &Vec<KeyInput>,
    transition: LayerState,
    time: Timestamp,
    out: &mut Vec<TimedKeyInput>,
) -> (next: LayerState)
    ensures
        next == transition,
        final(out)@ == old(out)@ + timed(output@, time),
{
    let mut i: usize = 0;
    while i < output.len()
        invariant
            i <= output.len(),
            out@ == old(out)@ + timed(output@, time).subrange(0, i as int),
        decreases output.len() - i,
    {
        out.push(TimedKeyInput { input: output[i], time });
        i += 1;
    }
    assert(timed(output@, time).subrange(0, i as int) =~= timed(output@, time));
    transition
}

impl View for KeyRecorder {
    type V = RecorderState;

    /// The machine state and the waiting press.
    closed spec fn view(&self) -> RecorderState {
        self.current
    }
}

impl KeyRecorder {
    /// The rules that the recorder applies.
    pub closed spec fn layer(&self) -> RemapLayer {
        self.layer
    }

    /// The recorder is sound: its rules are, its tables find exactly its
    /// rules, and its current state is one of the layer's states.
    pub closed spec fn wf(&self) -> bool {
        &&& self.layer.valid()
        &&& self.current.state < self.layer.state_count
        &&& self.threshold == self.layer.max_threshold()
        &&& singles_indexed(self.layer, self.single_hotkeys_map@, self.layer.singles().len() as int)
        &&& pairs_indexed(self.layer, self.pair_hotkeys_map@, self.layer.pairs().len() as int)
        &&& first_keys_indexed(self.layer, self.pair_input_keys@, self.layer.pairs().len() as int)
    }

    /// A sound recorder runs sound rules, and is in one of their states.
    pub proof fn lemma_wf(&self)
        requires
            self.wf(),
        ensures
            self.layer().valid(),
            self@.state < self.layer().state_count,
    {
    }

    /// Builds the recorder for `layer`, in the layer's initial state and
    /// with no press waiting. Refuses rules that are not sound, with the
    /// reason.
    pub fn new(layer: RemapLayer) -> (r: Result<KeyRecorder, LayerError>)
        ensures
            match r {
                Ok(recorder) => {
                    &&& layer.first_violation() is None
                    &&& recorder.wf()
                    &&& recorder.layer() == layer
                    &&& recorder@ == layer.start()
                },
                Err(e) => layer.first_violation() == Some(e),
            },
    {
        if layer.initial_state >= layer.state_count {
            return Err(LayerError::UnknownInitialState);
        }
        let single_hotkeys_map = match index_singles(&layer) {
            Ok(table) => table,
            Err(e) => {
                proof {
                    let n = choose|n: int|
                        layer.is_first_violation(n) && layer.violation_at(n) == Some(e);
                    lemma_first_violation(layer, n);
                }
                return Err(e);
            },
        };
        let pairs = match index_pairs(&layer) {
            Ok(index) => index,
            Err(e) => {
                proof {
                    let n = choose|n: int|
                        layer.is_first_violation(n) && layer.violation_at(n) == Some(e);
                    lemma_first_violation(layer, n);
                }
                return Err(e);
            },
        };
        proof {
            lemma_valid_iff_no_violation(layer);
        }
        let current = RecorderState { state: layer.initial_state, waiting_key: None };
        Ok(
            KeyRecorder {
                layer,
                current,
                single_hotkeys_map,
                pair_hotkeys_map: pairs.table,
                pair_input_keys: pairs.first_keys,
                threshold: pairs.threshold,
            },
        )
    }

    /// The current state of the layer's machine.
    pub fn state(&self) -> (state: LayerState)
        ensures
            state == self@.state,
    {
        self.current.state
    }

    /// The press that waits for a partner, if any.
    pub fn waiting_key(&self) -> (waiting: Option<WaitingKey>)
        ensures
            waiting == self@.waiting_key,
    {
        self.current.waiting_key
    }

    /// How long a held press waits before its timer comes due, in
    /// milliseconds: the largest threshold of the layer's pairs.
    pub fn threshold(&self) -> (threshold: u32)
        requires
            self.wf(),
        ensures
            threshold == self.layer().max_threshold(),
    {
        self.threshold
    }

    /// The name of the layer.
    pub fn layer_name(&self) -> (name: &'static str)
        ensures
            name == self.layer().layer_name,
    {
        self.layer.layer_name
    }

    /// Whether a press of `key` in `state` may be the first half of a pair.
    fn starts_pair(&self, state: LayerState, key: Key) -> (r: bool)
        requires
            self.wf(),
        ensures
            r == self.layer.starts_pair(state, key),
    {
        let code = first_code_of(state, key);
        let found = codes_contains(&self.pair_input_keys, code);
        proof {
            let n = self.layer.pairs().len() as int;
            if found {
                let i = choose|i: int| 0 <= i < n && pair_has_first_code(self.layer, i, code);
                let e = self.layer.pairs()[i];
                if code == first_code(e.condition, e.input[0]) {
                    lemma_first_code_injective(e.condition, e.input[0], state, key);
                } else {
                    lemma_first_code_injective(e.condition, e.input[1], state, key);
                }
                assert(self.layer.pair_involves(i, state, key));
            } else {
                assert forall|i: int| !self.layer.pair_involves(i, state, key) by {
                    if self.layer.pair_involves(i, state, key) {
                        assert(pair_has_first_code(self.layer, i, code));
                    }
                }
            }
        }
        found
    }

    /// The position of the pair entry for `a` and `b` in `state`, if any.
    fn find_pair(&self, state: LayerState, a: Key, b: Key) -> (r: Option<usize>)
        requires
            self.wf(),
        ensures
            match r {
                Some(i) => self.layer.pair_rule(state, a, b) == Some(i as int) && i
                    < self.layer.pairs().len(),
                None => self.layer.pair_rule(state, a, b) is None,
            },
    {
        let code = pair_code_of(state, a, b);
        let found = table_get(&self.pair_hotkeys_map, code);
        proof {
            match found {
                Some(i) => {
                    let e = self.layer.pairs()[i as int];
                    assert(pair_code_at(self.layer, i as int) == code);
                    lemma_pair_code_injective(e.condition, e.input[0], e.input[1], state, a, b);
                    assert(self.layer.pair_applies(i as int, state, a, b));
                    lemma_pair_rule_found(self.layer, i as int, state, a, b);
                },
                None => {
                    assert forall|i: int| !self.layer.pair_applies(i, state, a, b) by {
                        if self.layer.pair_applies(i, state, a, b) {
                            assert(self.pair_hotkeys_map@.contains_key(
                                pair_code_at(self.layer, i),
                            ));
                        }
                    }
                },
            }
        }
        found
    }

    /// Dispatches a key event that is decided: appends what it becomes to
    /// `out` and returns the state that follows `state`.
    fn fire_key_input(
        &self,
        state: LayerState,
        key: KeyInput,
        time: Timestamp,
        out: &mut Vec<TimedKeyInput>,
    ) -> (next: LayerState)
        requires
            self.wf(),
            state < self.layer.state_count,
        ensures
            next == self.layer.dispatch(state, key, time).0,
            final(out)@ == old(out)@ + self.layer.dispatch(state, key, time).1,
            next < self.layer.state_count,
    {
        let code = single_code_of(state, key);
        match table_get(&self.single_hotkeys_map, code) {
            Some(i) => {
                proof {
                    let e = self.layer.singles()[i as int];
                    assert(single_code_at(self.layer, i as int) == code);
                    lemma_single_code_injective(e.condition, e.input, state, key);
                    assert(self.layer.single_applies(i as int, state, key));
                    lemma_single_rule_found(self.layer, i as int, state, key);
                    assert(self.layer.violation_at(i as int) is None);
                }
                let entry = &self.layer.single_remap_entries[i];
                perform_action(&entry.output, entry.transition, time, out)
            },
            None => {
                proof {
                    assert forall|i: int| !self.layer.single_applies(i, state, key) by {
                        if self.layer.single_applies(i, state, key) {
                            assert(self.single_hotkeys_map@.contains_key(
                                single_code_at(self.layer, i),
                            ));
                        }
                    }
                }
                out.push(TimedKeyInput { input: key, time });
                state
            },
        }
    }

    /// Gives up on the waiting press of `s`, if there is one: appends what
    /// it becomes to `out` and returns the state that follows.
    fn fire_waiting_key(&self, s: RecorderState, out: &mut Vec<TimedKeyInput>) -> (next:
        RecorderState)
        requires
            self.wf(),
            s.state < self.layer.state_count,
        ensures
            next == self.layer.flush_waiting(s).0,
            final(out)@ == old(out)@ + self.layer.flush_waiting(s).1,
            next.state < self.layer.state_count,
    {
        match s.waiting_key {
            Some(w) => {
                let state = self.fire_key_input(s.state, KeyInput::press(w.key), w.time, out);
                RecorderState { state, waiting_key: None }
            },
            None => {
                assert(out@ + Seq::<TimedKeyInput>::empty() =~= out@);
                s
            },
        }
    }

    /// Decides what the event `key` at `time` does in state `s`.
    fn send_key_handler(
        &self,
        s: RecorderState,
        key: KeyInput,
        time: Timestamp,
        out: &mut Vec<TimedKeyInput>,
    ) -> (r: (RecorderState, Option<FlushRequest>))
        requires
            self.wf(),
            s.state < self.layer.state_count,
        ensures
            r.0 == self.layer.on_key(s, key, time).next,
            r.1 == self.layer.on_key(s, key, time).flush,
            final(out)@ == old(out)@ + self.layer.on_key(s, key, time).keys,
            r.0.state < self.layer.state_count,
    {
        let is_press = match key.1 {
            KeyInputKind::Press => true,
            KeyInputKind::Release => false,
        };
        if is_press && self.starts_pair(s.state, key.0) {
            if let Some(w) = s.waiting_key {
                if let Some(i) = self.find_pair(s.state, w.key, key.0) {
                    let entry = &self.layer.pair_remap_entries[i];
                    if w.time.within(time, entry.threshold) {
                        proof {
                            let n = self.layer.singles().len() as int;
                            assert(self.layer.violation_at(n + i) is None);
                        }
                        let state = perform_action(&entry.output, entry.transition, time, out);
                        return (RecorderState { state, waiting_key: None }, None);
                    }
                }
            }
            let flushed = self.fire_waiting_key(s, out);
            (
                RecorderState {
                    state: flushed.state,
                    waiting_key: Some(WaitingKey { key: key.0, time }),
                },
                Some(FlushRequest { key: key.0, time, delay_ms: self.threshold }),
            )
        } else {
            let ghost start = out@;
            let flushed = self.fire_waiting_key(s, out);
            let state = self.fire_key_input(flushed.state, key, time, out);
            proof {
                let before = self.layer.flush_waiting(s).1;
                let after = self.layer.dispatch(flushed.state, key, time).1;
                assert((start + before) + after =~= start + (before + after));
            }
            (RecorderState { state, waiting_key: None }, None)
        }
    }

    /// Takes the key event `key` that arrived at `time`. Returns the keys
    /// to pass downstream and, where the press is now waiting for a
    /// partner, the timer to arm for it.
    pub fn send_key(&mut self, key: KeyInput, time: Timestamp) -> (out: LayerOutput)
        requires
            old(self).wf(),
        ensures
            final(self).wf(),
            final(self).layer() == old(self).layer(),
            final(self)@ == old(self).layer().on_key(old(self)@, key, time).next,
            out.keys@ == old(self).layer().on_key(old(self)@, key, time).keys,
            out.flush == old(self).layer().on_key(old(self)@, key, time).flush,
    {
        let mut keys: Vec<TimedKeyInput> = Vec::new();
        let (next, flush) = self.send_key_handler(self.current, key, time, &mut keys);
        self.current = next;
        assert(Seq::<TimedKeyInput>::empty() + old(self).layer.on_key(old(self)@, key, time).keys
            =~= old(self).layer.on_key(old(self)@, key, time).keys);
        LayerOutput { keys, flush }
    }

    /// Takes the end of the input: the waiting press, if any, is given up
    /// and dispatched as a press of its own.
    pub fn close(&mut self) -> (out: LayerOutput)
        requires
            old(self).wf(),
        ensures
            final(self).wf(),
            final(self).layer() == old(self).layer(),
            final(self)@ == old(self).layer().on_close(old(self)@).next,
            out.keys@ == old(self).layer().on_close(old(self)@).keys,
            out.flush == old(self).layer().on_close(old(self)@).flush,
    {
        let mut keys: Vec<TimedKeyInput> = Vec::new();
        let next = self.fire_waiting_key(self.current, &mut keys);
        self.current = next;
        assert(Seq::<TimedKeyInput>::empty() + old(self).layer.flush_waiting(old(self)@).1
            =~= old(self).layer.flush_waiting(old(self)@).1);
        LayerOutput { keys, flush: None }
    }

    /// Takes the key events `events` one after the other. Returns every key
    /// to pass downstream and every timer to arm, in order.
    pub fn send_keys(&mut self, events: &Vec<TimedKeyInput>) -> (out: (
        Vec<TimedKeyInput>,
        Vec<FlushRequest>,
    ))
        requires
            old(self).wf(),
        ensures
            final(self).wf(),
            final(self).layer() == old(self).layer(),
            final(self)@ == old(self).layer().run(old(self)@, events@).state,
            out.0@ == old(self).layer().run(old(self)@, events@).keys,
            out.1@ == old(self).layer().run(old(self)@, events@).flushes,
    {
        let mut keys: Vec<TimedKeyInput> = Vec::new();
        let mut flushes: Vec<FlushRequest> = Vec::new();
        let mut i: usize = 0;
        while i < events.len()
            invariant
                i <= events.len(),
                self.wf(),
                self.layer == old(self).layer,
                self.current == self.layer.run(old(self)@, events@.subrange(0, i as int)).state,
                keys@ == self.layer.run(old(self)@, events@.subrange(0, i as int)).keys,
                flushes@ == self.layer.run(old(self)@, events@.subrange(0, i as int)).flushes,
            decreases events.len() - i,
        {
            let event = events[i];
            let (next, flush) = self.send_key_handler(self.current, event.input, event.time, &mut keys);
            self.current = next;
            if let Some(request) = flush {
                flushes.push(request);
            }
            proof {
                assert(events@.subrange(0, i + 1).drop_last() =~= events@.subrange(0, i as int));
                assert(flushes@ =~= self.layer.run(old(self)@, events@.subrange(0, i + 1)).flushes);
            }
            i += 1;
        }
        assert(events@.subrange(0, i as int) =~= events@);
        (keys, flushes)
    }

    /// Takes the timer for the press of `key` at `time`, now due. If that
    /// very press is still waiting it is given up and dispatched as a press
    /// of its own; a timer for a press that is no longer waiting does
    /// nothing.
    pub fn fire_specific_waiting_key(&mut self, key: Key, time: Timestamp) -> (out: LayerOutput)
        requires
            old(self).wf(),
        ensures
            final(self).wf(),
            final(self).layer() == old(self).layer(),
            final(self)@ == old(self).layer().on_flush(old(self)@, key, time).next,
            out.keys@ == old(self).layer().on_flush(old(self)@, key, time).keys,
            out.flush == old(self).layer().on_flush(old(self)@, key, time).flush,
    {
        let mut keys: Vec<TimedKeyInput> = Vec::new();
        let due = match self.current.waiting_key {
            Some(w) => w.key.0 == key.0 && w.time.micros == time.micros,
            None => false,
        };
        if due {
            let next = self.fire_waiting_key(self.current, &mut keys);
            self.current = next;
            assert(Seq::<TimedKeyInput>::empty() + old(self).layer.flush_waiting(old(self)@).1
                =~= old(self).layer.flush_waiting(old(self)@).1);
        }
        LayerOutput { keys, flush: None }
    }
}

} // verus!
