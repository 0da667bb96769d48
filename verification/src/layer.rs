//! Remap layers: the rules of one stage, and when a set of rules is sound.

use crate::keys::{Key, KeyInput};
use vstd::prelude::*;

verus! {

/// A state of a layer's machine. A layer with `n` states has the states
/// `0..n`.
pub type LayerState = u32;

/// Rewrites one key event: in state `condition`, the event `input` is
/// replaced by `output` and the layer moves to `transition`.
#[derive(PartialEq, Eq, Hash, Clone, Debug)]
pub struct SingleRemapEntry {
    /// State in which the entry applies.
    pub condition: LayerState,
    pub input: KeyInput,
    /// Key sequence to be output.
    pub output: Vec<KeyInput>,
    /// Next state.
    pub transition: LayerState,
}

/// Rewrites two presses that come close together: in state `condition`,
/// presses of the two keys of `input`, in either order and no more than
/// `threshold` milliseconds apart, are replaced by `output` and the layer
/// moves to `transition`.
#[derive(PartialEq, Eq, Hash, Clone, Debug)]
pub struct PairRemapEntry {
    /// State in which the entry applies.
    pub condition: LayerState,
    pub input: [Key; 2],
    /// Key sequence to be output.
    pub output: Vec<KeyInput>,
    /// Next state.
    pub transition: LayerState,
    /// Longest time between the two presses, in milliseconds.
    pub threshold: u32,
}

/// The rules of one remap stage.
#[derive(PartialEq, Eq, Clone, Debug)]
pub struct RemapLayer {
    pub pair_remap_entries: Vec<PairRemapEntry>,
    pub single_remap_entries: Vec<SingleRemapEntry>,
    pub layer_name: &'static str,
    pub initial_state: LayerState,
    /// Number of states of the layer's machine.
    pub state_count: u32,
}

/// Why a layer's rules are refused.
#[derive(PartialEq, Eq, Structural, Clone, Copy, Debug)]
pub enum LayerError {
    /// The initial state is not a state of the layer.
    UnknownInitialState,
    /// The single entry at this position names a state that the layer lacks.
    UnknownStateInSingle(usize),
    /// The single entry at this position has the condition and input of an
    /// earlier one.
    DuplicateSingle(usize),
    /// The pair entry at this position names a state that the layer lacks.
    UnknownStateInPair(usize),
    /// The pair entry at this position names one key twice.
    PairOfOneKey(usize),
    /// The pair entry at this position has the condition and keys of an
    /// earlier one.
    DuplicatePair(usize),
}

/// The largest threshold among `pairs`, or 0 where there is none.
pub open spec fn max_threshold_of(pairs: Seq<PairRemapEntry>) -> u32
    decreases pairs.len(),
{
    if pairs.len() == 0 {
        0
    } else {
        let rest = max_threshold_of(pairs.drop_last());
        if pairs.last().threshold > rest {
            pairs.last().threshold
        } else {
            rest
        }
    }
}

impl RemapLayer {
    pub open spec fn singles(&self) -> Seq<SingleRemapEntry> {
        self.single_remap_entries@
    }

    pub open spec fn pairs(&self) -> Seq<PairRemapEntry> {
        self.pair_remap_entries@
    }

    /// The single entry at position `i` is the one for `input` in `state`.
    pub open spec fn single_applies(&self, i: int, state: LayerState, input: KeyInput) -> bool {
        &&& 0 <= i < self.singles().len()
        &&& self.singles()[i].condition == state
        &&& self.singles()[i].input == input
    }

    /// The position of a single entry for `input` in `state`, if there is
    /// one. In a sound layer there is at most one.
    pub open spec fn single_rule(&self, state: LayerState, input: KeyInput) -> Option<int> {
        if exists|i: int| self.single_applies(i, state, input) {
            Some(choose|i: int| self.single_applies(i, state, input))
        } else {
            None
        }
    }

    /// The pair entry at position `i` applies in `state` and `key` is one of
    /// its two keys.
    pub open spec fn pair_involves(&self, i: int, state: LayerState, key: Key) -> bool {
        &&& 0 <= i < self.pairs().len()
        &&& self.pairs()[i].condition == state
        &&& (self.pairs()[i].input[0] == key || self.pairs()[i].input[1] == key)
    }

    /// The pair entry at position `i` is the one for the keys `a` and `b`,
    /// in either order, in `state`.
    pub open spec fn pair_applies(&self, i: int, state: LayerState, a: Key, b: Key) -> bool {
        &&& 0 <= i < self.pairs().len()
        &&& self.pairs()[i].condition == state
        &&& {
            ||| (self.pairs()[i].input[0] == a && self.pairs()[i].input[1] == b)
            ||| (self.pairs()[i].input[0] == b && self.pairs()[i].input[1] == a)
        }
    }

    /// The position of a pair entry for `a` and `b` in `state`, if there is
    /// one. In a sound layer there is at most one.
    pub open spec fn pair_rule(&self, state: LayerState, a: Key, b: Key) -> Option<int> {
        if exists|i: int| self.pair_applies(i, state, a, b) {
            Some(choose|i: int| self.pair_applies(i, state, a, b))
        } else {
            None
        }
    }

    /// A press of `key` in `state` may be the first half of a pair.
    pub open spec fn starts_pair(&self, state: LayerState, key: Key) -> bool {
        exists|i: int| self.pair_involves(i, state, key)
    }

    /// How long a held press waits for its partner, in milliseconds.
    pub open spec fn max_threshold(&self) -> u32 {
        max_threshold_of(self.pairs())
    }

    /// Number of entries, singles and pairs together.
    pub open spec fn entry_count(&self) -> nat {
        self.singles().len() + self.pairs().len()
    }

    /// What is wrong with the single entry at position `i`, if anything.
    pub open spec fn single_violation(&self, i: int) -> Option<LayerError> {
        let e = self.singles()[i];
        if e.condition >= self.state_count || e.transition >= self.state_count {
            Some(LayerError::UnknownStateInSingle(i as usize))
        } else if exists|j: int| j < i && self.single_applies(j, e.condition, e.input) {
            Some(LayerError::DuplicateSingle(i as usize))
        } else {
            None
        }
    }

    /// What is wrong with the pair entry at position `i`, if anything.
    pub open spec fn pair_violation(&self, i: int) -> Option<LayerError> {
        let e = self.pairs()[i];
        if e.condition >= self.state_count || e.transition >= self.state_count {
            Some(LayerError::UnknownStateInPair(i as usize))
        } else if e.input[0] == e.input[1] {
            Some(LayerError::PairOfOneKey(i as usize))
        } else if exists|j: int| j < i && self.pair_applies(j, e.condition, e.input[0], e.input[1]) {
            Some(LayerError::DuplicatePair(i as usize))
        } else {
            None
        }
    }

    /// What is wrong with the `n`-th entry, counting the singles first and
    /// the pairs after them.
    pub open spec fn violation_at(&self, n: int) -> Option<LayerError> {
        if n < self.singles().len() {
            self.single_violation(n)
        } else {
            self.pair_violation(n - self.singles().len())
        }
    }

    /// The `n`-th entry is the first one that breaks a rule.
    pub open spec fn is_first_violation(&self, n: int) -> bool {
        &&& 0 <= n < self.entry_count()
        &&& self.violation_at(n) is Some
        &&& forall|m: int| 0 <= m < n ==> (#[trigger] self.violation_at(m)) is None
    }

    /// The reason to refuse the layer: an unknown initial state, else what
    /// is wrong with the first entry that breaks a rule. `None` for a sound
    /// layer.
    pub open spec fn first_violation(&self) -> Option<LayerError> {
        if self.initial_state >= self.state_count {
            Some(LayerError::UnknownInitialState)
        } else if exists|n: int| self.is_first_violation(n) {
            self.violation_at(choose|n: int| self.is_first_violation(n))
        } else {
            None
        }
    }

    /// The layer is sound: every state it names is one of its states, no
    /// two entries compete for the same input, and every pair has two
    /// different keys.
    pub open spec fn valid(&self) -> bool {
        &&& self.initial_state < self.state_count
        &&& forall|n: int| 0 <= n < self.entry_count() ==> (#[trigger] self.violation_at(n)) is None
    }
}

/// In a sound layer the single entry for an event is the only one.
pub proof fn lemma_single_rule_found(layer: RemapLayer, i: int, state: LayerState, input: KeyInput)
    requires
        layer.valid(),
        layer.single_applies(i, state, input),
    ensures
        layer.single_rule(state, input) == Some(i),
{
    let j = choose|j: int| layer.single_applies(j, state, input);
    if j < i {
        assert(layer.violation_at(i) is None);
    } else if i < j {
        assert(layer.violation_at(j) is None);
    }
}

/// In a sound layer the pair entry for two keys is the only one.
pub proof fn lemma_pair_rule_found(layer: RemapLayer, i: int, state: LayerState, a: Key, b: Key)
    requires
        layer.valid(),
        layer.pair_applies(i, state, a, b),
    ensures
        layer.pair_rule(state, a, b) == Some(i),
{
    let n = layer.singles().len() as int;
    let j = choose|j: int| layer.pair_applies(j, state, a, b);
    if j < i {
        assert(layer.violation_at(n + i) is None);
        let e = layer.pairs()[i];
        assert(layer.pair_applies(j, e.condition, e.input[0], e.input[1]));
    } else if i < j {
        assert(layer.violation_at(n + j) is None);
        let e = layer.pairs()[j];
        assert(layer.pair_applies(i, e.condition, e.input[0], e.input[1]));
    }
}

/// The first entry that breaks a rule decides why a layer is refused.
pub proof fn lemma_first_violation(layer: RemapLayer, n: int)
    requires
        layer.initial_state < layer.state_count,
        layer.is_first_violation(n),
    ensures
        layer.first_violation() == layer.violation_at(n),
{
    let c = choose|c: int| layer.is_first_violation(c);
    if c < n {
        assert(layer.violation_at(c) is None);
    } else if n < c {
        assert(layer.violation_at(n) is None);
    }
}

/// A layer is sound exactly when there is no reason to refuse it.
pub proof fn lemma_valid_iff_no_violation(layer: RemapLayer)
    ensures
        layer.valid() <==> layer.first_violation() is None,
{
    if layer.initial_state < layer.state_count {
        if exists|n: int| layer.is_first_violation(n) {
            let c = choose|c: int| layer.is_first_violation(c);
            assert(layer.violation_at(c) is Some);
        } else if !layer.valid() {
            let bad = choose|n: int|
                0 <= n < layer.entry_count() && (#[trigger] layer.violation_at(n)) is Some;
            lemma_least_violation(layer, bad);
        }
    }
}

/// Before an entry that breaks a rule there is a first one that does.
proof fn lemma_least_violation(layer: RemapLayer, n: int)
    requires
        0 <= n < layer.entry_count(),
        layer.violation_at(n) is Some,
    ensures
        exists|m: int| layer.is_first_violation(m),
    decreases n,
{
    if forall|m: int| 0 <= m < n ==> (#[trigger] layer.violation_at(m)) is None {
        assert(layer.is_first_violation(n));
    } else {
        let m = choose|m: int| 0 <= m < n && (#[trigger] layer.violation_at(m)) is Some;
        lemma_least_violation(layer, m);
    }
}

/// The largest threshold is a threshold of the layer, and none is larger.
pub proof fn lemma_max_threshold(pairs: Seq<PairRemapEntry>)
    ensures
        forall|i: int| 0 <= i < pairs.len() ==> (#[trigger] pairs[i]).threshold <= max_threshold_of(pairs),
        pairs.len() > 0 ==> exists|i: int|
            0 <= i < pairs.len() && (#[trigger] pairs[i]).threshold == max_threshold_of(pairs),
        pairs.len() == 0 ==> max_threshold_of(pairs) == 0,
    decreases pairs.len(),
{
    if pairs.len() > 0 {
        let rest = pairs.drop_last();
        lemma_max_threshold(rest);
        assert forall|i: int| 0 <= i < pairs.len() implies (#[trigger] pairs[i]).threshold
            <= max_threshold_of(pairs) by {
            if i < rest.len() {
                assert(rest[i] == pairs[i]);
            }
        }
        if pairs.last().threshold > max_threshold_of(rest) || rest.len() == 0 {
            assert(pairs[pairs.len() - 1].threshold == max_threshold_of(pairs));
        } else {
            let i = choose|i: int|
                0 <= i < rest.len() && (#[trigger] rest[i]).threshold == max_threshold_of(rest);
            assert(pairs[i] == rest[i]);
        }
    }
}

impl Default for RemapLayer {
    /// A layer with one state and no rule.
    fn default() -> (layer: RemapLayer)
        ensures
            layer.singles().len() == 0,
            layer.pairs().len() == 0,
            layer.initial_state == 0,
            layer.state_count == 1,
            layer.layer_name@ == Seq::<char>::empty(),
    {
        let name: &'static str = "";
        proof {
            reveal_strlit("");
        }
        RemapLayer {
            pair_remap_entries: Vec::new(),
            single_remap_entries: Vec::new(),
            layer_name: name,
            initial_state: 0,
            state_count: 1,
        }
    }
}

} // verus!
