//! Hashed lookup tables for the rules of a layer.
//!
//! A rule is found by a 64-bit code made of the state it applies in and the
//! keys it takes. The codes are one-to-one, so a table keyed by code is a
//! table keyed by what the code was made of.

use crate::keys::{Key, KeyInput, KeyInputKind};
use crate::layer::LayerState;
use rustc_hash::{FxHashMap, FxHashSet};
use vstd::prelude::*;

verus! {

/// `rustc_hash::FxHasher`, the hasher of the tables. Nothing is said of what
/// it holds.
#[verifier::external_type_specification]
#[verifier::external_body]
pub struct ExFxHasher(rustc_hash::FxHasher);

/// `core::hash::BuildHasherDefault`, which makes the hasher of a table.
/// Nothing is said of what it holds.
#[verifier::external_type_specification]
#[verifier::external_body]
#[verifier::reject_recursive_types(H)]
pub struct ExBuildHasherDefault<H>(core::hash::BuildHasherDefault<H>);

/// The code of the event `input` arriving in `state`.
pub open spec fn single_code(state: LayerState, input: KeyInput) -> u64 {
    (state * 0x2_0000 + input.0.0 * 2 + (if input.1 == KeyInputKind::Press {
        1int
    } else {
        0int
    })) as u64
}

/// The code of `key` pressed in `state`.
pub open spec fn first_code(state: LayerState, key: Key) -> u64 {
    (state * 0x1_0000 + key.0) as u64
}

/// The code of the keys `a` and `b`, in either order, pressed in `state`.
pub open spec fn pair_code(state: LayerState, a: Key, b: Key) -> u64 {
    if a.0 <= b.0 {
        (state * 0x1_0000_0000 + a.0 * 0x1_0000 + b.0) as u64
    } else {
        (state * 0x1_0000_0000 + b.0 * 0x1_0000 + a.0) as u64
    }
}

/// Different events, or one event in different states, have different codes.
pub proof fn lemma_single_code_injective(s1: LayerState, i1: KeyInput, s2: LayerState, i2: KeyInput)
    requires
        single_code(s1, i1) == single_code(s2, i2),
    ensures
        s1 == s2,
        i1 == i2,
{
}

/// Different keys, or one key in different states, have different codes.
pub proof fn lemma_first_code_injective(s1: LayerState, k1: Key, s2: LayerState, k2: Key)
    requires
        first_code(s1, k1) == first_code(s2, k2),
    ensures
        s1 == s2,
        k1 == k2,
{
}

/// Two pairs have the same code only in the same state and with the same
/// two keys, whatever their order.
pub proof fn lemma_pair_code_injective(s1: LayerState, a1: Key, b1: Key, s2: LayerState, a2: Key, b2: Key)
    requires
        pair_code(s1, a1, b1) == pair_code(s2, a2, b2),
    ensures
        s1 == s2,
        (a1 == a2 && b1 == b2) || (a1 == b2 && b1 == a2),
{
}

/// Computes [`single_code`].
pub fn single_code_of(state: LayerState, input: KeyInput) -> (code: u64)
    ensures
        code == single_code(state, input),
{
    let bit: u64 = match input.1 {
        KeyInputKind::Press => 1,
        KeyInputKind::Release => 0,
    };
    (state as u64) * 0x2_0000 + (input.0.0 as u64) * 2 + bit
}

/// Computes [`first_code`].
pub fn first_code_of(state: LayerState, key: Key) -> (code: u64)
    ensures
        code == first_code(state, key),
{
    (state as u64) * 0x1_0000 + (key.0 as u64)
}

/// Computes [`pair_code`].
pub fn pair_code_of(state: LayerState, a: Key, b: Key) -> (code: u64)
    ensures
        code == pair_code(state, a, b),
{
    if a.0 <= b.0 {
        (state as u64) * 0x1_0000_0000 + (a.0 as u64) * 0x1_0000 + (b.0 as u64)
    } else {
        (state as u64) * 0x1_0000_0000 + (b.0 as u64) * 0x1_0000 + (a.0 as u64)
    }
}

/// `FxHashMap::default`: a table with no entry.
///
/// This and the wrappers below take it that a table keyed by `u64` and
/// hashed by `FxHasher` is a map: the hasher gives equal codes equal hashes,
/// as its source shows, and so `HashMap` and `HashSet` work as documented.
#[verifier::external_body]
pub(crate) fn table_new() -> (table: FxHashMap<u64, usize>)
    ensures
        table@ == (Map::<u64, usize>::empty()),
{
    FxHashMap::default()
}

/// `HashMap::insert` on an `FxHashMap`: afterwards `code` leads to `index`
/// and every other code to what it led to before. Returns what `code` led
/// to before, if anything.
#[verifier::external_body]
pub(crate) fn table_insert(table: &mut FxHashMap<u64, usize>, code: u64, index: usize) -> (previous: Option<usize>)
    ensures
        final(table)@ == old(table)@.insert(code, index),
        previous == (if old(table)@.contains_key(code) {
            Some(old(table)@[code])
        } else {
            None
        }),
{
    table.insert(code, index)
}

/// `HashMap::get` on an `FxHashMap`: what `code` leads to, if anything.
#[verifier::external_body]
pub(crate) fn table_get(table: &FxHashMap<u64, usize>, code: u64) -> (found: Option<usize>)
    ensures
        found == (if table@.contains_key(code) {
            Some(table@[code])
        } else {
            None
        }),
{
    table.get(&code).copied()
}

/// `FxHashSet::default`: a set with no member.
#[verifier::external_body]
pub(crate) fn codes_new() -> (codes: FxHashSet<u64>)
    ensures
        codes@ == (Set::<u64>::empty()),
{
    FxHashSet::default()
}

/// `HashSet::insert` on an `FxHashSet`: afterwards `code` is a member, and
/// nothing else has changed.
#[verifier::external_body]
pub(crate) fn codes_insert(codes: &mut FxHashSet<u64>, code: u64)
    ensures
        final(codes)@ == old(codes)@.insert(code),
{
    codes.insert(code);
}

/// `HashSet::contains` on an `FxHashSet`: whether `code` is a member.
#[verifier::external_body]
pub(crate) fn codes_contains(codes: &FxHashSet<u64>, code: u64) -> (found: bool)
    ensures
        found == codes@.contains(code),
{
    codes.contains(&code)
}

} // verus!
