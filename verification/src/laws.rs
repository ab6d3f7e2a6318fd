//! The harness's cross-cutting laws, each proved from the contracts the
//! modules state: tag determinism, chain-id override semantics, the storage
//! round trip, and how nested frames' events survive in the final log.

use vstd::prelude::*;
use crate::addr::{Address, tag_address_of, tag_key_address_of};
use crate::word::U256;
use crate::event::EventView;
use crate::state::{SlotEntry, slot_of};
use crate::samples::slots_unchanged_except;
use crate::world::World;

verus! {

/// Two derivations from equal tags give the same address, in whatever order
/// and under whatever state the invocations happen: both registry
/// derivations are pure functions of the tag.
pub proof fn lemma_tag_derivation_deterministic(t1: Seq<char>, t2: Seq<char>)
    requires
        t1 == t2,
    ensures
        tag_address_of(t1) == tag_address_of(t2),
        tag_key_address_of(t1) == tag_key_address_of(t2),
{
}

/// The state an override leaves: only the chain identifier changes.
pub open spec fn spec_set_chain_id(w: World, x: u64) -> World {
    World { chain_id: x, ..w }
}

/// A sequence of chain-id overrides applied in order.
pub open spec fn apply_overrides(w: World, xs: Seq<u64>) -> World
    decreases xs.len(),
{
    if xs.len() == 0 {
        w
    } else {
        apply_overrides(spec_set_chain_id(w, xs[0]), xs.drop_first())
    }
}

/// The chain identifier read after any sequence of overrides is the most
/// recent override's value, or the starting value when none was made; a
/// fresh chain starts at the default.
pub proof fn lemma_chain_id_last_override(w: World, xs: Seq<u64>)
    ensures
        apply_overrides(w, xs).chain_id == if xs.len() == 0 {
            w.chain_id
        } else {
            xs.last()
        },
    decreases xs.len(),
{
    if xs.len() > 0 {
        lemma_chain_id_last_override(spec_set_chain_id(w, xs[0]), xs.drop_first());
        if xs.len() > 1 {
            assert(xs.drop_first().last() == xs.last());
        }
    }
}

/// Overriding the chain identifier twice with one value leaves the same
/// state as overriding it once.
pub proof fn lemma_set_chain_id_idempotent(w: World, x: u64)
    ensures
        spec_set_chain_id(spec_set_chain_id(w, x), x) == spec_set_chain_id(w, x),
{
}

/// What one storage write promises of the arena.
pub open spec fn slot_write_rel(
    pre: Seq<SlotEntry>,
    post: Seq<SlotEntry>,
    a: Address,
    k: U256,
    v: U256,
) -> bool {
    slot_of(post, a, k) == v && slots_unchanged_except(pre, post, a, k)
}

/// Round trip: after a write, a read of the written key returns exactly the
/// written value, and a read of any other key returns what it held before.
pub proof fn lemma_slot_round_trip(
    pre: Seq<SlotEntry>,
    post: Seq<SlotEntry>,
    a: Address,
    k: U256,
    v: U256,
    b: Address,
    k2: U256,
)
    requires
        slot_write_rel(pre, post, a, k, v),
    ensures
        slot_of(post, a, k) == v,
        !(b == a && k2 == k) ==> slot_of(post, b, k2) == slot_of(pre, b, k2),
{
}

/// Nesting: when an inner frame returns successfully, growing the log from
/// `log0` to `log1`, and every enclosing frame also only appends, ending at
/// `log2`, then the inner frame's entries stand in the final log at their
/// emission positions, in emission order.
pub proof fn lemma_nested_events_kept(
    log0: Seq<EventView>,
    log1: Seq<EventView>,
    log2: Seq<EventView>,
)
    requires
        log0.is_prefix_of(log1),
        log1.is_prefix_of(log2),
    ensures
        forall|i: int| 0 <= i < log1.len() ==> log2[i] == log1[i],
        forall|i: int| log0.len() <= i < log1.len() ==> log2[i] == log1[i],
{
    assert(log1 =~= log2.subrange(0, log1.len() as int));
}

} // verus!
