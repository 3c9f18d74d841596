//! How long a generator lasts under one key.
//!
//! A generator produces one output at every level below the limit, at its
//! position. When the levels are used up it moves to a new position by
//! committing one more bit, and when all 64 bits are committed it takes a new
//! key. The laws here say exactly when each of these happens.

use crate::bits::{lemma_field, lemma_top_bits};
use crate::model::{field, low_mask, RawState, LEVEL_LIMIT, POSITION_BITS};
use crate::regions::lemma_after_wf;
use vstd::prelude::*;

verus! {

/// The number of outputs that a generator produces before it takes a new
/// key: those left at its position, and all levels at one position for every
/// free bit.
pub open spec fn outputs_left(s: RawState) -> nat {
    ((LEVEL_LIMIT - s.level) + (POSITION_BITS - s.p_index) * LEVEL_LIMIT) as nat
}

/// The position at which a generator takes its new key: all bits that were
/// free have been set.
pub open spec fn last_position(s: RawState) -> u64 {
    s.position | !low_mask(s.p_index)
}

/// Taking `a` steps and then `b` is taking `a + b`.
pub proof fn lemma_after_add(s: RawState, a: nat, b: nat)
    ensures
        s.after(a + b) == s.after(a).after(b),
        s.steady(a + b) <==> s.steady(a) && s.after(a).steady(b),
    decreases b,
{
    if b > 0 {
        lemma_after_add(s, a, (b - 1) as nat);
        assert(s.after(a + b) == s.after((a + b - 1) as nat).next());
    }
}

/// While the level is below its limit, a step only raises the level: after
/// `m` outputs the level is `m` higher and nothing else has changed.
pub proof fn lemma_level_run(s: RawState, m: nat)
    requires
        s.wf(),
        s.level + m < LEVEL_LIMIT,
    ensures
        s.after(m) == (RawState { level: (s.level + m) as u64, ..s }),
        s.steady(m),
    decreases m,
{
    if m > 0 {
        lemma_level_run(s, (m - 1) as nat);
    }
}

/// Giving bits away does not disturb the outputs at the present position: a
/// generator that splits without taking a new key goes on to produce the
/// blocks that it would have produced unsplit, up to the last level.
pub proof fn lemma_split_keeps_outputs(s: RawState, bits: nat, m: nat)
    requires
        s.wf(),
        s.p_index + bits <= POSITION_BITS,
        s.level + m < LEVEL_LIMIT,
    ensures
        s.after_split(bits).after(m).output() == s.after(m).output(),
{
    lemma_split_keeps_wf(s, bits);
    lemma_level_run(s, m);
    lemma_level_run(s.after_split(bits), m);
}

/// A generator that has given bits away without taking a new key is
/// well-formed.
proof fn lemma_split_keeps_wf(s: RawState, bits: nat)
    requires
        s.wf(),
        s.p_index + bits <= POSITION_BITS,
    ensures
        s.after_split(bits).wf(),
{
    if bits > 0 {
        lemma_field(s.position, 0, 0, 0, s.p_index, bits);
    }
}

/// What happens when the levels of a position are used up. After as many
/// outputs as there are levels left, a generator with a free position bit
/// has set and committed the lowest free bit and is back at level 0, under
/// the same key. A generator with no free bit has taken a new key, which is
/// the transform of the limit level and the position under the old key, and
/// is in the state of a new generator.
pub proof fn lemma_counter_rollover(s: RawState)
    requires
        s.wf(),
    ensures
        s.p_index < POSITION_BITS ==> s.after((LEVEL_LIMIT - s.level) as nat) == (RawState {
            level: 0,
            position: s.position | field(1, s.p_index),
            p_index: s.p_index + 1,
            ..s
        }),
        s.p_index == POSITION_BITS ==> s.after((LEVEL_LIMIT - s.level) as nat) == RawState::fresh(
            (RawState { level: LEVEL_LIMIT, ..s }).output(),
        ),
        s.steady((LEVEL_LIMIT - s.level - 1) as nat),
        s.steady((LEVEL_LIMIT - s.level) as nat) <==> s.p_index < POSITION_BITS,
{
    let m = (LEVEL_LIMIT - s.level - 1) as nat;
    lemma_level_run(s, m);
    assert(s.after(m + 1) == s.after(m).next());
    assert(s.steady(m + 1) <==> s.steady(m) && !s.after(m).rekeys_on_next());
}

/// The whole life of a generator under one key. It produces
/// [`outputs_left`] outputs and keeps its key until the last of them. With
/// the last, it takes a new key, which is the transform of the limit level
/// and of [`last_position`] under the old key, and is in the state of a new
/// generator.
pub proof fn lemma_rekey_after(s: RawState)
    requires
        s.wf(),
    ensures
        s.steady((outputs_left(s) - 1) as nat),
        !s.steady(outputs_left(s)),
        s.after(outputs_left(s)) == RawState::fresh(
            (RawState { level: LEVEL_LIMIT, position: last_position(s), ..s }).output(),
        ),
    decreases POSITION_BITS - s.p_index,
{
    let a = (LEVEL_LIMIT - s.level) as nat;
    lemma_counter_rollover(s);
    lemma_top_bits(s.position, s.p_index);
    if s.p_index < POSITION_BITS {
        let t = s.after(a);
        lemma_after_wf(s, a);
        lemma_rekey_after(t);
        lemma_after_add(s, a, outputs_left(t));
        lemma_after_add(s, a, (outputs_left(t) - 1) as nat);
        assert(outputs_left(s) == a + outputs_left(t));
        assert(last_position(t) == last_position(s));
    }
}

} // verus!
