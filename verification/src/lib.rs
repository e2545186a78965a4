//! Capped multisets: collections of keyed or positioned counts with an
//! optional, mutable, non-destructive ceiling (the *cap*) that bounds every
//! count when it is read, without ever touching the stored data.
//!
//! Two structural forms are provided:
//! * [`CappedMultiset`]: a keyed multiset, where repeated insertion of one key
//!   accumulates a single per-key multiplicity, and the cap bounds that
//!   aggregated multiplicity on every read.
//! * [`PositionalCappedMultiset`]: a positional variant, where every stored
//!   value keeps its own slot (duplicates stay separate), supporting
//!   element-wise union and intersection on the raw values.
//!
//! Counters use saturating arithmetic: accumulating past `usize::MAX` sticks
//! at `usize::MAX` instead of wrapping or failing.

use vstd::prelude::*;

mod keyed;

pub use keyed::CappedMultiset;
pub use keyed::capped_sum;
pub use keyed::lemma_absent_key_counts_zero;
pub use keyed::lemma_cap_change_reversible;
pub use keyed::lemma_capped_sum_empty;
pub use keyed::lemma_capped_sum_insert;
pub use keyed::lemma_high_cap_sum_exact;
pub use keyed::lemma_insert_accumulates;
pub use keyed::mult_of;
pub use keyed::spec_insert;

mod positional;

pub use positional::PositionalCappedMultiset;
pub use positional::capped_elem_sum;
pub use positional::lemma_high_cap_elem_sum_exact;
pub use positional::lemma_intersection_commutative;
pub use positional::lemma_intersection_idempotent;
pub use positional::lemma_union_commutative;
pub use positional::lemma_union_idempotent;
pub use positional::zip_max;
pub use positional::zip_min;

verus! {

/// The smaller of two natural numbers.
pub open spec fn min_nat(a: nat, b: nat) -> nat {
    if a <= b {
        a
    } else {
        b
    }
}

/// A multiplicity as observed through an optional cap: the raw value when no
/// cap is set, otherwise at most the cap.
pub open spec fn apply_cap(v: nat, cap: Option<usize>) -> nat {
    match cap {
        None => v,
        Some(c) => min_nat(v, c as nat),
    }
}

/// A mathematical count squeezed into the range of `usize`: values beyond
/// `usize::MAX` saturate to `usize::MAX`.
pub open spec fn sat_to_usize(x: nat) -> nat {
    if x <= usize::MAX as nat {
        x
    } else {
        usize::MAX as nat
    }
}

/// Saturating addition on `usize`: the exact sum when it is representable,
/// `usize::MAX` otherwise.
pub(crate) fn sat_add(a: usize, b: usize) -> (r: usize)
    ensures
        r as nat == sat_to_usize(a as nat + b as nat),
{
    if a <= usize::MAX - b {
        a + b
    } else {
        usize::MAX
    }
}

} // verus!
