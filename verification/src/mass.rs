//! Probability-mass accounting over the alias and threshold arrays.
//!
//! A finished table resolves a draw in two steps: a uniform slot `j`, then
//! a uniform value `v` below the weight total. Slot `j` yields its own item
//! when `v < threshold[j]` and the item at `alias[j]` otherwise, so slot `j`
//! contributes `threshold[j]` units of mass to item `j` and the remaining
//! `total - threshold[j]` units to item `alias[j]`. `item_mass` adds these
//! contributions over all slots; construction proves that the result is
//! exactly `n * w[i]` for every item.

use vstd::prelude::*;

verus! {

/// Mass that slot `j` contributes to item `i`.
pub open spec fn slot_mass(alias: Seq<usize>, threshold: Seq<u64>, total: u64, j: int, i: int) -> int {
    (if j == i {
        threshold[j] as int
    } else {
        0
    }) + (if alias[j] as int == i {
        total - threshold[j]
    } else {
        0
    })
}

/// Mass that slots `0..k` contribute to item `i`.
pub open spec fn mass_upto(alias: Seq<usize>, threshold: Seq<u64>, total: u64, k: int, i: int) -> int
    decreases k,
{
    if k <= 0 {
        0
    } else {
        mass_upto(alias, threshold, total, k - 1, i) + slot_mass(alias, threshold, total, k - 1, i)
    }
}

/// Mass that the whole table assigns to item `i`, out of `alias.len() * total`.
pub open spec fn item_mass(alias: Seq<usize>, threshold: Seq<u64>, total: u64, i: int) -> int {
    mass_upto(alias, threshold, total, alias.len() as int, i)
}

/// Before any slot is paired (every slot aliases itself with threshold 0),
/// each item in range holds exactly `total` units of mass.
pub proof fn lemma_mass_init(alias: Seq<usize>, threshold: Seq<u64>, total: u64, k: int, i: int)
    requires
        0 <= k <= alias.len(),
        alias.len() == threshold.len(),
        forall|j: int| 0 <= j < alias.len() ==> alias[j] as int == j,
        forall|j: int| 0 <= j < alias.len() ==> threshold[j] == 0,
    ensures
        mass_upto(alias, threshold, total, k, i) == if 0 <= i < k {
            total as int
        } else {
            0
        },
    decreases k,
{
    if k > 0 {
        lemma_mass_init(alias, threshold, total, k - 1, i);
    }
}

/// Rewriting the arrays at a single slot `j` shifts each item's mass by the
/// difference of slot `j`'s old and new contributions.
pub proof fn lemma_mass_update(
    a1: Seq<usize>,
    t1: Seq<u64>,
    a2: Seq<usize>,
    t2: Seq<u64>,
    total: u64,
    j: int,
    k: int,
    i: int,
)
    requires
        a1.len() == t1.len(),
        a2.len() == a1.len(),
        t2.len() == t1.len(),
        0 <= j < a1.len(),
        0 <= k <= a1.len(),
        forall|m: int| 0 <= m < a1.len() && m != j ==> a2[m] == a1[m] && t2[m] == t1[m],
    ensures
        mass_upto(a2, t2, total, k, i) == mass_upto(a1, t1, total, k, i) + if j < k {
            slot_mass(a2, t2, total, j, i) - slot_mass(a1, t1, total, j, i)
        } else {
            0
        },
    decreases k,
{
    if k > 0 {
        lemma_mass_update(a1, t1, a2, t2, total, j, k - 1, i);
    }
}

/// With thresholds bounded by the total, every partial mass is nonnegative.
pub proof fn lemma_mass_nonneg(alias: Seq<usize>, threshold: Seq<u64>, total: u64, k: int, i: int)
    requires
        alias.len() == threshold.len(),
        0 <= k <= alias.len(),
        forall|j: int| 0 <= j < threshold.len() ==> threshold[j] <= total,
    ensures
        mass_upto(alias, threshold, total, k, i) >= 0,
    decreases k,
{
    if k > 0 {
        lemma_mass_nonneg(alias, threshold, total, k - 1, i);
    }
}

/// An item with zero mass receives nothing from any single slot.
pub proof fn lemma_mass_zero_slot(alias: Seq<usize>, threshold: Seq<u64>, total: u64, k: int, j: int, i: int)
    requires
        alias.len() == threshold.len(),
        0 <= j < k <= alias.len(),
        forall|m: int| 0 <= m < threshold.len() ==> threshold[m] <= total,
        mass_upto(alias, threshold, total, k, i) == 0,
    ensures
        slot_mass(alias, threshold, total, j, i) == 0,
    decreases k,
{
    lemma_mass_nonneg(alias, threshold, total, k - 1, i);
    if j == k - 1 {
    } else {
        lemma_mass_zero_slot(alias, threshold, total, k - 1, j, i);
    }
}

} // verus!
