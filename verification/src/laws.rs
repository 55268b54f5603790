//! Laws that relate several parts of the table's contract.

use vstd::prelude::*;

use crate::Roulette;
use crate::mass::lemma_mass_zero_slot;
use crate::mass::mass_upto;
use crate::mass::slot_mass;
use crate::sums::lemma_sum_int_scale;
use crate::sums::sum_int;

verus! {

/// How many of the draw values `v` in `[0, bound)` select item `i` when the
/// uniform slot draw came out as `column`.
pub open spec fn hits_in_column<T>(t: Roulette<T>, column: int, i: int, bound: int) -> int
    decreases bound,
{
    if bound <= 0 {
        0
    } else {
        hits_in_column(t, column, i, bound - 1) + if t.spec_select(column, bound - 1) == i {
            1int
        } else {
            0int
        }
    }
}

/// How many of the `k * total` draw outcomes with a slot below `k` select
/// item `i`.
pub open spec fn hits_in_table<T>(t: Roulette<T>, i: int, k: int) -> int
    decreases k,
{
    if k <= 0 {
        0
    } else {
        hits_in_table(t, i, k - 1) + hits_in_column(t, k - 1, i, t.total as int)
    }
}

proof fn lemma_hits_in_column_closed<T>(t: Roulette<T>, column: int, i: int, b: int)
    requires
        t.wf(),
        0 <= column < t.items@.len(),
        0 <= b <= t.total,
    ensures
        hits_in_column(t, column, i, b) == (if column == i {
            if b <= t.threshold@[column] {
                b
            } else {
                t.threshold@[column] as int
            }
        } else {
            0
        }) + (if t.alias@[column] as int == i {
            b - (if b <= t.threshold@[column] {
                b
            } else {
                t.threshold@[column] as int
            })
        } else {
            0
        }),
    decreases b,
{
    if b > 0 {
        lemma_hits_in_column_closed(t, column, i, b - 1);
    }
}

/// Sampling frequency is the mass ledger, exactly: out of the
/// `n * total` equally likely draw outcomes — a slot `column` and a value
/// `v` below the total — the number that select item `i` is precisely the
/// mass the table assigns to `i`. For a table built by `new` that mass is
/// `n * w[i]`, so item `i` is drawn with probability `w[i] / total`.
pub proof fn lemma_outcomes_match_mass<T>(t: Roulette<T>, i: int)
    requires
        t.wf(),
    ensures
        hits_in_table(t, i, t.items@.len() as int) == t.spec_mass(i),
{
    lemma_hits_in_table_partial(t, i, t.items@.len() as int);
}

proof fn lemma_hits_in_table_partial<T>(t: Roulette<T>, i: int, k: int)
    requires
        t.wf(),
        0 <= k <= t.items@.len(),
    ensures
        hits_in_table(t, i, k) == mass_upto(t.alias@, t.threshold@, t.total, k, i),
    decreases k,
{
    if k > 0 {
        lemma_hits_in_table_partial(t, i, k - 1);
        lemma_hits_in_column_closed(t, k - 1, i, t.total as int);
    }
}

/// Scaling every weight by one positive factor changes nothing that a draw
/// can see: tables built from `w` and from `k * w` give each item the same
/// share of the mass, stated here with the denominators cross-multiplied.
pub proof fn lemma_normalization_invariance<T>(t1: Roulette<T>, t2: Roulette<T>, w: Seq<int>, k: int)
    requires
        k > 0,
        t1.matches_weights(w),
        t2.matches_weights(w.map(|i: int, x: int| k * x)),
    ensures
        forall|i: int|
            0 <= i < w.len() ==> t2.spec_mass(i) * (t1.total as int) == t1.spec_mass(i) * (
            t2.total as int),
{
    let scaled = w.map(|i: int, x: int| k * x);
    lemma_sum_int_scale(w, k);
    let n = w.len() as int;
    let s = sum_int(w);
    assert forall|i: int| 0 <= i < w.len() implies t2.spec_mass(i) * (t1.total as int)
        == t1.spec_mass(i) * (t2.total as int) by {
        assert(t1.spec_mass(i) == n * w[i]);
        assert(t2.spec_mass(i) == n * (k * w[i]));
        assert((n * (k * w[i])) * s == (n * w[i]) * (k * s)) by (nonlinear_arith);
    }
}

/// An item that holds no mass is never selected: no slot keeps it for any
/// value under its threshold, and no slot falls back to it with anything
/// left above its threshold.
pub proof fn lemma_zero_mass_never_selected<T>(t: Roulette<T>, i: int, column: int, v: int)
    requires
        t.wf(),
        0 <= i < t.items@.len(),
        t.spec_mass(i) == 0,
        0 <= column < t.items@.len(),
        0 <= v < t.total,
    ensures
        t.spec_select(column, v) != i,
{
    lemma_mass_zero_slot(t.alias@, t.threshold@, t.total, t.alias@.len() as int, column, i);
    assert(slot_mass(t.alias@, t.threshold@, t.total, column, i) == 0);
    if t.spec_select(column, v) == i {
        if v < t.threshold@[column] {
            assert(column == i);
            assert(t.threshold@[column] as int == 0);
        } else {
            assert(t.alias@[column] as int == i);
            assert(t.total - t.threshold@[column] == 0);
        }
    }
}

/// When one item carries every unit of weight, every draw selects it.
pub proof fn lemma_single_winner<T>(t: Roulette<T>, w: Seq<int>, b: int, column: int, v: int)
    requires
        t.matches_weights(w),
        0 <= b < w.len(),
        forall|i: int| 0 <= i < w.len() && i != b ==> w[i] == 0,
        0 <= column < w.len(),
        0 <= v < t.total,
    ensures
        t.spec_select(column, v) == b,
{
    let chosen = t.spec_select(column, v);
    assert(0 <= chosen < t.items@.len());
    if chosen != b {
        assert(t.spec_mass(chosen) == w.len() * w[chosen]);
        assert(w[chosen] == 0);
        assert(w.len() * 0 == 0) by (nonlinear_arith);
        lemma_zero_mass_never_selected(t, chosen, column, v);
    }
}

} // verus!
