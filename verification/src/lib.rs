//! Weighted random selection by the alias method.
//!
//! A `Roulette` table is built once, in O(n) time, from a sequence of
//! (item, weight) pairs with nonnegative integer weights; afterwards each
//! draw costs O(1): one uniform slot index and one uniform value below the
//! weight total decide the item. Construction distributes the probability
//! mass exactly: the mass that the finished table assigns to item `i` is
//! `n * w[i]` out of `n * total`, which is proved, not approximated.

use vstd::prelude::*;

pub mod laws;
pub mod mass;
pub mod sums;

use crate::mass::item_mass;
use crate::mass::lemma_mass_init;
use crate::mass::lemma_mass_update;
use crate::mass::slot_mass;
use crate::sums::in_idx;
use crate::sums::lemma_in_idx_drop_last;
use crate::sums::lemma_in_idx_push;
use crate::sums::lemma_sum_at_agree;
use crate::sums::lemma_sum_at_all_eq;
use crate::sums::lemma_sum_at_le;
use crate::sums::lemma_sum_int_element;
use crate::sums::lemma_sum_int_nonneg;
use crate::sums::lemma_sum_int_take_le;
use crate::sums::lemma_sum_int_take_step;
use crate::sums::sum_at;
use crate::sums::sum_int;

verus! {

/// Why a table could not be built.
#[derive(Clone, Copy, Debug, PartialEq, Eq, Structural)]
pub enum RouletteError {
    /// Some weight was negative.
    NegativeWeight,
    /// Every weight was zero (or the input was empty), so no item can win.
    AllWeightsZero,
}

/// A weighted-selection table built by the alias method. Slot `j` answers a
/// draw in O(1): a uniform value below `total` that falls under
/// `threshold[j]` keeps item `j`, anything above falls back to the item at
/// `alias[j]`.
pub struct Roulette<T> {
    /// The items, one per slot, in the order they were given.
    pub items: Vec<T>,
    /// Fallback slot per slot; a valid slot index everywhere.
    pub alias: Vec<usize>,
    /// Acceptance numerator per slot, out of `total`.
    pub threshold: Vec<u64>,
    /// The sum of all weights: the denominator of every acceptance test.
    pub total: u64,
}

/// The weights of a sequence of (item, weight) pairs, as mathematical integers.
pub open spec fn weights_of<T>(entries: Seq<(T, i64)>) -> Seq<int> {
    entries.map(|i: int, p: (T, i64)| p.1 as int)
}

/// Construction scratch: both worklists hold valid slots, free of
/// duplicates within and across the two lists.
spec fn worklists_wf(small: Seq<usize>, large: Seq<usize>, n: int) -> bool {
    &&& forall|m: int| 0 <= m < small.len() ==> (small[m] as int) < n
    &&& forall|m: int| 0 <= m < large.len() ==> (large[m] as int) < n
    &&& forall|a: int, b: int| 0 <= a < b < small.len() ==> small[a] != small[b]
    &&& forall|a: int, b: int| 0 <= a < b < large.len() ==> large[a] != large[b]
    &&& forall|a: int, b: int| 0 <= a < small.len() && 0 <= b < large.len() ==> small[a] != large[b]
}

/// Construction scratch: slots below the per-slot average of `total` sit in
/// `small`, the rest in `large`.
spec fn classified(small: Seq<usize>, large: Seq<usize>, scaled: Seq<u64>, total: u64) -> bool {
    &&& forall|m: int| 0 <= m < small.len() ==> scaled[small[m] as int] < total
    &&& forall|m: int| 0 <= m < large.len() ==> scaled[large[m] as int] >= total
}

/// Construction scratch: a slot still on a worklist has not been written
/// yet: threshold zero, aliased to itself.
spec fn untouched(small: Seq<usize>, large: Seq<usize>, alias: Seq<usize>, threshold: Seq<u64>) -> bool {
    &&& forall|m: int|
        0 <= m < small.len() ==> threshold[small[m] as int] == 0 && alias[small[m] as int] as int
            == small[m] as int
    &&& forall|m: int|
        0 <= m < large.len() ==> threshold[large[m] as int] == 0 && alias[large[m] as int] as int
            == large[m] as int
}

/// The output arrays have one entry per slot, valid aliases and thresholds.
spec fn arrays_wf(alias: Seq<usize>, threshold: Seq<u64>, total: u64, n: int) -> bool {
    &&& alias.len() == n
    &&& threshold.len() == n
    &&& forall|j: int| 0 <= j < n ==> (alias[j] as int) < n
    &&& forall|j: int| 0 <= j < n ==> threshold[j] <= total
}

/// The accounting that construction maintains: a finished slot's mass is in
/// the arrays, while a slot still on a worklist holds `total` units there
/// minus the `scaled[i]` it still has to place, so that each item always
/// owns exactly `n * w[i]` units overall.
spec fn mass_inv(
    small: Seq<usize>,
    large: Seq<usize>,
    alias: Seq<usize>,
    threshold: Seq<u64>,
    scaled: Seq<u64>,
    total: u64,
    w: Seq<int>,
) -> bool {
    forall|i: int|
        0 <= i < w.len() ==> item_mass(alias, threshold, total, i) == w.len() * w[i] + (if in_idx(
            small,
            i,
        ) || in_idx(large, i) {
            total - scaled[i]
        } else {
            0
        })
}

impl<T> Roulette<T> {
    /// Structural soundness: three parallel arrays of equal nonzero length,
    /// every alias a valid slot, every threshold at most the total.
    pub open spec fn wf(self) -> bool {
        &&& self.alias@.len() == self.items@.len()
        &&& self.threshold@.len() == self.items@.len()
        &&& self.items@.len() >= 1
        &&& self.total >= 1
        &&& forall|j: int| 0 <= j < self.items@.len() ==> (self.alias@[j] as int) < self.items@.len()
        &&& forall|j: int| 0 <= j < self.items@.len() ==> self.threshold@[j] <= self.total
    }

    /// Mass the table assigns to item `i`, out of `items.len() * total`.
    pub open spec fn spec_mass(self, i: int) -> int {
        item_mass(self.alias@, self.threshold@, self.total, i)
    }

    /// The slot a draw of (`column`, `v`) resolves to.
    pub open spec fn spec_select(self, column: int, v: int) -> int {
        if v < self.threshold@[column] {
            column
        } else {
            self.alias@[column] as int
        }
    }

    /// The table that `new` owes to the weights `w`: well-formed, one slot
    /// per weight, the weight sum as its denominator, and item `i` holding
    /// exactly `w.len() * w[i]` units of mass — the alias method loses and
    /// invents nothing.
    pub open spec fn matches_weights(self, w: Seq<int>) -> bool {
        &&& self.wf()
        &&& self.items@.len() == w.len()
        &&& forall|i: int| 0 <= i < w.len() ==> w[i] >= 0
        &&& self.total as int == sum_int(w)
        &&& forall|i: int| 0 <= i < w.len() ==> self.spec_mass(i) == w.len() * w[i]
    }

    /// Builds a table from (item, weight) pairs; the weights need not be
    /// normalized. Fails on a negative weight, and when the weights sum to
    /// zero (the empty input included); a zero weight beside positive ones
    /// is fine — that item is kept but never selected. The one demand on
    /// the caller is the machine limit that the mass accounting fits in a
    /// word: slot count times weight total at most `u64::MAX`.
    pub fn new(entries: Vec<(T, i64)>) -> (result: Result<Roulette<T>, RouletteError>)
        requires
            (forall|i: int| 0 <= i < entries@.len() ==> entries@[i].1 >= 0) ==> entries@.len()
                * sum_int(weights_of(entries@)) <= u64::MAX,
        ensures
            result == Err::<Roulette<T>, RouletteError>(RouletteError::NegativeWeight) <==> exists|
                i: int,
            | 0 <= i < entries@.len() && entries@[i].1 < 0,
            result == Err::<Roulette<T>, RouletteError>(RouletteError::AllWeightsZero) <==> ((
            forall|i: int| 0 <= i < entries@.len() ==> entries@[i].1 >= 0) && sum_int(
                weights_of(entries@),
            ) == 0),
            result is Ok <==> ((forall|i: int| 0 <= i < entries@.len() ==> entries@[i].1 >= 0)
                && sum_int(weights_of(entries@)) > 0),
            result is Ok ==> result->Ok_0.matches_weights(weights_of(entries@)),
            result is Ok ==> result->Ok_0.items@ == entries@.map(|i: int, p: (T, i64)| p.0),
    {
        let ghost w: Seq<int> = weights_of(entries@);
        let n = entries.len();

        // Reject any negative weight before anything is built.
        let mut k: usize = 0;
        while k < n
            invariant
                k <= n,
                n == entries@.len(),
                w == weights_of(entries@),
                forall|j: int| 0 <= j < k ==> entries@[j].1 >= 0,
            decreases n - k,
        {
            let e = &entries[k];
            if e.1 < 0 {
                return Err(RouletteError::NegativeWeight);
            }
            k = k + 1;
        }
        proof {
            assert(forall|j: int| 0 <= j < n ==> w[j] >= 0);
        }

        // The weight total: the denominator of every acceptance threshold.
        let mut total: u64 = 0;
        k = 0;
        while k < n
            invariant
                k <= n,
                n == entries@.len(),
                w == weights_of(entries@),
                forall|j: int| 0 <= j < n ==> w[j] >= 0,
                (n as int) * sum_int(w) <= u64::MAX,
                total as int == sum_int(w.take(k as int)),
            decreases n - k,
        {
            proof {
                lemma_sum_int_take_step(w, k as int);
                lemma_sum_int_take_le(w, k as int + 1);
                lemma_sum_int_nonneg(w);
                assert(sum_int(w) <= (n as int) * sum_int(w)) by (nonlinear_arith)
                    requires
                        n >= 1,
                        sum_int(w) >= 0,
                ;
            }
            let e = &entries[k];
            total = total + (e.1 as u64);
            k = k + 1;
        }
        proof {
            assert(w.take(n as int) =~= w);
        }
        if total == 0 {
            return Err(RouletteError::AllWeightsZero);
        }
        proof {
            if n == 0 {
                assert(w.len() == 0);
                assert(sum_int(w) == 0);
            }
        }
        let ghost nt: int = (n as int) * (total as int);
        proof {
            assert(nt <= u64::MAX);
        }

        // Scale each weight by the slot count: slot j starts out owing
        // n * w[j] of the n * total units of mass, against an average
        // of total per slot.
        let mut scaled: Vec<u64> = Vec::new();
        k = 0;
        while k < n
            invariant
                k <= n,
                n == entries@.len(),
                w == weights_of(entries@),
                forall|j: int| 0 <= j < n ==> w[j] >= 0,
                total as int == sum_int(w),
                total >= 1,
                nt == (n as int) * (total as int),
                nt <= u64::MAX,
                scaled@.len() == k,
                forall|j: int| 0 <= j < k ==> scaled@[j] as int == (n as int) * w[j],
                forall|j: int| 0 <= j < k ==> scaled@[j] as int <= nt,
            decreases n - k,
        {
            let e = &entries[k];
            proof {
                lemma_sum_int_element(w, k as int);
                assert((n as int) * w[k as int] <= nt && w[k as int] * (n as int) == (n as int)
                    * w[k as int]) by (nonlinear_arith)
                    requires
                        w[k as int] <= total as int,
                        w[k as int] >= 0,
                        n as int >= 1,
                        nt == (n as int) * (total as int),
                ;
                assert(e.1 as int == w[k as int]);
                assert(((e.1 as u64) as int) == w[k as int]);
                assert(((n as u64) as int) == n as int);
            }
            let s: u64 = (e.1 as u64) * (n as u64);
            scaled.push(s);
            k = k + 1;
        }

        // Partition the slots by whether they carry at least the average.
        let mut small: Vec<usize> = Vec::new();
        let mut large: Vec<usize> = Vec::new();
        k = 0;
        while k < n
            invariant
                k <= n,
                n == w.len(),
                total >= 1,
                total as int == sum_int(w),
                scaled@.len() == n,
                forall|j: int| 0 <= j < n ==> scaled@[j] as int == (n as int) * w[j],
                forall|m: int| 0 <= m < small@.len() ==> (small@[m] as int) < k,
                forall|m: int| 0 <= m < large@.len() ==> (large@[m] as int) < k,
                worklists_wf(small@, large@, n as int),
                classified(small@, large@, scaled@, total),
                forall|i: int| 0 <= i < k ==> in_idx(small@, i) || in_idx(large@, i),
                small@.len() + large@.len() == k,
                sum_at(small@, scaled@) + sum_at(large@, scaled@) == (n as int) * sum_int(
                    w.take(k as int),
                ),
            decreases n - k,
        {
            let ghost small1 = small@;
            let ghost large1 = large@;
            proof {
                lemma_sum_int_take_step(w, k as int);
                assert((n as int) * (sum_int(w.take(k as int)) + w[k as int]) == (n as int)
                    * sum_int(w.take(k as int)) + (n as int) * w[k as int]) by (nonlinear_arith);
            }
            if scaled[k] >= total {
                large.push(k);
                proof {
                    assert(large@.drop_last() =~= large1);
                    assert(sum_at(large@, scaled@) == sum_at(large1, scaled@) + scaled@[k as int]);
                    assert forall|i: int| 0 <= i < k + 1 implies in_idx(small@, i) || in_idx(
                        large@,
                        i,
                    ) by {
                        lemma_in_idx_push(large1, k, i);
                    }
                }
            } else {
                small.push(k);
                proof {
                    assert(small@.drop_last() =~= small1);
                    assert(sum_at(small@, scaled@) == sum_at(small1, scaled@) + scaled@[k as int]);
                    assert forall|i: int| 0 <= i < k + 1 implies in_idx(small@, i) || in_idx(
                        large@,
                        i,
                    ) by {
                        lemma_in_idx_push(small1, k, i);
                    }
                }
            }
            k = k + 1;
        }

        // Until a slot is paired, it aliases itself with threshold zero.
        let mut alias: Vec<usize> = Vec::new();
        k = 0;
        while k < n
            invariant
                k <= n,
                alias@.len() == k,
                forall|j: int| 0 <= j < k ==> alias@[j] as int == j,
            decreases n - k,
        {
            alias.push(k);
            k = k + 1;
        }
        let mut threshold: Vec<u64> = Vec::new();
        k = 0;
        while k < n
            invariant
                k <= n,
                threshold@.len() == k,
                forall|j: int| 0 <= j < k ==> threshold@[j] == 0,
            decreases n - k,
        {
            threshold.push(0);
            k = k + 1;
        }
        proof {
            assert(w.take(n as int) =~= w);
            assert forall|i: int|
                0 <= i < n implies item_mass(alias@, threshold@, total, i) == (n as int) * w[i] + (
            if in_idx(small@, i) || in_idx(large@, i) {
                total - scaled@[i]
            } else {
                0
            }) by {
                lemma_mass_init(alias@, threshold@, total, n as int, i);
            }
            assert(mass_inv(small@, large@, alias@, threshold@, scaled@, total, w));
        }

        // Pair one under-average slot with one over-average slot at a time:
        // the small slot is finished with its own scaled weight as its
        // acceptance threshold and the large slot as its alias; the large
        // slot donates the difference and is re-classified.
        while small.len() > 0 && large.len() > 0
            invariant
                n == w.len(),
                n >= 1,
                total >= 1,
                total as int == sum_int(w),
                forall|j: int| 0 <= j < n ==> w[j] >= 0,
                nt == (n as int) * (total as int),
                nt <= u64::MAX,
                scaled@.len() == n,
                forall|j: int| 0 <= j < n ==> scaled@[j] as int <= nt,
                arrays_wf(alias@, threshold@, total, n as int),
                worklists_wf(small@, large@, n as int),
                classified(small@, large@, scaled@, total),
                untouched(small@, large@, alias@, threshold@),
                sum_at(small@, scaled@) + sum_at(large@, scaled@) == (small@.len()
                    + large@.len()) * (total as int),
                mass_inv(small@, large@, alias@, threshold@, scaled@, total, w),
            decreases small@.len() + large@.len(),
        {
            let ghost small1 = small@;
            let ghost large1 = large@;
            let ghost a1 = alias@;
            let ghost t1 = threshold@;
            let ghost sc1 = scaled@;

            let less = small.pop().unwrap();
            let more = large.pop().unwrap();
            let ghost li = less as int;
            let ghost mi = more as int;
            proof {
                assert(small1[small1.len() - 1] as int == li);
                assert(large1[large1.len() - 1] as int == mi);
                assert(in_idx(small1, li));
                assert(in_idx(large1, mi));
                assert(small1[small1.len() - 1] != large1[large1.len() - 1]);
                assert(sc1[li] < total);
                assert(sc1[mi] >= total);
                assert(t1[li] == 0 && a1[li] as int == li);
                assert(t1[mi] == 0 && a1[mi] as int == mi);
            }

            let v = scaled[less];
            threshold[less] = v;
            alias[less] = more;
            let updated = scaled[more] - total + v;
            scaled[more] = updated;
            let to_large = updated >= total;
            if to_large {
                large.push(more);
            } else {
                small.push(more);
            }

            proof {
                let sr = small1.drop_last();
                let lr = large1.drop_last();
                let a2 = alias@;
                let t2 = threshold@;
                let sc2 = scaled@;

                // Which slots are still on a worklist: exactly the old ones
                // except the small slot just finished.
                assert forall|i: int|
                    (in_idx(small@, i) || in_idx(large@, i)) <==> ((in_idx(small1, i) || in_idx(
                        large1,
                        i,
                    )) && i != li) by {
                    lemma_in_idx_drop_last(small1, i);
                    lemma_in_idx_drop_last(large1, i);
                    if to_large {
                        lemma_in_idx_push(lr, more, i);
                    } else {
                        lemma_in_idx_push(sr, more, i);
                    }
                    if i == li && in_idx(large1, i) {
                        let b = choose|b: int| 0 <= b < large1.len() && large1[b] as int == i;
                        assert(small1[small1.len() - 1] != large1[b]);
                        assert(false);
                    }
                }

                // Slots on a remaining worklist are not the two just popped,
                // so their scaled weights and array entries are unchanged.
                assert forall|m: int| 0 <= m < sr.len() implies sr[m] != more && sr[m] != less by {
                    assert(small1[m] != large1[large1.len() - 1]);
                    assert(small1[m] != small1[small1.len() - 1]);
                }
                assert forall|m: int| 0 <= m < lr.len() implies lr[m] != more && lr[m] != less by {
                    assert(large1[m] != large1[large1.len() - 1]);
                    assert(small1[small1.len() - 1] != large1[m]);
                }

                // The mass ledger moves v - total to the finished slot's
                // item and total - v to its alias's item.
                assert forall|i: int|
                    0 <= i < n implies item_mass(a2, t2, total, i) == (n as int) * w[i] + (
                if in_idx(small@, i) || in_idx(large@, i) {
                    total - sc2[i]
                } else {
                    0
                }) by {
                    lemma_mass_update(a1, t1, a2, t2, total, li, n as int, i);
                    assert(slot_mass(a1, t1, total, li, i) == if li == i {
                        total as int
                    } else {
                        0
                    });
                    assert(slot_mass(a2, t2, total, li, i) == (if li == i {
                        v as int
                    } else {
                        0
                    }) + (if mi == i {
                        total - v
                    } else {
                        0
                    }));
                    assert(item_mass(a1, t1, total, i) == (n as int) * w[i] + (if in_idx(
                        small1,
                        i,
                    ) || in_idx(large1, i) {
                        total - sc1[i]
                    } else {
                        0
                    }));
                    assert(item_mass(a2, t2, total, i) == item_mass(a1, t1, total, i) + slot_mass(
                        a2,
                        t2,
                        total,
                        li,
                        i,
                    ) - slot_mass(a1, t1, total, li, i));
                    if i == li {
                        assert(!(in_idx(small@, i) || in_idx(large@, i)));
                        assert(item_mass(a2, t2, total, i) == (n as int) * w[i]);
                    } else if i == mi {
                        assert(in_idx(small@, i) || in_idx(large@, i));
                        assert(sc2[i] == sc1[mi] - total + v);
                        assert(item_mass(a2, t2, total, i) == (n as int) * w[i] + total - sc2[i]);
                    } else {
                        assert(sc2[i] == sc1[i]);
                    }
                }

                // The ledger's other side: one slot left the worklists and
                // took exactly total units of pending mass with it.
                assert(sum_at(small1, sc1) == sum_at(sr, sc1) + sc1[li]);
                assert(sum_at(large1, sc1) == sum_at(lr, sc1) + sc1[mi]);
                lemma_sum_at_agree(sr, sc1, sc2);
                lemma_sum_at_agree(lr, sc1, sc2);
                if to_large {
                    assert(large@.drop_last() =~= lr);
                    assert(sum_at(large@, sc2) == sum_at(lr, sc2) + sc2[mi]);
                } else {
                    assert(small@.drop_last() =~= sr);
                    assert(sum_at(small@, sc2) == sum_at(sr, sc2) + sc2[mi]);
                }
                assert((small1.len() + large1.len()) * (total as int) - (total as int) == (
                small1.len() + large1.len() - 1) * (total as int)) by (nonlinear_arith);
            }
        }

        // Drain the worklist that is left: those slots keep every draw that
        // lands on them. With exact arithmetic only the large list can hold
        // anything here, each entry at exactly the average; the small drain
        // mirrors the large one all the same.
        while small.len() > 0
            invariant
                small@.len() == 0 || large@.len() == 0,
                n == w.len(),
                n >= 1,
                total >= 1,
                total as int == sum_int(w),
                forall|j: int| 0 <= j < n ==> w[j] >= 0,
                scaled@.len() == n,
                arrays_wf(alias@, threshold@, total, n as int),
                worklists_wf(small@, large@, n as int),
                classified(small@, large@, scaled@, total),
                untouched(small@, large@, alias@, threshold@),
                sum_at(small@, scaled@) + sum_at(large@, scaled@) == (small@.len()
                    + large@.len()) * (total as int),
                mass_inv(small@, large@, alias@, threshold@, scaled@, total, w),
            decreases small@.len(),
        {
            proof {
                assert(sum_at(large@, scaled@) == 0);
                lemma_sum_at_le(small@, scaled@, (total as int) - 1);
                assert(small@.len() * ((total as int) - 1) < small@.len() * (total as int))
                    by (nonlinear_arith)
                    requires
                        small@.len() >= 1,
                        total >= 1,
                ;
                assert((small@.len() + 0) * (total as int) == small@.len() * (total as int));
                assert(false);
            }
            let idx = small.pop().unwrap();
            threshold[idx] = total;
        }
        while large.len() > 0
            invariant
                small@.len() == 0,
                n == w.len(),
                n >= 1,
                total >= 1,
                total as int == sum_int(w),
                forall|j: int| 0 <= j < n ==> w[j] >= 0,
                scaled@.len() == n,
                arrays_wf(alias@, threshold@, total, n as int),
                worklists_wf(small@, large@, n as int),
                classified(small@, large@, scaled@, total),
                untouched(small@, large@, alias@, threshold@),
                sum_at(small@, scaled@) + sum_at(large@, scaled@) == (small@.len()
                    + large@.len()) * (total as int),
                mass_inv(small@, large@, alias@, threshold@, scaled@, total, w),
            decreases large@.len(),
        {
            let ghost large1 = large@;
            let ghost a1 = alias@;
            let ghost t1 = threshold@;
            proof {
                assert(sum_at(small@, scaled@) == 0);
                lemma_sum_at_all_eq(large1, scaled@, total as int);
            }
            let idx = large.pop().unwrap();
            let ghost ii = idx as int;
            proof {
                assert(large1[large1.len() - 1] as int == ii);
                assert(in_idx(large1, ii));
                assert(scaled@[ii] == total);
                assert(t1[ii] == 0 && a1[ii] as int == ii);
            }
            threshold[idx] = total;
            proof {
                let lr = large1.drop_last();
                let t2 = threshold@;
                assert forall|i: int|
                    (in_idx(small@, i) || in_idx(large@, i)) <==> ((in_idx(small@, i) || in_idx(
                        large1,
                        i,
                    )) && i != ii) by {
                    lemma_in_idx_drop_last(large1, i);
                }
                assert forall|m: int| 0 <= m < lr.len() implies lr[m] != idx by {
                    assert(large1[m] != large1[large1.len() - 1]);
                }
                assert forall|i: int|
                    0 <= i < n implies item_mass(a1, t2, total, i) == (n as int) * w[i] + (
                if in_idx(small@, i) || in_idx(large@, i) {
                    total - scaled@[i]
                } else {
                    0
                }) by {
                    lemma_mass_update(a1, t1, a1, t2, total, ii, n as int, i);
                    assert(slot_mass(a1, t1, total, ii, i) == if ii == i {
                        total as int
                    } else {
                        0
                    });
                    assert(slot_mass(a1, t2, total, ii, i) == if ii == i {
                        total as int
                    } else {
                        0
                    });
                }
                assert(sum_at(large1, scaled@) == sum_at(lr, scaled@) + scaled@[ii]);
                assert((large1.len()) * (total as int) - (total as int) == (large1.len() - 1) * (
                total as int)) by (nonlinear_arith);
            }
        }

        // Keep the items, in their given order; the weights have done their
        // work. Two stack passes move them out without disturbing it.
        let ghost entries0 = entries@;
        let mut rest = entries;
        let mut rev: Vec<T> = Vec::new();
        while rest.len() > 0
            invariant
                rest@.len() + rev@.len() == entries0.len(),
                rest@ == entries0.take(rest@.len() as int),
                forall|j: int|
                    0 <= j < rev@.len() ==> rev@[j] == entries0[entries0.len() - 1 - j].0,
            decreases rest@.len(),
        {
            let e = rest.pop().unwrap();
            rev.push(e.0);
            proof {
                assert(rest@ =~= entries0.take(rest@.len() as int));
            }
        }
        let mut items: Vec<T> = Vec::new();
        while rev.len() > 0
            invariant
                items@.len() + rev@.len() == entries0.len(),
                forall|j: int|
                    0 <= j < rev@.len() ==> rev@[j] == entries0[entries0.len() - 1 - j].0,
                forall|j: int| 0 <= j < items@.len() ==> items@[j] == entries0[j].0,
            decreases rev@.len(),
        {
            let x = rev.pop().unwrap();
            items.push(x);
        }

        let table = Roulette { items, alias, threshold, total };
        proof {
            assert(table.items@ =~= entries@.map(|i: int, p: (T, i64)| p.0));
            assert(table.wf());
            assert forall|i: int| 0 <= i < w.len() implies table.spec_mass(i) == w.len() * w[i] by {
                assert(!in_idx(small@, i));
                assert(!in_idx(large@, i));
                assert(item_mass(alias@, threshold@, total, i) == w.len() * w[i]);
            }
            assert(table.matches_weights(w));
        }
        Ok(table)
    }

    /// Resolves one draw: the slot `column` keeps its own item when `v`
    /// falls below its threshold and defers to its alias otherwise.
    pub fn select(&self, column: usize, v: u64) -> (slot: usize)
        requires
            self.wf(),
            column < self.items@.len(),
            v < self.total,
        ensures
            slot < self.items@.len(),
            slot as int == self.spec_select(column as int, v as int),
            self.items@.len() == 1 ==> slot == 0,
    {
        if v < self.threshold[column] {
            column
        } else {
            self.alias[column]
        }
    }

    /// Returns a random item; over many draws each item is returned in
    /// proportion to the weight it was given. Consumes two uniform draws
    /// from `rng` and reads the table without changing it.
    pub fn sample<R: rand::Rng>(&self, rng: &mut R) -> (r: &T)
        requires
            self.wf(),
        ensures
            exists|column: int, v: int|
                0 <= column < self.items@.len() && 0 <= v < self.total && *r == self.items@[
                    self.spec_select(column, v)
                ],
            self.items@.len() == 1 ==> *r == self.items@[0],
    {
        let column = rand_index(rng, self.items.len());
        let v = rand_level(rng, self.total);
        let slot = self.select(column, v);
        let r = &self.items[slot];
        proof {
            assert((column as int) < self.items@.len() && (v as int) < self.total && *r
                == self.items@[self.spec_select(column as int, v as int)]);
        }
        r
    }
}

/// Relies on `rand::Rng::gen_range` over `0..bound` at `usize`: a uniform
/// index in `[0, bound)`; it panics only on an empty range, which the
/// precondition rules out.
#[verifier::external_body]
fn rand_index<R: rand::Rng>(rng: &mut R, bound: usize) -> (r: usize)
    requires
        bound >= 1,
    ensures
        r < bound,
{
    rng.gen_range(0..bound)
}

/// Relies on `rand::Rng::gen_range` over `0..bound` at `u64`: a uniform
/// value in `[0, bound)`; it panics only on an empty range, which the
/// precondition rules out.
#[verifier::external_body]
fn rand_level<R: rand::Rng>(rng: &mut R, bound: u64) -> (r: u64)
    requires
        bound >= 1,
    ensures
        r < bound,
{
    rng.gen_range(0..bound)
}

} // verus!
