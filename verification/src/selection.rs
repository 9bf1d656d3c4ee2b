//! Choosing inputs from a pool: in creation order, or best effective value first.

use vstd::prelude::*;
use crate::accounting::{Target, input_weight, covers, lemma_product_bound, MAX_INPUT_WEIGHT};
use crate::pool::{
    Candidate, picked, unpicked, inverted, total_value, total_weight, all_standard,
    lemma_total_value_push, lemma_totals_bounds, lemma_picked_split, lemma_prefix_totals,
    MAX_TOTAL_VALUE, MAX_TOTAL_WEIGHT,
};
use crate::weights::{varint_size, spec_varint_size};

verus! {

/// The flags that mark, among `n` candidates, those whose index is in `picks`.
pub open spec fn mask_of(n: int, picks: Seq<usize>) -> Seq<bool> {
    Seq::new(n as nat, |i: int| picks.contains(i as usize))
}

/// The flags that mark the first `k` of `n` candidates.
pub open spec fn prefix_mask(n: int, k: int) -> Seq<bool> {
    Seq::new(n as nat, |i: int| i < k)
}

/// The selection that `mask` marks in `pool` pays for the target and its fee.
pub open spec fn selection_covers(pool: Seq<Candidate>, mask: Seq<bool>, target: Target) -> bool {
    target.covered_by(total_value(picked(pool, mask)), input_weight(picked(pool, mask)))
}

/// The first `k` candidates of `pool` pay for the target and its fee.
pub open spec fn prefix_covers(pool: Seq<Candidate>, target: Target, k: int) -> bool {
    target.covered_by(total_value(pool.take(k)), input_weight(pool.take(k)))
}

/// What a candidate is worth once the fee of spending it at `rate` is paid,
/// in units of 1/4000 satoshi.
pub open spec fn effective_value(c: Candidate, rate: u64) -> int {
    4000 * c.value - c.weight * rate
}

/// Candidate `i` is chosen before candidate `j`: it has the higher effective
/// value, or the same and was created earlier.
pub open spec fn precedes(pool: Seq<Candidate>, rate: u64, i: int, j: int) -> bool {
    effective_value(pool[i], rate) > effective_value(pool[j], rate) || (effective_value(
        pool[i],
        rate,
    ) == effective_value(pool[j], rate) && i < j)
}

/// `order` lists distinct candidates of `pool`, each before all that follow
/// it and before all that are not listed.
pub open spec fn best_first(pool: Seq<Candidate>, rate: u64, order: Seq<usize>) -> bool {
    &&& forall|a: int| 0 <= a < order.len() ==> (#[trigger] order[a]) < pool.len()
    &&& forall|a: int, b: int|
        0 <= a < b < order.len() ==> #[trigger] precedes(
            pool,
            rate,
            order[a] as int,
            order[b] as int,
        )
    &&& forall|a: int, j: int|
        0 <= a < order.len() && 0 <= j < pool.len() && !order.contains(j as usize)
            ==> #[trigger] precedes(pool, rate, order[a] as int, j)
}

/// `order` lists the first candidates of `pool`, oldest first.
pub open spec fn oldest_first(order: Seq<usize>) -> bool {
    forall|a: int| 0 <= a < order.len() ==> (#[trigger] order[a]) == a
}

/// No shorter start of `order` pays for the target.
pub open spec fn none_shorter(pool: Seq<Candidate>, target: Target, order: Seq<usize>) -> bool {
    forall|k: int|
        0 <= k < order.len() ==> !selection_covers(
            pool,
            mask_of(pool.len() as int, #[trigger] order.take(k)),
            target,
        )
}

/// A choice of inputs from a pool.
pub struct Selection {
    /// One flag per candidate of the pool: set where it is chosen.
    pub mask: Vec<bool>,
    /// The indices of the chosen candidates, in the order in which they were chosen.
    pub order: Vec<usize>,
    /// Sum of the chosen values.
    pub value: u64,
    /// Weight of the chosen candidates as transaction inputs.
    pub weight: u64,
    /// Whether the choice pays for the target and its fee.
    pub covered: bool,
}

impl Selection {
    /// The selection is one of `pool` and its sums are those of what it marks.
    pub open spec fn describes(&self, pool: Seq<Candidate>, target: Target) -> bool {
        &&& self.mask@ == mask_of(pool.len() as int, self.order@)
        &&& self.value == total_value(picked(pool, self.mask@))
        &&& self.weight == input_weight(picked(pool, self.mask@))
        &&& self.covered == selection_covers(pool, self.mask@, target)
        &&& picked(pool, self.mask@).len() == self.order@.len()
    }
}

/// Marking one more candidate adds it to the sums and to the count.
pub proof fn lemma_pick_one(s: Seq<Candidate>, mask: Seq<bool>, i: int)
    requires
        s.len() == mask.len(),
        0 <= i < s.len(),
        !mask[i],
    ensures
        total_value(picked(s, mask.update(i, true))) == total_value(picked(s, mask)) + s[i].value,
        total_weight(picked(s, mask.update(i, true))) == total_weight(picked(s, mask))
            + s[i].weight,
        picked(s, mask.update(i, true)).len() == picked(s, mask).len() + 1,
    decreases s.len(),
{
    let s0 = s.drop_last();
    let m0 = mask.drop_last();
    let m1 = mask.update(i, true);
    if i == s.len() - 1 {
        assert(m1.drop_last() =~= m0);
        lemma_total_value_push(picked(s0, m0), s.last());
    } else {
        lemma_pick_one(s0, m0, i);
        assert(m1.drop_last() =~= m0.update(i, true));
        if mask.last() {
            lemma_total_value_push(picked(s0, m0), s.last());
            lemma_total_value_push(picked(s0, m0.update(i, true)), s.last());
        }
    }
}

/// Where every flag is set the whole pool is picked, where none is, nothing.
pub proof fn lemma_pick_all_or_none(s: Seq<Candidate>, mask: Seq<bool>)
    requires
        s.len() == mask.len(),
    ensures
        (forall|i: int| 0 <= i < mask.len() ==> mask[i]) ==> picked(s, mask) == s,
        (forall|i: int| 0 <= i < mask.len() ==> !mask[i]) ==> picked(s, mask)
            == Seq::<Candidate>::empty(),
    decreases s.len(),
{
    if s.len() > 0 {
        lemma_pick_all_or_none(s.drop_last(), mask.drop_last());
        if forall|i: int| 0 <= i < mask.len() ==> mask[i] {
            assert(mask.last());
            assert(forall|i: int| 0 <= i < mask.drop_last().len() ==> mask.drop_last()[i]) by {
                assert forall|i: int| 0 <= i < mask.drop_last().len() implies mask.drop_last()[i] by {
                    assert(mask[i]);
                }
            }
            assert(s.drop_last().push(s.last()) =~= s);
        }
        if forall|i: int| 0 <= i < mask.len() ==> !mask[i] {
            assert(!mask.last());
            assert forall|i: int| 0 <= i < mask.drop_last().len() implies !mask.drop_last()[i] by {
                assert(!mask[i]);
            }
        }
    } else {
        assert(picked(s, mask) =~= s);
    }
}

/// Marking the first `k` candidates picks the first `k` and leaves the others.
pub proof fn lemma_prefix_mask(s: Seq<Candidate>, k: int)
    requires
        0 <= k <= s.len(),
    ensures
        picked(s, prefix_mask(s.len() as int, k)) == s.take(k),
        unpicked(s, prefix_mask(s.len() as int, k)) == s.skip(k),
    decreases s.len(),
{
    let n = s.len() as int;
    let m = prefix_mask(n, k);
    if n == 0 {
        assert(s.take(k) =~= Seq::<Candidate>::empty());
        assert(s.skip(k) =~= Seq::<Candidate>::empty());
    } else if k == n {
        lemma_pick_all_or_none(s, m);
        lemma_pick_all_or_none(s, inverted(m));
        assert(s.take(k) =~= s);
        assert(s.skip(k) =~= Seq::<Candidate>::empty());
    } else {
        let s0 = s.drop_last();
        lemma_prefix_mask(s0, k);
        assert(m.drop_last() =~= prefix_mask(n - 1, k));
        assert(inverted(m).drop_last() =~= inverted(prefix_mask(n - 1, k)));
        assert(s0.take(k) =~= s.take(k));
        assert(s0.skip(k).push(s.last()) =~= s.skip(k));
    }
}

/// The input weight of `count` standard candidates whose weights add up to `sum`.
pub(crate) fn inputs_weight(count: usize, sum: u64) -> (weight: u64)
    requires
        sum <= MAX_TOTAL_WEIGHT,
    ensures
        weight == spec_varint_size(count as int) * 4 + sum + if count > 0 {
            2int
        } else {
            0int
        },
        weight <= MAX_INPUT_WEIGHT,
{
    let marker: u64 = if count > 0 {
        2
    } else {
        0
    };
    varint_size(count) as u64 * 4 + sum + marker
}

/// Whether candidate `i` of the pool is chosen before candidate `j`.
fn goes_first(pool: &Vec<Candidate>, rate: u64, i: usize, j: usize) -> (yes: bool)
    requires
        i < pool@.len(),
        j < pool@.len(),
    ensures
        yes == precedes(pool@, rate, i as int, j as int),
{
    let a = pool[i];
    let b = pool[j];
    proof {
        lemma_product_bound(
            a.weight as int,
            rate as int,
            0xffff_ffff,
            0xffff_ffff_ffff_ffff,
        );
        lemma_product_bound(
            b.weight as int,
            rate as int,
            0xffff_ffff,
            0xffff_ffff_ffff_ffff,
        );
    }
    let left: i128 = 4000 * a.value as i128 - a.weight as i128 * rate as i128;
    let right: i128 = 4000 * b.value as i128 - b.weight as i128 * rate as i128;
    left > right || (left == right && i < j)
}

/// A mask of `n` flags, none of them set.
pub(crate) fn clear_mask(n: usize) -> (mask: Vec<bool>)
    ensures
        mask@ == mask_of(n as int, Seq::<usize>::empty()),
{
    let mut mask: Vec<bool> = Vec::new();
    let mut i: usize = 0;
    while i < n
        invariant
            i <= n,
            mask@.len() == i,
            forall|j: int| 0 <= j < i ==> !mask@[j],
        decreases n - i,
    {
        mask.push(false);
        i = i + 1;
    }
    assert(mask@ =~= mask_of(n as int, Seq::<usize>::empty()));
    mask
}

/// Chooses candidates in creation order, oldest first, and stops as soon as
/// the chosen ones pay for the target and the fee of spending them.
pub fn select_fifo(pool: &Vec<Candidate>, target: &Target) -> (sel: Selection)
    requires
        all_standard(pool@),
        total_value(pool@) <= MAX_TOTAL_VALUE,
        total_weight(pool@) <= MAX_TOTAL_WEIGHT,
        target.wf(),
    ensures
        sel.describes(pool@, *target),
        oldest_first(sel.order@),
        sel.order@.len() <= pool@.len(),
        sel.mask@ == prefix_mask(pool@.len() as int, sel.order@.len() as int),
        picked(pool@, sel.mask@) == pool@.take(sel.order@.len() as int),
        unpicked(pool@, sel.mask@) == pool@.skip(sel.order@.len() as int),
        sel.covered == prefix_covers(pool@, *target, sel.order@.len() as int),
        forall|j: int| 0 <= j < sel.order@.len() ==> !prefix_covers(pool@, *target, j),
        !sel.covered ==> sel.order@.len() == pool@.len(),
{
    let n: usize = pool.len();
    let mut mask: Vec<bool> = clear_mask(n);
    let mut order: Vec<usize> = Vec::new();
    let mut value: u64 = 0;
    let mut sum: u64 = 0;
    let mut k: usize = 0;
    proof {
        lemma_prefix_mask(pool@, 0);
        assert(mask@ =~= prefix_mask(n as int, 0));
    }
    loop
        invariant
            n == pool@.len(),
            k <= n,
            order@.len() == k,
            oldest_first(order@),
            all_standard(pool@),
            total_value(pool@) <= MAX_TOTAL_VALUE,
            total_weight(pool@) <= MAX_TOTAL_WEIGHT,
            target.wf(),
            mask@ == prefix_mask(n as int, k as int),
            mask@ == mask_of(n as int, order@),
            picked(pool@, mask@) == pool@.take(k as int),
            unpicked(pool@, mask@) == pool@.skip(k as int),
            value == total_value(pool@.take(k as int)),
            sum == total_weight(pool@.take(k as int)),
            forall|j: int| 0 <= j < k ==> !prefix_covers(pool@, *target, j),
        decreases n - k,
    {
        proof {
            lemma_prefix_totals(pool@, k as int);
        }
        let weight: u64 = inputs_weight(k, sum);
        let covered: bool = covers(target, value, weight);
        if covered || k == n {
            return Selection { mask, order, value, weight, covered };
        }
        let coin = pool[k];
        proof {
            lemma_prefix_totals(pool@, k + 1);
            assert(pool@.take(k + 1).drop_last() =~= pool@.take(k as int));
            lemma_prefix_mask(pool@, k + 1);
            let longer = order@.push(k);
            assert(mask@.update(k as int, true) =~= prefix_mask(n as int, k + 1));
            assert(oldest_first(longer));
            assert(prefix_mask(n as int, k + 1) =~= mask_of(n as int, longer)) by {
                assert forall|i: int| 0 <= i < n implies #[trigger] mask_of(n as int, longer)[i]
                    == (i < k + 1) by {
                    if i < k + 1 {
                        assert(longer[i] == i);
                    }
                }
            }
        }
        mask.set(k, true);
        order.push(k);
        value = value + coin.value;
        sum = sum + coin.weight as u64;
        k = k + 1;
    }
}

/// The candidate that is chosen before every other one not yet marked, if
/// any is left.
fn best_unmarked(pool: &Vec<Candidate>, rate: u64, mask: &Vec<bool>) -> (best: Option<usize>)
    requires
        mask@.len() == pool@.len(),
    ensures
        match best {
            Some(b) => {
                &&& b < pool@.len()
                &&& !mask@[b as int]
                &&& forall|j: int|
                    0 <= j < pool@.len() && !mask@[j] && j != b ==> #[trigger] precedes(
                        pool@,
                        rate,
                        b as int,
                        j,
                    )
            },
            None => forall|j: int| 0 <= j < pool@.len() ==> mask@[j],
        },
{
    let n: usize = pool.len();
    let mut best: Option<usize> = None;
    let mut i: usize = 0;
    while i < n
        invariant
            i <= n,
            n == pool@.len(),
            mask@.len() == n,
            match best {
                Some(b) => {
                    &&& b < i
                    &&& !mask@[b as int]
                    &&& forall|j: int|
                        0 <= j < i && !mask@[j] && j != b ==> #[trigger] precedes(
                            pool@,
                            rate,
                            b as int,
                            j,
                        )
                },
                None => forall|j: int| 0 <= j < i ==> mask@[j],
            },
        decreases n - i,
    {
        if !mask[i] {
            match best {
                Some(b) => {
                    if goes_first(pool, rate, i, b) {
                        assert forall|j: int| 0 <= j < i + 1 && !mask@[j] && j != i implies #[trigger] precedes(
                            pool@,
                            rate,
                            i as int,
                            j,
                        ) by {
                            if j != b {
                                assert(precedes(pool@, rate, b as int, j));
                            }
                        }
                        best = Some(i);
                    }
                },
                None => {
                    best = Some(i);
                },
            }
        }
        i = i + 1;
    }
    best
}

/// Chooses candidates best effective value first, and stops as soon as the
/// chosen ones pay for the target and the fee of spending them.
pub fn select_sorted(pool: &Vec<Candidate>, target: &Target) -> (sel: Selection)
    requires
        all_standard(pool@),
        total_value(pool@) <= MAX_TOTAL_VALUE,
        total_weight(pool@) <= MAX_TOTAL_WEIGHT,
        target.wf(),
    ensures
        sel.describes(pool@, *target),
        best_first(pool@, target.fee_rate, sel.order@),
        none_shorter(pool@, *target, sel.order@),
        !sel.covered ==> sel.order@.len() == pool@.len(),
{
    let n: usize = pool.len();
    let rate: u64 = target.fee_rate;
    let mut mask: Vec<bool> = clear_mask(n);
    let mut order: Vec<usize> = Vec::new();
    let mut value: u64 = 0;
    let mut sum: u64 = 0;
    proof {
        lemma_pick_all_or_none(pool@, mask@);
    }
    loop
        invariant
            n == pool@.len(),
            rate == target.fee_rate,
            order@.len() <= n,
            all_standard(pool@),
            total_value(pool@) <= MAX_TOTAL_VALUE,
            total_weight(pool@) <= MAX_TOTAL_WEIGHT,
            target.wf(),
            mask@ == mask_of(n as int, order@),
            picked(pool@, mask@).len() == order@.len(),
            value == total_value(picked(pool@, mask@)),
            sum == total_weight(picked(pool@, mask@)),
            best_first(pool@, rate, order@),
            none_shorter(pool@, *target, order@),
        decreases n - order@.len(),
    {
        proof {
            lemma_picked_split(pool@, mask@);
            lemma_totals_bounds(picked(pool@, mask@));
            lemma_totals_bounds(unpicked(pool@, mask@));
        }
        let weight: u64 = inputs_weight(order.len(), sum);
        let covered: bool = covers(target, value, weight);
        if covered {
            return Selection { mask, order, value, weight, covered };
        }
        let next: Option<usize> = best_unmarked(pool, rate, &mask);
        match next {
            None => {
                proof {
                    lemma_pick_all_or_none(pool@, mask@);
                }
                return Selection { mask, order, value, weight, covered };
            },
            Some(b) => {
                let coin = pool[b];
                proof {
                    lemma_pick_one(pool@, mask@, b as int);
                    let longer = order@.push(b);
                    let marked = mask@.update(b as int, true);
                    lemma_picked_split(pool@, marked);
                    lemma_totals_bounds(picked(pool@, marked));
                    lemma_totals_bounds(unpicked(pool@, marked));
                    assert(marked =~= mask_of(n as int, longer)) by {
                        assert forall|i: int| 0 <= i < n implies #[trigger] mask_of(
                            n as int,
                            longer,
                        )[i] == marked[i] by {
                            if i == b {
                                assert(longer[order@.len() as int] == b);
                            } else if order@.contains(i as usize) {
                                let a = choose|a: int| 0 <= a < order@.len() && order@[a] == i;
                                assert(longer[a] == i);
                            } else {
                                assert(mask_of(n as int, order@)[i] == false);
                            }
                        }
                    }
                    assert(!order@.contains(b)) by {
                        assert(mask_of(n as int, order@)[b as int] == false);
                    }
                    assert forall|a: int, c: int| 0 <= a < c < longer.len() implies #[trigger] precedes(
                        pool@,
                        rate,
                        longer[a] as int,
                        longer[c] as int,
                    ) by {
                        if c < order@.len() {
                            assert(precedes(pool@, rate, order@[a] as int, order@[c] as int));
                        } else {
                            assert(precedes(pool@, rate, order@[a] as int, b as int));
                        }
                    }
                    assert forall|a: int, j: int|
                        0 <= a < longer.len() && 0 <= j < n && !longer.contains(
                            j as usize,
                        ) implies #[trigger] precedes(pool@, rate, longer[a] as int, j) by {
                        assert(!order@.contains(j as usize)) by {
                            if order@.contains(j as usize) {
                                let x = choose|x: int| 0 <= x < order@.len() && order@[x] == j;
                                assert(longer[x] == j);
                            }
                        }
                        assert(j != b) by {
                            if j == b {
                                assert(longer[order@.len() as int] == b);
                            }
                        }
                        assert(mask_of(n as int, order@)[j] == false);
                        if a < order@.len() {
                            assert(precedes(pool@, rate, order@[a] as int, j));
                        } else {
                            assert(precedes(pool@, rate, b as int, j));
                        }
                    }
                    assert forall|k: int| 0 <= k < longer.len() implies !selection_covers(
                        pool@,
                        mask_of(n as int, #[trigger] longer.take(k)),
                        *target,
                    ) by {
                        if k < order@.len() {
                            assert(longer.take(k) =~= order@.take(k));
                        } else {
                            assert(longer.take(k) =~= order@);
                        }
                    }
                }
                mask.set(b, true);
                order.push(b);
                value = value + coin.value;
                sum = sum + coin.weight as u64;
            },
        }
    }
}

/// Every candidate that `sub` marks is marked by `mask` too.
pub open spec fn within(sub: Seq<bool>, mask: Seq<bool>) -> bool {
    &&& sub.len() == mask.len()
    &&& forall|i: int| 0 <= i < sub.len() && sub[i] ==> mask[i]
}

/// No selection that leaves out some of what `mask` marks, and adds
/// nothing, pays for the target and its fee.
pub open spec fn minimal(pool: Seq<Candidate>, mask: Seq<bool>, target: Target) -> bool {
    forall|sub: Seq<bool>|
        within(sub, mask) && sub != mask ==> !#[trigger] selection_covers(pool, sub, target)
}

/// What the selection holds beyond the target and its fee, in units of
/// 1/4000 satoshi.
pub open spec fn slack(pool: Seq<Candidate>, mask: Seq<bool>, target: Target) -> int {
    4000 * (total_value(picked(pool, mask)) - target.value) - target.weight_without_change(
        input_weight(picked(pool, mask)),
    ) * target.fee_rate
}

/// The most weight that writing a shorter input count than that of `count`
/// inputs can save.
pub open spec fn count_credit(count: int) -> int {
    4 * (spec_varint_size(count) - 1) + if count == 1 {
        2int
    } else {
        0int
    }
}

/// Every chosen candidate is needed: after the fee of spending it, it is
/// worth more than the selection has to spare, even where leaving it out
/// makes the input count shorter to write.
pub open spec fn frugal(pool: Seq<Candidate>, mask: Seq<bool>, target: Target) -> bool {
    forall|i: int|
        0 <= i < pool.len() && mask[i] ==> #[trigger] effective_value(pool[i], target.fee_rate)
            > slack(pool, mask, target) + count_credit(picked(pool, mask).len() as int)
            * target.fee_rate
}

/// What candidates are worth once the fees of spending them at `rate` are
/// paid, in units of 1/4000 satoshi.
pub open spec fn worth(s: Seq<Candidate>, rate: u64) -> int {
    4000 * total_value(s) - total_weight(s) * rate
}

/// A candidate put at the end adds its effective value to the worth.
pub proof fn lemma_worth_push(s: Seq<Candidate>, c: Candidate, rate: u64)
    ensures
        worth(s.push(c), rate) == worth(s, rate) + effective_value(c, rate),
{
    lemma_total_value_push(s, c);
    assert((total_weight(s) + c.weight) * rate == total_weight(s) * rate + c.weight * rate)
        by (nonlinear_arith);
}

/// Where no chosen candidate costs more to spend than it holds, a part of
/// the selection is worth no more than the whole, and what is left out adds
/// to the difference.
pub proof fn lemma_worth_within(
    pool: Seq<Candidate>,
    mask: Seq<bool>,
    sub: Seq<bool>,
    rate: u64,
    x: int,
)
    requires
        pool.len() == mask.len(),
        within(sub, mask),
        forall|i: int| 0 <= i < pool.len() && mask[i] ==> effective_value(pool[i], rate) >= 0,
    ensures
        worth(picked(pool, sub), rate) <= worth(picked(pool, mask), rate),
        picked(pool, sub).len() <= picked(pool, mask).len(),
        0 <= x < pool.len() && mask[x] && !sub[x] ==> worth(picked(pool, sub), rate)
            + effective_value(pool[x], rate) <= worth(picked(pool, mask), rate) && picked(
            pool,
            sub,
        ).len() < picked(pool, mask).len(),
    decreases pool.len(),
{
    if pool.len() > 0 {
        let p0 = pool.drop_last();
        let m0 = mask.drop_last();
        let s0 = sub.drop_last();
        let last = pool.last();
        assert(within(s0, m0)) by {
            assert forall|i: int| 0 <= i < s0.len() && s0[i] implies m0[i] by {
                assert(sub[i] && mask[i]);
            }
        }
        assert forall|i: int| 0 <= i < p0.len() && m0[i] implies effective_value(p0[i], rate)
            >= 0 by {
            assert(mask[i] && p0[i] == pool[i]);
        }
        lemma_worth_within(p0, m0, s0, rate, x);
        lemma_worth_push(picked(p0, m0), last, rate);
        lemma_worth_push(picked(p0, s0), last, rate);
        if mask.last() {
            assert(effective_value(pool[pool.len() - 1], rate) >= 0);
        }
        if 0 <= x < pool.len() - 1 {
            assert(p0[x] == pool[x]);
        }
    }
}

/// A frugal selection that pays is minimal: no part of it pays.
pub proof fn lemma_frugal_is_minimal(
    pool: Seq<Candidate>,
    mask: Seq<bool>,
    sub: Seq<bool>,
    target: Target,
)
    requires
        pool.len() == mask.len(),
        selection_covers(pool, mask, target),
        frugal(pool, mask, target),
        within(sub, mask),
        sub != mask,
    ensures
        !selection_covers(pool, sub, target),
{
    let rate = target.fee_rate;
    let r = rate as int;
    let whole = picked(pool, mask);
    let part = picked(pool, sub);
    let n = whole.len() as int;
    let k = part.len() as int;
    let spare = slack(pool, mask, target);
    lemma_totals_bounds(whole);
    lemma_totals_bounds(part);
    let x = choose|x: int| 0 <= x < mask.len() && mask[x] != sub[x];
    assert(exists|x: int| 0 <= x < mask.len() && mask[x] != sub[x]) by {
        if forall|x: int| 0 <= x < mask.len() ==> mask[x] == sub[x] {
            assert(sub =~= mask);
        }
    }
    assert(mask[x] && !sub[x]);
    let fixed = 32 + spec_varint_size(target.output_count as int) * 4 + target.output_weight;
    let whole_weight = target.weight_without_change(input_weight(whole));
    let part_weight = target.weight_without_change(input_weight(part));
    lemma_product_bound(whole_weight, r, whole_weight, r);
    lemma_product_bound(part_weight, r, part_weight, r);
    // the whole pays, so it has something to spare and every candidate is worth something
    assert(spare >= 0);
    lemma_product_bound(count_credit(n), r, count_credit(n), r);
    assert forall|i: int| 0 <= i < pool.len() && mask[i] implies effective_value(pool[i], rate)
        >= 0 by {
        assert(effective_value(pool[i], rate) > spare + count_credit(n) * r);
    }
    lemma_worth_within(pool, mask, sub, rate, x);
    assert(effective_value(pool[x], rate) > spare + count_credit(n) * r);
    let head = 4 * spec_varint_size(n) + if n > 0 {
        2int
    } else {
        0int
    };
    let part_head = 4 * spec_varint_size(k) + if k > 0 {
        2int
    } else {
        0int
    };
    assert(whole_weight * r == (fixed + head) * r + total_weight(whole) * r) by (nonlinear_arith)
        requires
            whole_weight == fixed + head + total_weight(whole),
    ;
    assert(part_weight * r == (fixed + part_head) * r + total_weight(part) * r)
        by (nonlinear_arith)
        requires
            part_weight == fixed + part_head + total_weight(part),
    ;
    // 4000 * value of the part < 4000 * target + (fixed + head - credit) * r + weight of the part * r
    assert((fixed + head) * r - count_credit(n) * r == (fixed + head - count_credit(n)) * r)
        by (nonlinear_arith);
    if k > 0 || n == 1 {
        assert((fixed + head - count_credit(n)) * r <= (fixed + part_head) * r)
            by (nonlinear_arith)
            requires
                fixed + head - count_credit(n) <= fixed + part_head,
                r >= 0,
        ;
    } else {
        // the part is empty and the whole holds two candidates at least
        assert(total_value(part) == 0 && total_weight(part) == 0);
        if r == 0 && target.value == 0 {
            assert(false);
        }
        assert(4000 * target.value + (fixed + part_head) * r > 0) by (nonlinear_arith)
            requires
                fixed + part_head > 0,
                r >= 0,
                target.value >= 0,
                r > 0 || target.value > 0,
        ;
    }
}

/// Whether the selection is frugal.
pub fn is_frugal(pool: &Vec<Candidate>, sel: &Selection, target: &Target) -> (yes: bool)
    requires
        all_standard(pool@),
        total_value(pool@) <= MAX_TOTAL_VALUE,
        total_weight(pool@) <= MAX_TOTAL_WEIGHT,
        target.wf(),
        sel.describes(pool@, *target),
    ensures
        yes == frugal(pool@, sel.mask@, *target),
{
    let rate: u64 = target.fee_rate;
    let count: usize = sel.order.len();
    proof {
        lemma_picked_split(pool@, sel.mask@);
        lemma_totals_bounds(picked(pool@, sel.mask@));
        lemma_totals_bounds(unpicked(pool@, sel.mask@));
    }
    let weight: u64 = crate::weights::TX_FIXED_FIELD_WEIGHT + sel.weight + varint_size(
        target.output_count,
    ) as u64 * 4 + target.output_weight as u64;
    let mut credit: u64 = 4 * (varint_size(count) as u64 - 1);
    if count == 1 {
        credit = credit + 2;
    }
    proof {
        lemma_product_bound(weight as int, rate as int, 0xff_ffff_ffff, 0xffff_ffff_ffff_ffff);
        lemma_product_bound(credit as int, rate as int, 0xff_ffff_ffff, 0xffff_ffff_ffff_ffff);
    }
    let bar: i128 = 4000 * (sel.value as i128 - target.value as i128) - weight as i128
        * rate as i128 + credit as i128 * rate as i128;
    let mut i: usize = 0;
    while i < pool.len()
        invariant
            i <= pool@.len(),
            sel.mask@.len() == pool@.len(),
            bar == slack(pool@, sel.mask@, *target) + count_credit(
                picked(pool@, sel.mask@).len() as int,
            ) * target.fee_rate,
            rate == target.fee_rate,
            forall|j: int|
                0 <= j < i && sel.mask@[j] ==> #[trigger] effective_value(pool@[j], rate) > bar,
        decreases pool@.len() - i,
    {
        if sel.mask[i] {
            let coin = pool[i];
            proof {
                lemma_product_bound(
                    coin.weight as int,
                    rate as int,
                    0xffff_ffff,
                    0xffff_ffff_ffff_ffff,
                );
            }
            let value: i128 = 4000 * coin.value as i128 - coin.weight as i128 * rate as i128;
            if value <= bar {
                assert(sel.mask@[i as int] && effective_value(pool@[i as int], target.fee_rate)
                    <= bar);
                return false;
            }
        }
        i = i + 1;
    }
    true
}

} // verus!
