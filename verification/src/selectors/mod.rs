//! The selectors: a pool of candidates with a way of choosing inputs from it.

use vstd::prelude::*;
use crate::accounting::{
    ChangeRules, PendingPayment, Target, change_value, fee_paid, final_weight, input_weight,
    makes_change, payments_in_range, settle, waste_score, lemma_product_bound,
};
use crate::models::{Algorithm, DepositError, ScenarioEntry, SimulationEntry};
use crate::pool::{
    Candidate, Pool, PoolLimit, in_creation_order, inverted, lemma_picked_split, lemma_total_value_push,
    lemma_totals_bounds, picked, total_value, total_weight, unpicked, values_of, MAX_TOTAL_VALUE,
    MAX_TOTAL_WEIGHT,
};
use crate::selection::{Selection, effective_value, selection_covers};

pub mod bdk;
pub mod rust_coinselect;

verus! {

/// Weight of spending a segwit v1 output.
pub const SEGWIT_V1_TXIN_WEIGHT: u32 = 68;

/// Weight of a segwit v1 output.
pub const SEGWIT_V1_TXOUT_WEIGHT: u32 = 31;

/// Every candidate has the weight of a segwit v1 input.
pub open spec fn all_segwit_v1(s: Seq<Candidate>) -> bool {
    forall|i: int| 0 <= i < s.len() ==> (#[trigger] s[i]).weight == SEGWIT_V1_TXIN_WEIGHT
}

/// Sum of `values`.
pub open spec fn sum_of(values: Seq<u64>) -> int
    decreases values.len(),
{
    if values.len() == 0 {
        0
    } else {
        sum_of(values.drop_last()) + values.last()
    }
}

/// Number of candidates in `s` that cost more to spend at `rate` than they hold.
pub open spec fn negative_count(s: Seq<Candidate>, rate: u64) -> int
    decreases s.len(),
{
    if s.len() == 0 {
        0
    } else {
        negative_count(s.drop_last(), rate) + if effective_value(s.last(), rate) < 0 {
            1int
        } else {
            0int
        }
    }
}

/// What spending `count` segwit v1 inputs costs at `rate`, in units of 1/4000 satoshi.
pub open spec fn cost_to_empty(count: int, rate: u64) -> int {
    count * SEGWIT_V1_TXIN_WEIGHT * rate
}

/// The candidate that holds the change of a withdrawal.
pub open spec fn change_coin(value: u64, next_id: int) -> Candidate {
    Candidate {
        value,
        weight: SEGWIT_V1_TXIN_WEIGHT,
        input_count: 1,
        is_segwit: true,
        creation_sequence: next_id as u64,
    }
}

/// The pool after a withdrawal: what was not chosen, then the change.
pub open spec fn pool_after(
    before: Seq<Candidate>,
    mask: Seq<bool>,
    change: Option<u64>,
    next_id: int,
) -> Seq<Candidate> {
    match change {
        Some(c) => unpicked(before, mask).push(change_coin(c, next_id)),
        None => unpicked(before, mask),
    }
}

/// The record of an attempt that found no inputs.
pub open spec fn records_failure(
    entry: SimulationEntry,
    before: Seq<Candidate>,
    target: Target,
    rules: ChangeRules,
) -> bool {
    &&& entry.inputs@ == Seq::<u64>::empty()
    &&& entry.amount == target.value
    &&& entry.fee is None
    &&& entry.target_feerate == target.fee_rate
    &&& entry.real_feerate is None
    &&& entry.algorithm == Algorithm::Failed
    &&& entry.negative_effective_valued_inputs is None
    &&& entry.output_count is None
    &&& entry.change_amount is None
    &&& entry.utxo_count_before_payment == before.len()
    &&& entry.utxo_count_after_payment == before.len()
    &&& entry.cost_to_empty_at_long_term_feerate == cost_to_empty(
        before.len() as int,
        rules.long_term_feerate,
    )
    &&& entry.balance == total_value(before)
    &&& entry.waste_score is None
}

/// The record of an attempt that spends what `mask` marks in the pool `before`.
pub open spec fn records_selection(
    entry: SimulationEntry,
    before: Seq<Candidate>,
    mask: Seq<bool>,
    target: Target,
    rules: ChangeRules,
) -> bool {
    let chosen = picked(before, mask);
    let value = total_value(chosen);
    let inputs = input_weight(chosen);
    let change = makes_change(target, rules, value, inputs);
    &&& entry.inputs@ == values_of(chosen)
    &&& entry.amount == target.value
    &&& entry.fee == Some(fee_paid(target, rules, value, inputs) as u64)
    &&& entry.target_feerate == target.fee_rate
    &&& entry.real_feerate == Some(
        (fee_paid(target, rules, value, inputs) * 4000 / final_weight(
            target,
            rules,
            value,
            inputs,
        )) as u128,
    )
    &&& entry.algorithm != Algorithm::Failed
    &&& entry.negative_effective_valued_inputs == Some(
        negative_count(chosen, target.fee_rate) as usize,
    )
    &&& entry.output_count == Some(
        (target.output_count + if change {
            1int
        } else {
            0int
        }) as usize,
    )
    &&& entry.change_amount == if change {
        Some(change_value(target, rules, value, inputs) as u64)
    } else {
        None
    }
    &&& entry.utxo_count_before_payment == before.len()
    &&& entry.utxo_count_after_payment == unpicked(before, mask).len() + if change {
        1int
    } else {
        0int
    }
    &&& entry.cost_to_empty_at_long_term_feerate == cost_to_empty(
        before.len() as int,
        rules.long_term_feerate,
    )
    &&& entry.balance == total_value(before)
    &&& entry.waste_score == Some(waste_score(target, rules, value, inputs) as i128)
}

/// A withdrawal took the pool from `before` to `after` and left `entry`:
/// either it failed and the pool is as it was, or it spent a selection that
/// pays for the target and its fee, and put the change at the end of the pool.
pub open spec fn withdrawn(
    before: Seq<Candidate>,
    next_id: int,
    after: Seq<Candidate>,
    entry: SimulationEntry,
    target: Target,
    rules: ChangeRules,
) -> bool {
    if entry.algorithm == Algorithm::Failed {
        after == before && records_failure(entry, before, target, rules)
    } else {
        exists|mask: Seq<bool>| #[trigger]
            spends(before, next_id, after, entry, mask, target, rules)
    }
}

/// The withdrawal spent what `mask` marks in the pool `before`.
pub open spec fn spends(
    before: Seq<Candidate>,
    next_id: int,
    after: Seq<Candidate>,
    entry: SimulationEntry,
    mask: Seq<bool>,
    target: Target,
    rules: ChangeRules,
) -> bool {
    &&& mask.len() == before.len()
    &&& selection_covers(before, mask, target)
    &&& records_selection(entry, before, mask, target, rules)
    &&& after == pool_after(before, mask, entry.change_amount, next_id)
}

/// The inputs of a paid withdrawal are worth exactly the amount paid, the
/// fee and the change; those of a failed attempt are none.
pub open spec fn balanced(entry: SimulationEntry) -> bool {
    if entry.algorithm == Algorithm::Failed {
        entry.inputs@.len() == 0
    } else {
        &&& entry.fee is Some
        &&& sum_of(entry.inputs@) == entry.amount + entry.fee->Some_0 + match entry.change_amount {
            Some(change) => change as int,
            None => 0,
        }
        &&& sum_of(entry.inputs@) >= entry.amount
    }
}

/// The sum of the values of candidates is the sum of their value list.
pub proof fn lemma_sum_of_values(s: Seq<Candidate>)
    ensures
        sum_of(values_of(s)) == total_value(s),
    decreases s.len(),
{
    if s.len() > 0 {
        lemma_sum_of_values(s.drop_last());
        assert(values_of(s).drop_last() =~= values_of(s.drop_last()));
    }
}

/// A withdrawal neither makes value nor loses it: what leaves the pool is
/// the amount paid and the fee, and a failed attempt leaves the balance as
/// it was.
pub proof fn lemma_withdrawal_conserves(
    before: Seq<Candidate>,
    next_id: int,
    after: Seq<Candidate>,
    entry: SimulationEntry,
    target: Target,
    rules: ChangeRules,
)
    requires
        withdrawn(before, next_id, after, entry, target, rules),
        balanced(entry),
    ensures
        entry.algorithm == Algorithm::Failed ==> total_value(after) == total_value(before),
        entry.algorithm != Algorithm::Failed ==> total_value(after) + entry.amount
            + entry.fee->Some_0 == total_value(before),
{
    if entry.algorithm != Algorithm::Failed {
        let mask = choose|mask: Seq<bool>| #[trigger]
            spends(before, next_id, after, entry, mask, target, rules);
        lemma_picked_split(before, mask);
        lemma_sum_of_values(picked(before, mask));
        match entry.change_amount {
            Some(change) => {
                lemma_total_value_push(
                    unpicked(before, mask),
                    change_coin(change, next_id),
                );
            },
            None => {},
        }
    }
}

/// The weights of segwit v1 candidates add up to 68 each.
pub proof fn lemma_segwit_v1_weight(s: Seq<Candidate>)
    requires
        all_segwit_v1(s),
    ensures
        total_weight(s) == SEGWIT_V1_TXIN_WEIGHT * s.len(),
    decreases s.len(),
{
    if s.len() > 0 {
        assert(all_segwit_v1(s.drop_last())) by {
            assert forall|i: int| 0 <= i < s.drop_last().len() implies (#[trigger] s.drop_last()[i]).weight
                == SEGWIT_V1_TXIN_WEIGHT by {
                assert(s.drop_last()[i] == s[i]);
            }
        }
        lemma_segwit_v1_weight(s.drop_last());
        assert(s.last() == s[s.len() - 1]);
    }
}

/// What is picked from segwit v1 candidates is segwit v1.
pub proof fn lemma_picked_segwit_v1(s: Seq<Candidate>, mask: Seq<bool>)
    requires
        s.len() == mask.len(),
        all_segwit_v1(s),
    ensures
        all_segwit_v1(picked(s, mask)),
    decreases s.len(),
{
    if s.len() > 0 {
        let s0 = s.drop_last();
        let m0 = mask.drop_last();
        assert(all_segwit_v1(s0)) by {
            assert forall|i: int| 0 <= i < s0.len() implies (#[trigger] s0[i]).weight
                == SEGWIT_V1_TXIN_WEIGHT by {
                assert(s0[i] == s[i]);
            }
        }
        lemma_picked_segwit_v1(s0, m0);
        let p0 = picked(s0, m0);
        let p = picked(s, mask);
        assert forall|i: int| 0 <= i < p.len() implies (#[trigger] p[i]).weight
            == SEGWIT_V1_TXIN_WEIGHT by {
            if i < p0.len() {
                assert(p[i] == p0[i]);
            } else {
                assert(p[i] == s[s.len() - 1]);
            }
        }
    }
}

/// A pool with the rules by which a withdrawal from it is settled.
pub trait TargetSelector {
    /// The selector is in order.
    spec fn wf(&self) -> bool;

    /// The candidates of the pool, oldest first.
    spec fn coins(&self) -> Seq<Candidate>;

    /// The creation sequence number that the next candidate gets.
    spec fn next_id(&self) -> int;

    /// The rules by which withdrawals are settled.
    spec fn rules(&self) -> ChangeRules;

    /// Puts the amount of `deposit` into the pool as a new candidate. Only an
    /// amount below zero and the limits of the pool keep it out.
    fn deposit(&mut self, deposit: ScenarioEntry) -> (done: Result<(), DepositError>)
        requires
            old(self).wf(),
        ensures
            final(self).wf(),
            final(self).rules() == old(self).rules(),
            in_creation_order(final(self).coins(), final(self).next_id()),
            0 <= final(self).next_id() <= u64::MAX,
            deposited(
                old(self).coins(),
                old(self).next_id(),
                final(self).coins(),
                final(self).next_id(),
                deposit,
                done,
            ),
    ;

    /// Tries to pay `payments` from the pool at the given fee rate, in
    /// satoshi per 1000 virtual bytes.
    fn withdraw(&mut self, payments: &Vec<PendingPayment>, fee_rate_per_kvb: u64) -> (entry:
        SimulationEntry)
        requires
            old(self).wf(),
            payments_in_range(payments@),
            old(self).next_id() < u64::MAX,
        ensures
            final(self).wf(),
            final(self).rules() == old(self).rules(),
            final(self).next_id() == old(self).next_id() + if entry.change_amount is Some {
                1int
            } else {
                0int
            },
            in_creation_order(final(self).coins(), final(self).next_id()),
            0 <= final(self).next_id() <= u64::MAX,
            entry.id == 0,
            balanced(entry),
            entry.change_amount matches Some(change) ==> change >= old(self).rules().dust_limit
                && change >= 1,
            withdrawn(
                old(self).coins(),
                old(self).next_id(),
                final(self).coins(),
                entry,
                Target::of(payments@, fee_rate_per_kvb),
                old(self).rules(),
            ),
    ;

    /// The values of the candidates, oldest first.
    fn values(&self) -> (list: Vec<u64>)
        requires
            self.wf(),
        ensures
            list@ == values_of(self.coins()),
    ;

    /// Whether a creation sequence number is left for one more candidate.
    fn has_sequence_left(&self) -> (yes: bool)
        requires
            self.wf(),
        ensures
            yes == (self.next_id() < u64::MAX),
    ;
}

/// The limit that keeps a deposit out of a pool, if any.
pub open spec fn deposit_refusal(coins: Seq<Candidate>, next_id: int, value: u64) -> Option<
    PoolLimit,
> {
    if total_value(coins) + value > MAX_TOTAL_VALUE {
        Some(PoolLimit::Value)
    } else if total_weight(coins) + coins.len() + SEGWIT_V1_TXIN_WEIGHT + 1
        > MAX_TOTAL_WEIGHT {
        Some(PoolLimit::Weight)
    } else if next_id >= u64::MAX {
        Some(PoolLimit::Sequence)
    } else {
        None
    }
}

/// A deposit took the pool from `before` to `after` with the result `done`.
pub open spec fn deposited(
    before: Seq<Candidate>,
    next_id: int,
    after: Seq<Candidate>,
    next_after: int,
    deposit: ScenarioEntry,
    done: Result<(), DepositError>,
) -> bool {
    if deposit.amount < 0 {
        done == Err::<(), DepositError>(DepositError::Negative) && after == before && next_after
            == next_id
    } else {
        match deposit_refusal(before, next_id, deposit.amount as u64) {
            Some(limit) => done == Err::<(), DepositError>(DepositError::Limit(limit)) && after
                == before && next_after == next_id,
            None => done == Ok::<(), DepositError>(()) && after == before.push(
                change_coin(deposit.amount as u64, next_id),
            ) && next_after == next_id + 1,
        }
    }
}

/// What spending `count` segwit v1 inputs costs at `rate`, in units of 1/4000 satoshi.
fn emptying_cost(count: usize, rate: u64) -> (cost: u128)
    requires
        count <= MAX_TOTAL_WEIGHT,
    ensures
        cost == cost_to_empty(count as int, rate),
{
    proof {
        lemma_product_bound(
            count as int * 68,
            rate as int,
            0x21ff_ffff_ffbc,
            0xffff_ffff_ffff_ffff,
        );
    }
    count as u128 * 68 * rate as u128
}

/// Puts the amount of `deposit` into `pool` as a segwit v1 candidate; an
/// amount of zero makes a candidate of no value.
pub fn deposit_into(pool: &mut Pool, deposit: ScenarioEntry) -> (done: Result<(), DepositError>)
    requires
        old(pool).wf(),
        all_segwit_v1(old(pool)@),
    ensures
        final(pool).wf(),
        all_segwit_v1(final(pool)@),
        deposited(
            old(pool)@,
            old(pool).next_id(),
            final(pool)@,
            final(pool).next_id(),
            deposit,
            done,
        ),
{
    if deposit.amount < 0 {
        return Err(DepositError::Negative);
    }
    match pool.deposit(deposit.amount as u64, SEGWIT_V1_TXIN_WEIGHT) {
        Ok(_) => Ok(()),
        Err(limit) => Err(DepositError::Limit(limit)),
    }
}

/// The record of an attempt that found no inputs in `pool`.
pub fn failed_entry(pool: &Pool, target: &Target, rules: &ChangeRules) -> (entry: SimulationEntry)
    requires
        pool.wf(),
    ensures
        entry.id == 0,
        balanced(entry),
        records_failure(entry, pool@, *target, *rules),
{
    proof {
        lemma_totals_bounds(pool@);
    }
    let count: usize = pool.len();
    SimulationEntry {
        id: 0,
        inputs: Vec::new(),
        amount: target.value,
        fee: None,
        target_feerate: target.fee_rate,
        real_feerate: None,
        algorithm: Algorithm::Failed,
        negative_effective_valued_inputs: None,
        output_count: None,
        change_amount: None,
        utxo_count_before_payment: count,
        utxo_count_after_payment: count,
        cost_to_empty_at_long_term_feerate: emptying_cost(count, rules.long_term_feerate),
        balance: pool.balance(),
        waste_score: None,
    }
}

/// The values of `coins`, and how many of them cost more to spend at `rate`
/// than they hold.
fn list_inputs(coins: &Vec<Candidate>, rate: u64) -> (out: (Vec<u64>, usize))
    ensures
        out.0@ == values_of(coins@),
        out.1 == negative_count(coins@, rate),
{
    let mut values: Vec<u64> = Vec::new();
    let mut negatives: usize = 0;
    let mut i: usize = 0;
    while i < coins.len()
        invariant
            i <= coins.len(),
            values@ == values_of(coins@.take(i as int)),
            negatives == negative_count(coins@.take(i as int), rate),
            negatives <= i,
        decreases coins.len() - i,
    {
        let coin = coins[i];
        proof {
            assert(coins@.take(i + 1).drop_last() =~= coins@.take(i as int));
            assert(values_of(coins@.take(i + 1)) =~= values_of(coins@.take(i as int)).push(
                coin.value,
            ));
            lemma_product_bound(
                coin.weight as int,
                rate as int,
                0xffff_ffff,
                0xffff_ffff_ffff_ffff,
            );
        }
        values.push(coin.value);
        if 4000 * (coin.value as u128) < coin.weight as u128 * rate as u128 {
            negatives = negatives + 1;
        }
        i = i + 1;
    }
    assert(coins@.take(i as int) =~= coins@);
    (values, negatives)
}

/// Spends from `pool` the selection `sel`, which pays for the target: takes
/// the chosen candidates out, puts the change at the end, and returns the
/// record of the withdrawal.
pub fn spend(
    pool: &mut Pool,
    sel: &Selection,
    target: &Target,
    rules: &ChangeRules,
    algorithm: Algorithm,
) -> (entry: SimulationEntry)
    requires
        old(pool).wf(),
        all_segwit_v1(old(pool)@),
        old(pool).next_id() < u64::MAX,
        target.wf(),
        sel.describes(old(pool)@, *target),
        sel.covered,
        algorithm != Algorithm::Failed,
    ensures
        final(pool).wf(),
        all_segwit_v1(final(pool)@),
        entry.id == 0,
        balanced(entry),
        entry.change_amount matches Some(change) ==> change >= rules.dust_limit && change >= 1,
        entry.algorithm == algorithm,
        spends(
            old(pool)@,
            old(pool).next_id(),
            final(pool)@,
            entry,
            sel.mask@,
            *target,
            *rules,
        ),
        final(pool).next_id() == old(pool).next_id() + if entry.change_amount is Some {
            1int
        } else {
            0int
        },
{
    let ghost before = pool@;
    let ghost mask = sel.mask@;
    let ghost chosen = picked(before, mask);
    proof {
        lemma_picked_split(before, mask);
        lemma_totals_bounds(chosen);
        lemma_totals_bounds(unpicked(before, mask));
        lemma_totals_bounds(before);
        lemma_picked_segwit_v1(before, mask);
        lemma_picked_segwit_v1(before, inverted(mask));
        lemma_segwit_v1_weight(chosen);
        lemma_sum_of_values(chosen);
    }
    let count: usize = pool.len();
    let balance: u64 = pool.balance();
    let cost: u128 = emptying_cost(count, rules.long_term_feerate);
    let settlement = settle(target, rules, sel.value, sel.weight);
    let taken: Vec<Candidate> = pool.remove(&sel.mask);
    let (inputs, negatives) = list_inputs(&taken, target.fee_rate);
    let mut outputs: usize = target.output_count;
    match settlement.change {
        Some(c) => {
            assert(chosen.len() > 0) by {
                if chosen.len() == 0 {
                    assert(total_value(chosen) == 0);
                }
            }
            let done = pool.deposit(c, SEGWIT_V1_TXIN_WEIGHT);
            assert(done is Ok);
            outputs = outputs + 1;
        },
        None => {},
    }
    proof {
        lemma_product_bound(settlement.fee as int, 4000, 0xffff_ffff_ffff_ffff, 4000);
    }
    let paid_rate: u128 = settlement.fee as u128 * 4000 / settlement.weight as u128;
    SimulationEntry {
        id: 0,
        inputs,
        amount: target.value,
        fee: Some(settlement.fee),
        target_feerate: target.fee_rate,
        real_feerate: Some(paid_rate),
        algorithm,
        negative_effective_valued_inputs: Some(negatives),
        output_count: Some(outputs),
        change_amount: settlement.change,
        utxo_count_before_payment: count,
        utxo_count_after_payment: pool.len(),
        cost_to_empty_at_long_term_feerate: cost,
        balance,
        waste_score: Some(settlement.waste),
    }
}

} // verus!
