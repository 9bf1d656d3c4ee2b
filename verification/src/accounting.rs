//! What a selection costs: the fee it pays, the change it returns and its waste.

use vstd::prelude::*;
use crate::pool::{Candidate, total_weight, MAX_TOTAL_VALUE};
use crate::weights::{
    spec_fee, spec_varint_size, fee_at, varint_size, TX_FIXED_FIELD_WEIGHT, MAX_TX_WEIGHT,
};

verus! {

/// Largest sum of output weights that the payments of one withdrawal may have.
pub const MAX_OUTPUT_WEIGHT: u64 = 0x3fff_ffff;

/// A payment that a withdrawal has to fund.
#[derive(Clone, Copy, Debug)]
pub struct PendingPayment {
    /// Amount in satoshi.
    pub amount: u64,
    /// Weight of the output that carries it.
    pub weight: u32,
}

/// What one withdrawal has to fund: all pending payments taken together.
#[derive(Clone, Copy, Debug)]
pub struct Target {
    /// Sum of the payment amounts.
    pub value: u64,
    /// Fee rate asked for, in satoshi per 1000 virtual bytes.
    pub fee_rate: u64,
    /// Number of payment outputs.
    pub output_count: usize,
    /// Sum of the weights of the payment outputs.
    pub output_weight: u32,
}

/// The rules by which change is made and waste is measured.
#[derive(Clone, Copy, Debug)]
pub struct ChangeRules {
    /// Fee rate expected in the long run, in satoshi per 1000 virtual bytes.
    pub long_term_feerate: u64,
    /// Least value that a change output may have.
    pub dust_limit: u64,
    /// Weight of spending the change output later.
    pub input_drain_weight: u32,
    /// Weight of the change output itself.
    pub output_drain_weight: u32,
}

/// What a selection pays and returns.
#[derive(Clone, Copy, Debug)]
pub struct Settlement {
    /// Fee paid, in satoshi.
    pub fee: u64,
    /// Value of the change output, where one is made.
    pub change: Option<u64>,
    /// Waste, in units of 1/4000 satoshi.
    pub waste: i128,
    /// Weight of the whole transaction.
    pub weight: u64,
}

/// Sum of the payment amounts.
pub open spec fn payments_value(p: Seq<PendingPayment>) -> int
    decreases p.len(),
{
    if p.len() == 0 {
        0
    } else {
        payments_value(p.drop_last()) + p.last().amount
    }
}

/// Sum of the payment output weights.
pub open spec fn payments_weight(p: Seq<PendingPayment>) -> int
    decreases p.len(),
{
    if p.len() == 0 {
        0
    } else {
        payments_weight(p.drop_last()) + p.last().weight
    }
}

/// The payments can be funded together: their sums stay within the limits.
pub open spec fn payments_in_range(p: Seq<PendingPayment>) -> bool {
    &&& payments_value(p) <= MAX_TOTAL_VALUE
    &&& payments_weight(p) <= MAX_OUTPUT_WEIGHT
    &&& p.len() < usize::MAX
}

/// The sums of payments are never negative.
pub proof fn lemma_payments_nonneg(p: Seq<PendingPayment>)
    ensures
        0 <= payments_value(p),
        0 <= payments_weight(p),
    decreases p.len(),
{
    if p.len() > 0 {
        lemma_payments_nonneg(p.drop_last());
    }
}

/// The sums of a prefix of the payments never pass those of all of them.
pub proof fn lemma_payments_prefix(p: Seq<PendingPayment>, i: int)
    requires
        0 <= i <= p.len(),
    ensures
        0 <= payments_value(p.take(i)) <= payments_value(p),
        0 <= payments_weight(p.take(i)) <= payments_weight(p),
    decreases p.len() - i,
{
    lemma_payments_nonneg(p.take(i));
    if i < p.len() {
        lemma_payments_prefix(p, i + 1);
        assert(p.take(i + 1).drop_last() =~= p.take(i));
    } else {
        assert(p.take(i) =~= p);
    }
}

/// Weight of the inputs of a transaction that spends `selected`, with the
/// input count and, where there is an input, the witness marker.
pub open spec fn input_weight(selected: Seq<Candidate>) -> int {
    spec_varint_size(selected.len() as int) * 4 + total_weight(selected) + if selected.len() > 0 {
        2int
    } else {
        0int
    }
}

impl Target {
    /// The sums are within the limits of one withdrawal.
    pub open spec fn wf(&self) -> bool {
        &&& self.value <= MAX_TOTAL_VALUE
        &&& self.output_weight <= MAX_OUTPUT_WEIGHT
        &&& self.output_count < usize::MAX
    }

    /// The target that funds `payments` at `fee_rate`.
    pub open spec fn of(payments: Seq<PendingPayment>, fee_rate: u64) -> Target {
        Target {
            value: payments_value(payments) as u64,
            fee_rate,
            output_count: payments.len() as usize,
            output_weight: payments_weight(payments) as u32,
        }
    }

    /// Weight of a transaction with inputs of weight `inputs` and no change output.
    pub open spec fn weight_without_change(&self, inputs: int) -> int {
        TX_FIXED_FIELD_WEIGHT + inputs + spec_varint_size(self.output_count as int) * 4
            + self.output_weight
    }

    /// Weight of a transaction with inputs of weight `inputs` and a change
    /// output of weight `drain`.
    pub open spec fn weight_with_change(&self, inputs: int, drain: int) -> int {
        TX_FIXED_FIELD_WEIGHT + inputs + spec_varint_size(self.output_count + 1) * 4
            + self.output_weight + drain
    }

    /// The fee that inputs of weight `inputs` owe without a change output.
    pub open spec fn fee_without_change(&self, inputs: int) -> int {
        spec_fee(self.weight_without_change(inputs), self.fee_rate as int)
    }

    /// Inputs of value `value` and weight `inputs` pay for the target and the fee.
    pub open spec fn covered_by(&self, value: int, inputs: int) -> bool {
        value >= self.value + self.fee_without_change(inputs)
    }

    /// Combines the pending payments into one target, if their sums are within
    /// the limits.
    pub fn from_payments(payments: &Vec<PendingPayment>, fee_rate: u64) -> (target: Option<Target>)
        ensures
            target is Some <==> payments_in_range(payments@),
            target matches Some(t) ==> t == Target::of(payments@, fee_rate) && t.wf(),
    {
        if payments.len() == usize::MAX {
            return None;
        }
        let mut value: u64 = 0;
        let mut weight: u64 = 0;
        let mut i: usize = 0;
        while i < payments.len()
            invariant
                i <= payments.len(),
                value == payments_value(payments@.take(i as int)),
                weight == payments_weight(payments@.take(i as int)),
                value <= MAX_TOTAL_VALUE,
                weight <= MAX_OUTPUT_WEIGHT,
            decreases payments.len() - i,
        {
            let p = payments[i];
            proof {
                assert(payments@.take(i + 1).drop_last() =~= payments@.take(i as int));
                lemma_payments_prefix(payments@, i + 1);
            }
            if p.amount > MAX_TOTAL_VALUE - value || p.weight as u64 > MAX_OUTPUT_WEIGHT - weight {
                return None;
            }
            value = value + p.amount;
            weight = weight + p.weight as u64;
            i = i + 1;
        }
        assert(payments@.take(i as int) =~= payments@);
        Some(Target { value, fee_rate, output_count: payments.len(), output_weight: weight as u32 })
    }
}

/// What is left of `value` after the target and the fee without change.
pub open spec fn excess(target: Target, value: int, inputs: int) -> int {
    value - target.value - target.fee_without_change(inputs)
}

/// The value that a change output would get: what is left after the target
/// and the fee of a transaction that carries the change output too.
pub open spec fn change_value(target: Target, rules: ChangeRules, value: int, inputs: int) -> int {
    value - target.value - spec_fee(
        target.weight_with_change(inputs, rules.output_drain_weight as int),
        target.fee_rate as int,
    )
}

/// Whether a change output is made: it must hold at least one satoshi, reach
/// the dust limit, and spending it later must not cost more than leaving the
/// excess to the fee.
pub open spec fn makes_change(target: Target, rules: ChangeRules, value: int, inputs: int) -> bool {
    &&& change_value(target, rules, value, inputs) >= 1
    &&& change_value(target, rules, value, inputs) >= rules.dust_limit
    &&& rules.input_drain_weight * rules.long_term_feerate <= 4000 * excess(target, value, inputs)
}

/// The fee that the selection pays.
pub open spec fn fee_paid(target: Target, rules: ChangeRules, value: int, inputs: int) -> int {
    if makes_change(target, rules, value, inputs) {
        value - target.value - change_value(target, rules, value, inputs)
    } else {
        value - target.value
    }
}

/// The waste of the selection, in units of 1/4000 satoshi: what the inputs cost
/// now beyond what they would cost at the long-term fee rate, and either the
/// later cost of spending the change or the excess left to the fee.
pub open spec fn waste_score(target: Target, rules: ChangeRules, value: int, inputs: int) -> int {
    inputs * (target.fee_rate - rules.long_term_feerate) + if makes_change(
        target,
        rules,
        value,
        inputs,
    ) {
        rules.input_drain_weight * rules.long_term_feerate
    } else {
        4000 * excess(target, value, inputs)
    }
}

/// Weight of the transaction that the selection makes.
pub open spec fn final_weight(target: Target, rules: ChangeRules, value: int, inputs: int) -> int {
    if makes_change(target, rules, value, inputs) {
        target.weight_with_change(inputs, rules.output_drain_weight as int)
    } else {
        target.weight_without_change(inputs)
    }
}

/// Largest input weight that a selection from a pool can have.
pub const MAX_INPUT_WEIGHT: u64 = 0x80_0000_0030;

/// A product of numbers that are not negative is bounded by the product of
/// their bounds.
pub proof fn lemma_product_bound(a: int, b: int, x: int, y: int)
    requires
        0 <= a <= x,
        0 <= b <= y,
    ensures
        0 <= a * b <= x * y,
{
    assert(0 <= a * b <= x * y) by (nonlinear_arith)
        requires
            0 <= a <= x,
            0 <= b <= y,
    ;
}

/// Whether inputs of value `value` and weight `inputs` pay for the target and
/// the fee of a transaction without change.
pub fn covers(target: &Target, value: u64, inputs: u64) -> (yes: bool)
    requires
        target.wf(),
        inputs <= MAX_INPUT_WEIGHT,
    ensures
        yes == target.covered_by(value as int, inputs as int),
{
    let weight: u64 = TX_FIXED_FIELD_WEIGHT + inputs + varint_size(target.output_count) as u64 * 4
        + target.output_weight as u64;
    let fee: u128 = fee_at(weight, target.fee_rate);
    proof {
        lemma_product_bound(
            weight as int,
            target.fee_rate as int,
            0xff_ffff_ffff,
            0xffff_ffff_ffff_ffff,
        );
    }
    value as u128 >= target.value as u128 + fee
}

/// Settles a selection that covers the target: decides whether change is
/// made, and states the fee, the change, the waste and the weight.
pub fn settle(target: &Target, rules: &ChangeRules, value: u64, inputs: u64) -> (s: Settlement)
    requires
        target.wf(),
        inputs <= MAX_INPUT_WEIGHT,
        target.covered_by(value as int, inputs as int),
    ensures
        s.change is Some <==> makes_change(*target, *rules, value as int, inputs as int),
        s.change matches Some(c) ==> c == change_value(
            *target,
            *rules,
            value as int,
            inputs as int,
        ) && c >= rules.dust_limit && c >= 1,
        s.fee == fee_paid(*target, *rules, value as int, inputs as int),
        s.fee + target.value + (match s.change {
            Some(c) => c as int,
            None => 0,
        }) == value,
        s.waste == waste_score(*target, *rules, value as int, inputs as int),
        s.weight == final_weight(*target, *rules, value as int, inputs as int),
        0 < s.weight <= MAX_TX_WEIGHT,
{
    let rate: u64 = target.fee_rate;
    let plain_weight: u64 = TX_FIXED_FIELD_WEIGHT + inputs + varint_size(target.output_count) as u64
        * 4 + target.output_weight as u64;
    let drain_weight: u64 = TX_FIXED_FIELD_WEIGHT + inputs + varint_size(target.output_count + 1) as u64
        * 4 + target.output_weight as u64 + rules.output_drain_weight as u64;
    proof {
        lemma_product_bound(plain_weight as int, rate as int, 0xff_ffff_ffff, 0xffff_ffff_ffff_ffff);
        lemma_product_bound(drain_weight as int, rate as int, 0xff_ffff_ffff, 0xffff_ffff_ffff_ffff);
        lemma_product_bound(
            rules.input_drain_weight as int,
            rules.long_term_feerate as int,
            0xffff_ffff,
            0xffff_ffff_ffff_ffff,
        );
        lemma_product_bound(inputs as int, rate as int, 0xff_ffff_ffff, 0xffff_ffff_ffff_ffff);
        lemma_product_bound(
            inputs as int,
            rules.long_term_feerate as int,
            0xff_ffff_ffff,
            0xffff_ffff_ffff_ffff,
        );
        assert(inputs * (rate - rules.long_term_feerate) == inputs * rate - inputs
            * rules.long_term_feerate) by (nonlinear_arith);
    }
    let plain_fee: u128 = fee_at(plain_weight, rate);
    let drain_fee: u128 = fee_at(drain_weight, rate);
    let left: u64 = value - target.value;
    let over: u64 = (left as u128 - plain_fee) as u64;
    let spend_cost: u128 = rules.input_drain_weight as u128 * rules.long_term_feerate as u128;
    let input_waste: i128 = inputs as i128 * rate as i128 - inputs as i128
        * rules.long_term_feerate as i128;
    if left as u128 > drain_fee && left as u128 - drain_fee >= rules.dust_limit as u128
        && spend_cost <= 4000 * over as u128 {
        let change: u64 = (left as u128 - drain_fee) as u64;
        Settlement {
            fee: left - change,
            change: Some(change),
            waste: input_waste + spend_cost as i128,
            weight: drain_weight,
        }
    } else {
        Settlement {
            fee: left,
            change: None,
            waste: input_waste + 4000 * over as i128,
            weight: plain_weight,
        }
    }
}

} // verus!
