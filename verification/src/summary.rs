//! Running statistics over the outcomes of a simulation.

use vstd::prelude::*;
use crate::accounting::lemma_product_bound;
use crate::models::{Algorithm, SimulationEntry};

verus! {

/// How often each algorithm was used.
#[derive(Clone, Copy, Debug)]
pub struct AlgorithmFrequencies {
    /// Withdrawals that the branch and bound search served.
    pub bnb: usize,
    /// Withdrawals served best effective value first.
    pub select_sorted: usize,
    /// Withdrawals served oldest first.
    pub fifo: usize,
    /// Attempts that failed.
    pub failed: usize,
}

/// The counts and sums of a run that do not depend on the order of its
/// outcomes.
pub ghost struct Tally {
    /// Withdrawals that the branch and bound search served.
    pub bnb: int,
    /// Withdrawals served best effective value first.
    pub select_sorted: int,
    /// Withdrawals served oldest first.
    pub fifo: int,
    /// Attempts that failed.
    pub failed: int,
    /// Withdrawals that were paid.
    pub withdraws: int,
    /// Inputs spent that cost more to spend than they held.
    pub negative_inputs: int,
    /// Sum of the fees paid.
    pub fees: int,
    /// Attempts that made no change output.
    pub changeless: int,
    /// Change outputs made.
    pub changes: int,
    /// Sum of the change values.
    pub change_sum: int,
    /// Least change value; `u64::MAX` where there is none.
    pub min_change: int,
    /// Greatest change value; 0 where there is none.
    pub max_change: int,
    /// Withdrawals that spent inputs.
    pub input_sets: int,
    /// Inputs spent.
    pub inputs_spent: int,
    /// Least number of inputs of a withdrawal; `usize::MAX` where there is none.
    pub min_input_set: int,
    /// Greatest number of inputs of a withdrawal; 0 where there is none.
    pub max_input_set: int,
}

/// The lesser of two integers.
pub open spec fn least(a: int, b: int) -> int {
    if a <= b {
        a
    } else {
        b
    }
}

/// The greater of two integers.
pub open spec fn greatest(a: int, b: int) -> int {
    if a >= b {
        a
    } else {
        b
    }
}

/// One if the condition holds, else zero.
pub open spec fn one_if(condition: bool) -> int {
    if condition {
        1
    } else {
        0
    }
}

impl Tally {
    /// The tally of no outcome at all.
    pub open spec fn zero() -> Tally {
        Tally {
            bnb: 0,
            select_sorted: 0,
            fifo: 0,
            failed: 0,
            withdraws: 0,
            negative_inputs: 0,
            fees: 0,
            changeless: 0,
            changes: 0,
            change_sum: 0,
            min_change: u64::MAX as int,
            max_change: 0,
            input_sets: 0,
            inputs_spent: 0,
            min_input_set: usize::MAX as int,
            max_input_set: 0,
        }
    }

    /// The tally of the single outcome `entry`.
    pub open spec fn single(entry: SimulationEntry) -> Tally {
        let inputs = entry.inputs.len() as int;
        Tally {
            bnb: one_if(entry.algorithm == Algorithm::Bnb),
            select_sorted: one_if(entry.algorithm == Algorithm::SelectSorted),
            fifo: one_if(entry.algorithm == Algorithm::Fifo),
            failed: one_if(entry.algorithm == Algorithm::Failed),
            withdraws: one_if(entry.algorithm != Algorithm::Failed),
            negative_inputs: match entry.negative_effective_valued_inputs {
                Some(count) => count as int,
                None => 0,
            },
            fees: match entry.fee {
                Some(fee) => fee as int,
                None => 0,
            },
            changeless: one_if(entry.change_amount is None),
            changes: one_if(entry.change_amount is Some),
            change_sum: match entry.change_amount {
                Some(change) => change as int,
                None => 0,
            },
            min_change: match entry.change_amount {
                Some(change) => change as int,
                None => u64::MAX as int,
            },
            max_change: match entry.change_amount {
                Some(change) => change as int,
                None => 0,
            },
            input_sets: one_if(inputs > 0),
            inputs_spent: inputs,
            min_input_set: if inputs > 0 {
                inputs
            } else {
                usize::MAX as int
            },
            max_input_set: inputs,
        }
    }

    /// The tally of two runs taken together.
    pub open spec fn merged(self, other: Tally) -> Tally {
        Tally {
            bnb: self.bnb + other.bnb,
            select_sorted: self.select_sorted + other.select_sorted,
            fifo: self.fifo + other.fifo,
            failed: self.failed + other.failed,
            withdraws: self.withdraws + other.withdraws,
            negative_inputs: self.negative_inputs + other.negative_inputs,
            fees: self.fees + other.fees,
            changeless: self.changeless + other.changeless,
            changes: self.changes + other.changes,
            change_sum: self.change_sum + other.change_sum,
            min_change: least(self.min_change, other.min_change),
            max_change: greatest(self.max_change, other.max_change),
            input_sets: self.input_sets + other.input_sets,
            inputs_spent: self.inputs_spent + other.inputs_spent,
            min_input_set: least(self.min_input_set, other.min_input_set),
            max_input_set: greatest(self.max_input_set, other.max_input_set),
        }
    }

    /// Number of attempts counted.
    pub open spec fn attempts(self) -> int {
        self.bnb + self.select_sorted + self.fifo + self.failed
    }

    /// The tally of the outcomes `entries`, taken one after the other.
    pub open spec fn of(entries: Seq<SimulationEntry>) -> Tally
        decreases entries.len(),
    {
        if entries.len() == 0 {
            Tally::zero()
        } else {
            Tally::of(entries.drop_last()).merged(Tally::single(entries.last()))
        }
    }

    /// The counts of a tally of outcomes hang together, and its sums are
    /// bounded by the number of attempts.
    pub open spec fn sound(self) -> bool {
        &&& 0 <= self.bnb && 0 <= self.select_sorted && 0 <= self.fifo && 0 <= self.failed
        &&& self.withdraws == self.bnb + self.select_sorted + self.fifo
        &&& 0 <= self.changes && 0 <= self.changeless
        &&& self.changes + self.changeless == self.attempts()
        &&& 0 <= self.input_sets <= self.attempts()
        &&& 0 <= self.negative_inputs <= self.attempts() * usize::MAX
        &&& 0 <= self.inputs_spent <= self.attempts() * usize::MAX
        &&& 0 <= self.fees <= self.attempts() * u64::MAX
        &&& 0 <= self.change_sum <= self.attempts() * u64::MAX
        &&& 0 <= self.min_change <= u64::MAX
        &&& 0 <= self.max_change <= u64::MAX
        &&& 0 <= self.min_input_set <= usize::MAX
        &&& 0 <= self.max_input_set <= usize::MAX
    }
}

/// Merging tallies does not depend on the order of the two.
pub proof fn lemma_merged_commutes(a: Tally, b: Tally)
    ensures
        a.merged(b) == b.merged(a),
{
}

/// Merging tallies does not depend on how they are grouped.
pub proof fn lemma_merged_associates(a: Tally, b: Tally, c: Tally)
    ensures
        a.merged(b).merged(c) == a.merged(b.merged(c)),
{
}

/// The tally of no outcome changes nothing when merged into a tally of outcomes.
pub proof fn lemma_merged_zero(a: Tally)
    requires
        a.sound(),
    ensures
        a.merged(Tally::zero()) == a,
        Tally::zero().merged(a) == a,
{
}

/// The tally of outcomes is sound.
pub proof fn lemma_tally_sound(entries: Seq<SimulationEntry>)
    ensures
        Tally::of(entries).sound(),
        Tally::of(entries).attempts() == entries.len(),
    decreases entries.len(),
{
    if entries.len() > 0 {
        lemma_tally_sound(entries.drop_last());
        let before = Tally::of(entries.drop_last());
        let n = before.attempts();
        assert((n + 1) * usize::MAX == n * usize::MAX + usize::MAX) by (nonlinear_arith);
        assert((n + 1) * u64::MAX == n * u64::MAX + u64::MAX) by (nonlinear_arith);
    }
}

/// Tallying a stream in one pass gives what tallying its two parts and
/// merging the tallies gives.
pub proof fn lemma_tally_splits(first: Seq<SimulationEntry>, second: Seq<SimulationEntry>)
    ensures
        Tally::of(first + second) == Tally::of(first).merged(Tally::of(second)),
    decreases second.len(),
{
    lemma_tally_sound(first);
    if second.len() == 0 {
        assert(first + second =~= first);
    } else {
        lemma_tally_splits(first, second.drop_last());
        assert((first + second).drop_last() =~= first + second.drop_last());
        assert((first + second).last() == second.last());
        lemma_merged_associates(
            Tally::of(first),
            Tally::of(second.drop_last()),
            Tally::single(second.last()),
        );
    }
}

/// Tallying two parts of a stream gives the same whichever part comes first.
pub proof fn lemma_tally_order_free(first: Seq<SimulationEntry>, second: Seq<SimulationEntry>)
    ensures
        Tally::of(first + second) == Tally::of(second + first),
{
    lemma_tally_splits(first, second);
    lemma_tally_splits(second, first);
    lemma_merged_commutes(Tally::of(first), Tally::of(second));
}

/// The summary cannot count another attempt.
#[derive(Clone, Copy, Debug, PartialEq, Eq, Structural)]
pub struct CounterLimit;

/// What a run has come to so far.
#[derive(Debug)]
pub struct SimulationSummary {
    /// How often each algorithm was used.
    pub algorithm_frequencies: AlgorithmFrequencies,
    /// Balance of the pool before the last attempt.
    pub current_balance: u64,
    /// Size of the pool after the last attempt.
    pub current_utxo_set_count: usize,
    /// Number of deposits; the run counts them.
    pub deposit_count: usize,
    /// Number of inputs spent.
    pub inputs_spent_count: u128,
    /// Number of withdrawals that were paid.
    pub withdraw_count: usize,
    /// Number of inputs spent that cost more to spend than they held.
    pub negative_effective_valued_inputs_count: u128,
    /// Number of change outputs made.
    pub created_change_outputs_count: usize,
    /// Number of attempts that made no change output.
    pub changeless_transaction_count: usize,
    /// Least change value; `u64::MAX` while there is none.
    pub min_change_value: u64,
    /// Greatest change value; 0 while there is none.
    pub max_change_value: u64,
    /// Sum of the change values.
    pub total_change_value: u128,
    /// Sum of the fees paid.
    pub total_fees: u128,
    /// What spending the whole pool would have cost before the last attempt,
    /// in units of 1/4000 satoshi.
    pub cost_to_empty_at_long_term_feerate: u128,
    /// Least number of inputs of a withdrawal; `usize::MAX` while there is none.
    pub min_input_set_size: usize,
    /// Greatest number of inputs of a withdrawal; 0 while there is none.
    pub max_input_set_size: usize,
    /// The change values, in the order in which they were made.
    pub change_values: Vec<u64>,
    /// The numbers of inputs of the withdrawals, in their order.
    pub input_set_sizes: Vec<usize>,
}

/// A copy of `list`.
fn copy_of_values(list: &Vec<u64>) -> (copy: Vec<u64>)
    ensures
        copy@ == list@,
{
    let mut copy: Vec<u64> = Vec::new();
    let mut i: usize = 0;
    while i < list.len()
        invariant
            i <= list.len(),
            copy@ == list@.take(i as int),
        decreases list.len() - i,
    {
        copy.push(list[i]);
        assert(list@.take(i + 1) =~= list@.take(i as int).push(list@[i as int]));
        i = i + 1;
    }
    assert(list@.take(i as int) =~= list@);
    copy
}

/// A copy of `list`.
fn copy_of_sizes(list: &Vec<usize>) -> (copy: Vec<usize>)
    ensures
        copy@ == list@,
{
    let mut copy: Vec<usize> = Vec::new();
    let mut i: usize = 0;
    while i < list.len()
        invariant
            i <= list.len(),
            copy@ == list@.take(i as int),
        decreases list.len() - i,
    {
        copy.push(list[i]);
        assert(list@.take(i + 1) =~= list@.take(i as int).push(list@[i as int]));
        i = i + 1;
    }
    assert(list@.take(i as int) =~= list@);
    copy
}

impl SimulationSummary {
    /// The counts and sums of the summary.
    pub open spec fn tally(&self) -> Tally {
        Tally {
            bnb: self.algorithm_frequencies.bnb as int,
            select_sorted: self.algorithm_frequencies.select_sorted as int,
            fifo: self.algorithm_frequencies.fifo as int,
            failed: self.algorithm_frequencies.failed as int,
            withdraws: self.withdraw_count as int,
            negative_inputs: self.negative_effective_valued_inputs_count as int,
            fees: self.total_fees as int,
            changeless: self.changeless_transaction_count as int,
            changes: self.created_change_outputs_count as int,
            change_sum: self.total_change_value as int,
            min_change: self.min_change_value as int,
            max_change: self.max_change_value as int,
            input_sets: self.input_set_sizes@.len() as int,
            inputs_spent: self.inputs_spent_count as int,
            min_input_set: self.min_input_set_size as int,
            max_input_set: self.max_input_set_size as int,
        }
    }

    /// The counts hang together, and there is one change value for each
    /// change output made.
    pub open spec fn wf(&self) -> bool {
        &&& self.tally().sound()
        &&& self.tally().attempts() <= usize::MAX
        &&& self.change_values@.len() == self.created_change_outputs_count
    }

    /// The summary as it is after `entry` was counted in `before`.
    pub open spec fn follows(&self, before: SimulationSummary, entry: SimulationEntry) -> bool {
        &&& self.tally() == before.tally().merged(Tally::single(entry))
        &&& self.current_balance == entry.balance
        &&& self.current_utxo_set_count == entry.utxo_count_after_payment
        &&& self.cost_to_empty_at_long_term_feerate == entry.cost_to_empty_at_long_term_feerate
        &&& self.deposit_count == before.deposit_count
        &&& self.change_values@ == match entry.change_amount {
            Some(change) => before.change_values@.push(change),
            None => before.change_values@,
        }
        &&& self.input_set_sizes@ == if entry.inputs.len() > 0 {
            before.input_set_sizes@.push(entry.inputs.len())
        } else {
            before.input_set_sizes@
        }
    }

    /// The summary of a run in which nothing has happened yet.
    pub fn new() -> (summary: SimulationSummary)
        ensures
            summary.wf(),
            summary.tally() == Tally::zero(),
            summary.deposit_count == 0,
            summary.current_balance == 0,
            summary.current_utxo_set_count == 0,
            summary.cost_to_empty_at_long_term_feerate == 0,
            summary.change_values@ == Seq::<u64>::empty(),
            summary.input_set_sizes@ == Seq::<usize>::empty(),
    {
        SimulationSummary {
            algorithm_frequencies: AlgorithmFrequencies { bnb: 0, select_sorted: 0, fifo: 0, failed: 0 },
            current_balance: 0,
            current_utxo_set_count: 0,
            deposit_count: 0,
            inputs_spent_count: 0,
            withdraw_count: 0,
            negative_effective_valued_inputs_count: 0,
            created_change_outputs_count: 0,
            changeless_transaction_count: 0,
            min_change_value: u64::MAX,
            max_change_value: 0,
            total_change_value: 0,
            total_fees: 0,
            cost_to_empty_at_long_term_feerate: 0,
            min_input_set_size: usize::MAX,
            max_input_set_size: 0,
            change_values: Vec::new(),
            input_set_sizes: Vec::new(),
        }
    }

    /// Counts the outcome of one attempt, unless the count of attempts is
    /// exhausted; then the summary stays as it is.
    pub fn update(&mut self, simulation_entry: &SimulationEntry) -> (done: Result<(), CounterLimit>)
        requires
            old(self).wf(),
        ensures
            final(self).wf(),
            done is Err <==> old(self).tally().attempts() == usize::MAX,
            match done {
                Ok(_) => final(self).follows(*old(self), *simulation_entry),
                Err(_) => *final(self) == *old(self),
            },
    {
        let frequencies = self.algorithm_frequencies;
        let attempts: u128 = frequencies.bnb as u128 + frequencies.select_sorted as u128
            + frequencies.fifo as u128 + frequencies.failed as u128;
        if attempts >= usize::MAX as u128 {
            return Err(CounterLimit);
        }
        proof {
            let n = attempts as int;
            assert((n + 1) * usize::MAX == n * usize::MAX + usize::MAX) by (nonlinear_arith);
            assert((n + 1) * u64::MAX == n * u64::MAX + u64::MAX) by (nonlinear_arith);
            lemma_product_bound(n, usize::MAX as int, 0xffff_ffff_ffff_ffff, 0xffff_ffff_ffff_ffff);
            lemma_product_bound(n, u64::MAX as int, 0xffff_ffff_ffff_ffff, 0xffff_ffff_ffff_ffff);
        }
        match simulation_entry.algorithm {
            Algorithm::Bnb => {
                self.algorithm_frequencies.bnb = frequencies.bnb + 1;
                self.withdraw_count = self.withdraw_count + 1;
            },
            Algorithm::SelectSorted => {
                self.algorithm_frequencies.select_sorted = frequencies.select_sorted + 1;
                self.withdraw_count = self.withdraw_count + 1;
            },
            Algorithm::Fifo => {
                self.algorithm_frequencies.fifo = frequencies.fifo + 1;
                self.withdraw_count = self.withdraw_count + 1;
            },
            Algorithm::Failed => {
                self.algorithm_frequencies.failed = frequencies.failed + 1;
            },
        }
        self.current_balance = simulation_entry.balance;
        self.current_utxo_set_count = simulation_entry.utxo_count_after_payment;
        self.cost_to_empty_at_long_term_feerate =
            simulation_entry.cost_to_empty_at_long_term_feerate;
        match simulation_entry.negative_effective_valued_inputs {
            Some(count) => {
                self.negative_effective_valued_inputs_count =
                    self.negative_effective_valued_inputs_count + count as u128;
            },
            None => {},
        }
        match simulation_entry.fee {
            Some(fee) => {
                self.total_fees = self.total_fees + fee as u128;
            },
            None => {},
        }
        match simulation_entry.change_amount {
            None => {
                self.changeless_transaction_count = self.changeless_transaction_count + 1;
            },
            Some(change) => {
                self.change_values.push(change);
                self.created_change_outputs_count = self.created_change_outputs_count + 1;
                self.total_change_value = self.total_change_value + change as u128;
                if change < self.min_change_value {
                    self.min_change_value = change;
                }
                if change > self.max_change_value {
                    self.max_change_value = change;
                }
            },
        }
        let inputs: usize = simulation_entry.inputs.len();
        self.inputs_spent_count = self.inputs_spent_count + inputs as u128;
        if inputs > 0 {
            self.input_set_sizes.push(inputs);
            if inputs < self.min_input_set_size {
                self.min_input_set_size = inputs;
            }
            if inputs > self.max_input_set_size {
                self.max_input_set_size = inputs;
            }
        }
        Ok(())
    }

    /// A snapshot of the summary; taking it changes nothing.
    pub fn summarize(&self) -> (copy: SimulationSummary)
        ensures
            copy.tally() == self.tally(),
            copy.wf() == self.wf(),
            copy.algorithm_frequencies == self.algorithm_frequencies,
            copy.current_balance == self.current_balance,
            copy.current_utxo_set_count == self.current_utxo_set_count,
            copy.deposit_count == self.deposit_count,
            copy.cost_to_empty_at_long_term_feerate == self.cost_to_empty_at_long_term_feerate,
            copy.change_values@ == self.change_values@,
            copy.input_set_sizes@ == self.input_set_sizes@,
    {
        SimulationSummary {
            algorithm_frequencies: self.algorithm_frequencies,
            current_balance: self.current_balance,
            current_utxo_set_count: self.current_utxo_set_count,
            deposit_count: self.deposit_count,
            inputs_spent_count: self.inputs_spent_count,
            withdraw_count: self.withdraw_count,
            negative_effective_valued_inputs_count: self.negative_effective_valued_inputs_count,
            created_change_outputs_count: self.created_change_outputs_count,
            changeless_transaction_count: self.changeless_transaction_count,
            min_change_value: self.min_change_value,
            max_change_value: self.max_change_value,
            total_change_value: self.total_change_value,
            total_fees: self.total_fees,
            cost_to_empty_at_long_term_feerate: self.cost_to_empty_at_long_term_feerate,
            min_input_set_size: self.min_input_set_size,
            max_input_set_size: self.max_input_set_size,
            change_values: copy_of_values(&self.change_values),
            input_set_sizes: copy_of_sizes(&self.input_set_sizes),
        }
    }

    /// The fee paid per withdrawal on average, rounded down; absent while no
    /// withdrawal was paid.
    pub fn mean_fees_per_withdraw(&self) -> (mean: Option<u128>)
        ensures
            mean is Some <==> self.withdraw_count > 0,
            mean matches Some(m) ==> m == self.total_fees as int / self.withdraw_count as int,
    {
        if self.withdraw_count == 0 {
            None
        } else {
            Some(self.total_fees / self.withdraw_count as u128)
        }
    }

    /// The change values, if they are enough for a mean: with none it is
    /// undefined.
    pub fn change_values_for_mean(&self) -> (samples: Option<&Vec<u64>>)
        ensures
            samples is Some <==> self.change_values@.len() >= 1,
            samples matches Some(list) ==> list@ == self.change_values@,
    {
        if self.change_values.len() >= 1 {
            Some(&self.change_values)
        } else {
            None
        }
    }

    /// The input set sizes, if they are enough for a mean: with none it is
    /// undefined.
    pub fn input_set_sizes_for_mean(&self) -> (samples: Option<&Vec<usize>>)
        ensures
            samples is Some <==> self.input_set_sizes@.len() >= 1,
            samples matches Some(list) ==> list@ == self.input_set_sizes@,
    {
        if self.input_set_sizes.len() >= 1 {
            Some(&self.input_set_sizes)
        } else {
            None
        }
    }

    /// The change values, if they are enough for a sample standard
    /// deviation: with fewer than two it is undefined.
    pub fn change_values_for_deviation(&self) -> (samples: Option<&Vec<u64>>)
        ensures
            samples is Some <==> self.change_values@.len() >= 2,
            samples matches Some(list) ==> list@ == self.change_values@,
    {
        if self.change_values.len() >= 2 {
            Some(&self.change_values)
        } else {
            None
        }
    }

    /// The input set sizes, if they are enough for a sample standard
    /// deviation: with fewer than two it is undefined.
    pub fn input_set_sizes_for_deviation(&self) -> (samples: Option<&Vec<usize>>)
        ensures
            samples is Some <==> self.input_set_sizes@.len() >= 2,
            samples matches Some(list) ==> list@ == self.input_set_sizes@,
    {
        if self.input_set_sizes.len() >= 2 {
            Some(&self.input_set_sizes)
        } else {
            None
        }
    }
}

impl Default for SimulationSummary {
    fn default() -> (summary: SimulationSummary)
        ensures
            summary.wf(),
            summary.tally() == Tally::zero(),
            summary.deposit_count == 0,
            summary.current_balance == 0,
            summary.current_utxo_set_count == 0,
            summary.cost_to_empty_at_long_term_feerate == 0,
            summary.change_values@ == Seq::<u64>::empty(),
            summary.input_set_sizes@ == Seq::<usize>::empty(),
    {
        SimulationSummary::new()
    }
}

} // verus!
