//! The records that go into a simulation and come out of it.

use vstd::prelude::*;
use crate::pool::PoolLimit;

verus! {

pub use crate::accounting::PendingPayment;

/// One line of a scenario: a deposit or a withdrawal.
#[derive(Clone, Copy, Debug)]
pub struct ScenarioEntry {
    /// Amount in satoshi. A run deposits an amount above zero and withdraws
    /// the magnitude of any other.
    pub amount: i64,
    /// Fee rate asked for, in satoshi per 1000 virtual bytes.
    pub fee_rate_per_kvb: u64,
}

/// How the inputs of a withdrawal were found.
#[derive(Clone, Copy, Debug, PartialEq, Eq, Structural)]
pub enum Algorithm {
    /// By the branch and bound search.
    Bnb,
    /// Best effective value first, after the search gave nothing that was
    /// taken; results list it as `sorted-fallback`.
    SelectSorted,
    /// Oldest first.
    Fifo,
    /// Not at all: the pool cannot pay for the target.
    Failed,
}

impl Algorithm {
    /// The name under which results list the algorithm.
    pub open spec fn spec_name(self) -> Seq<char> {
        match self {
            Algorithm::Bnb => "bnb"@,
            Algorithm::SelectSorted => "sorted-fallback"@,
            Algorithm::Fifo => "fifo"@,
            Algorithm::Failed => "failed"@,
        }
    }

    /// The name under which results list the algorithm.
    pub fn name(&self) -> (name: &'static str)
        ensures
            name@ == self.spec_name(),
    {
        match self {
            Algorithm::Bnb => "bnb",
            Algorithm::SelectSorted => "sorted-fallback",
            Algorithm::Fifo => "fifo",
            Algorithm::Failed => "failed",
        }
    }
}

/// Why a deposit was not taken.
#[derive(Clone, Copy, Debug, PartialEq, Eq, Structural)]
pub enum DepositError {
    /// The amount is below zero.
    Negative,
    /// The pool cannot hold the new candidate.
    Limit(PoolLimit),
}

/// The outcome of one withdrawal attempt.
#[derive(Debug)]
pub struct SimulationEntry {
    /// Number of the attempt within its run, from 1; 0 until the run sets it.
    pub id: usize,
    /// Values of the inputs chosen, oldest first.
    pub inputs: Vec<u64>,
    /// Amount that was to be paid.
    pub amount: u64,
    /// Fee paid; absent where the attempt failed.
    pub fee: Option<u64>,
    /// Fee rate asked for, in satoshi per 1000 virtual bytes.
    pub target_feerate: u64,
    /// Fee rate paid, in satoshi per 1000 virtual bytes, rounded down.
    pub real_feerate: Option<u128>,
    /// How the inputs were found.
    pub algorithm: Algorithm,
    /// Number of inputs that cost more to spend than they hold.
    pub negative_effective_valued_inputs: Option<usize>,
    /// Number of outputs, the change output counted.
    pub output_count: Option<usize>,
    /// Value of the change output; absent where none was made.
    pub change_amount: Option<u64>,
    /// Size of the pool before the attempt.
    pub utxo_count_before_payment: usize,
    /// Size of the pool after the attempt.
    pub utxo_count_after_payment: usize,
    /// What spending the whole pool, as it was before the attempt, would cost
    /// at the long-term fee rate, in units of 1/4000 satoshi.
    pub cost_to_empty_at_long_term_feerate: u128,
    /// Balance of the pool before the attempt.
    pub balance: u64,
    /// Waste of the selection, in units of 1/4000 satoshi.
    pub waste_score: Option<i128>,
}

} // verus!
