//! The selector that spends the oldest candidates first.

use vstd::prelude::*;
use crate::accounting::{ChangeRules, PendingPayment, Target};
use crate::models::{Algorithm, DepositError, ScenarioEntry, SimulationEntry};
use crate::pool::{
    Candidate, Pool, all_standard, in_creation_order, lemma_totals_bounds, total_value, values_of,
    MAX_TOTAL_VALUE,
};
use crate::selection::{prefix_covers, prefix_mask, select_fifo};
use crate::selectors::{TargetSelector, all_segwit_v1, deposit_into, failed_entry, spend, spends};

verus! {

/// A pool from which withdrawals spend the oldest candidates first.
pub struct RustCoinSelect {
    pool: Pool,
    /// Fee rate expected in the long run, in satoshi per 1000 virtual bytes.
    pub long_term_feerate: u64,
    /// Least value that a change output may have.
    pub dust_limit: u64,
    /// Weight of spending a change output later.
    pub input_drain_weight: u32,
    /// Weight of a change output.
    pub output_drain_weight: u32,
}

/// What a withdrawal that spends oldest first leaves: it fails where no start
/// of the pool pays for the target, and else spends the shortest start that does.
pub open spec fn fifo_outcome(
    before: Seq<Candidate>,
    next_id: int,
    after: Seq<Candidate>,
    entry: SimulationEntry,
    target: Target,
    rules: ChangeRules,
) -> bool {
    &&& entry.algorithm == Algorithm::Failed <==> forall|k: int|
        0 <= k <= before.len() ==> !prefix_covers(before, target, k)
    &&& entry.algorithm != Algorithm::Failed ==> entry.algorithm == Algorithm::Fifo && exists|
        k: int,
    |
        {
            &&& 0 <= k <= before.len()
            &&& prefix_covers(before, target, k)
            &&& forall|j: int| 0 <= j < k ==> !prefix_covers(before, target, j)
            &&& entry.inputs@ == values_of(before.take(k))
            &&& #[trigger] spends(
                before,
                next_id,
                after,
                entry,
                prefix_mask(before.len() as int, k),
                target,
                rules,
            )
        }
}

impl RustCoinSelect {
    /// The candidates of the pool, oldest first.
    pub closed spec fn view(&self) -> Seq<Candidate> {
        self.pool@
    }

    /// The pool is in order and holds segwit v1 candidates only.
    pub closed spec fn inv(&self) -> bool {
        self.pool.wf() && all_segwit_v1(self.pool@)
    }

    /// The creation sequence number that the next candidate gets.
    pub closed spec fn sequence(&self) -> int {
        self.pool.next_id()
    }

    /// The rules that the public fields make up.
    pub closed spec fn change_rules(&self) -> ChangeRules {
        ChangeRules {
            long_term_feerate: self.long_term_feerate,
            dust_limit: self.dust_limit,
            input_drain_weight: self.input_drain_weight,
            output_drain_weight: self.output_drain_weight,
        }
    }

    /// A selector with an empty pool.
    pub fn new(
        long_term_feerate: u64,
        dust_limit: u64,
        input_drain_weight: u32,
        output_drain_weight: u32,
    ) -> (selector: Self)
        ensures
            selector.wf(),
            selector.coins() == Seq::<Candidate>::empty(),
            selector.next_id() == 0,
            selector.rules() == (ChangeRules {
                long_term_feerate,
                dust_limit,
                input_drain_weight,
                output_drain_weight,
            }),
    {
        RustCoinSelect {
            pool: Pool::new(),
            long_term_feerate,
            dust_limit,
            input_drain_weight,
            output_drain_weight,
        }
    }

    /// Sum of the values in the pool.
    pub fn balance(&self) -> (sum: u64)
        requires
            self.wf(),
        ensures
            sum == total_value(self.coins()),
    {
        self.pool.balance()
    }

    /// The rules by which withdrawals are settled.
    pub fn current_rules(&self) -> (rules: ChangeRules)
        ensures
            rules == self.change_rules(),
    {
        ChangeRules {
            long_term_feerate: self.long_term_feerate,
            dust_limit: self.dust_limit,
            input_drain_weight: self.input_drain_weight,
            output_drain_weight: self.output_drain_weight,
        }
    }
}

impl TargetSelector for RustCoinSelect {
    open spec fn wf(&self) -> bool {
        &&& self.inv()
        &&& all_standard(self@)
        &&& all_segwit_v1(self@)
        &&& in_creation_order(self@, self.sequence())
        &&& 0 <= self.sequence() <= u64::MAX
        &&& total_value(self@) <= MAX_TOTAL_VALUE
    }

    open spec fn coins(&self) -> Seq<Candidate> {
        self@
    }

    open spec fn next_id(&self) -> int {
        self.sequence()
    }

    open spec fn rules(&self) -> ChangeRules {
        self.change_rules()
    }

    fn deposit(&mut self, deposit: ScenarioEntry) -> (done: Result<(), DepositError>) {
        deposit_into(&mut self.pool, deposit)
    }

    fn withdraw(&mut self, payments: &Vec<PendingPayment>, fee_rate_per_kvb: u64) -> (entry:
        SimulationEntry)
        ensures
            fifo_outcome(
                old(self).coins(),
                old(self).next_id(),
                final(self).coins(),
                entry,
                Target::of(payments@, fee_rate_per_kvb),
                old(self).rules(),
            ),
    {
        let rules = self.current_rules();
        let target = Target::from_payments(payments, fee_rate_per_kvb).unwrap();
        proof {
            lemma_totals_bounds(self.pool@);
        }
        let sel = select_fifo(self.pool.candidates(), &target);
        if !sel.covered {
            return failed_entry(&self.pool, &target, &rules);
        }
        let ghost k = sel.order@.len() as int;
        let entry = spend(&mut self.pool, &sel, &target, &rules, Algorithm::Fifo);
        proof {
            assert(spends(
                old(self).coins(),
                old(self).next_id(),
                self.coins(),
                entry,
                prefix_mask(old(self).coins().len() as int, k),
                target,
                rules,
            ));
        }
        entry
    }

    fn values(&self) -> (list: Vec<u64>) {
        self.pool.values()
    }

    fn has_sequence_left(&self) -> (yes: bool) {
        self.pool.has_sequence_left()
    }
}

} // verus!
