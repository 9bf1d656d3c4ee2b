//! The selector that searches by branch and bound, and falls back on
//! choosing the best effective value first.

use vstd::prelude::*;
use bdk_coin_select::metrics::LowestFee;
use bdk_coin_select::{ChangePolicy, CoinSelector, DrainWeights, FeeRate, TargetFee, TargetOutputs};
use crate::accounting::{
    ChangeRules, PendingPayment, Target, covers, input_weight, payments_in_range,
    lemma_product_bound,
};
use crate::models::{Algorithm, DepositError, ScenarioEntry, SimulationEntry};
use crate::pool::{
    Candidate, Pool, all_standard, in_creation_order, lemma_picked_split, lemma_totals_bounds,
    picked, total_value, total_weight, unpicked, MAX_TOTAL_VALUE, MAX_TOTAL_WEIGHT,
};
use crate::selection::{
    Selection, best_first, clear_mask, frugal, inputs_weight, is_frugal, lemma_frugal_is_minimal,
    lemma_pick_all_or_none, lemma_pick_one, mask_of, minimal, none_shorter, select_sorted,
    selection_covers, within,
};
use crate::selectors::{
    TargetSelector, all_segwit_v1, balanced, deposit_into, failed_entry, spend, spends, withdrawn,
};
use crate::weights::{fee_at, spec_fee, varint_size, WU_PER_KVB, TX_FIXED_FIELD_WEIGHT};

verus! {

/// Rounds after which the search gives up, unless the selector is told otherwise.
pub const BNB_MAX_ROUNDS: usize = 100_000;

/// `picks` lists indices below `n` in rising order.
pub open spec fn valid_picks(picks: Seq<usize>, n: int) -> bool {
    &&& forall|a: int| 0 <= a < picks.len() ==> (#[trigger] picks[a]) < n
    &&& forall|a: int, b: int| 0 <= a < b < picks.len() ==> picks[a] < picks[b]
}

/// The selection that marks the candidates listed in `picks`, if `picks`
/// lists indices of the pool in rising order.
pub fn selection_from(pool: &Vec<Candidate>, target: &Target, picks: &Vec<usize>) -> (sel: Option<
    Selection,
>)
    requires
        all_standard(pool@),
        total_value(pool@) <= MAX_TOTAL_VALUE,
        total_weight(pool@) <= MAX_TOTAL_WEIGHT,
        target.wf(),
    ensures
        sel is Some <==> valid_picks(picks@, pool@.len() as int),
        sel matches Some(s) ==> s.describes(pool@, *target) && s.order@ == picks@,
{
    let n: usize = pool.len();
    let mut mask: Vec<bool> = clear_mask(n);
    let mut order: Vec<usize> = Vec::new();
    let mut value: u64 = 0;
    let mut sum: u64 = 0;
    let mut a: usize = 0;
    proof {
        lemma_pick_all_or_none(pool@, mask@);
    }
    while a < picks.len()
        invariant
            n == pool@.len(),
            a <= picks@.len(),
            order@ == picks@.take(a as int),
            valid_picks(order@, n as int),
            mask@ == mask_of(n as int, order@),
            picked(pool@, mask@).len() == a,
            value == total_value(picked(pool@, mask@)),
            sum == total_weight(picked(pool@, mask@)),
            total_value(pool@) <= MAX_TOTAL_VALUE,
            total_weight(pool@) <= MAX_TOTAL_WEIGHT,
        decreases picks@.len() - a,
    {
        let index: usize = picks[a];
        if index >= n || (a > 0 && picks[a - 1] >= index) {
            return None;
        }
        let coin = pool[index];
        proof {
            let longer = order@.push(index);
            let marked = mask@.update(index as int, true);
            assert(longer =~= picks@.take(a + 1));
            assert(!order@.contains(index)) by {
                if order@.contains(index) {
                    let x = choose|x: int| 0 <= x < order@.len() && order@[x] == index;
                    if a > 0 && x < a - 1 {
                        assert(order@[x] < order@[a - 1]);
                    }
                }
            }
            assert(mask_of(n as int, order@)[index as int] == false);
            lemma_pick_one(pool@, mask@, index as int);
            lemma_picked_split(pool@, marked);
            lemma_totals_bounds(picked(pool@, marked));
            lemma_totals_bounds(unpicked(pool@, marked));
            assert(marked =~= mask_of(n as int, longer)) by {
                assert forall|i: int| 0 <= i < n implies #[trigger] mask_of(n as int, longer)[i]
                    == marked[i] by {
                    if i == index {
                        assert(longer[a as int] == index);
                    } else if order@.contains(i as usize) {
                        let x = choose|x: int| 0 <= x < order@.len() && order@[x] == i;
                        assert(longer[x] == i);
                    } else {
                        assert(mask_of(n as int, order@)[i] == false);
                    }
                }
            }
            assert(valid_picks(longer, n as int)) by {
                assert forall|x: int, y: int| 0 <= x < y < longer.len() implies longer[x]
                    < longer[y] by {
                    if y == a && x < a - 1 {
                        assert(order@[x] < order@[a - 1]);
                    }
                }
            }
        }
        mask.set(index, true);
        order.push(index);
        value = value + coin.value;
        sum = sum + coin.weight as u64;
        a = a + 1;
    }
    proof {
        assert(picks@.take(a as int) =~= picks@);
        lemma_picked_split(pool@, mask@);
        lemma_totals_bounds(picked(pool@, mask@));
        lemma_totals_bounds(unpicked(pool@, mask@));
    }
    let weight: u64 = inputs_weight(order.len(), sum);
    let covered: bool = covers(target, value, weight);
    Some(Selection { mask, order, value, weight, covered })
}

/// Largest fee for which the search is run.
pub const MAX_SEARCH_FEE: u128 = 0x3fff_ffff;

/// The least whole number from which on single precision skips whole numbers.
pub const SINGLE_PRECISION: u128 = 0x100_0000;

/// The search can be run on this pool and target. It works with signed
/// 64-bit values, 32-bit weights and fees in single precision, so it is run
/// only where the dust limit has no sign bit, all weights together fit in 32
/// bits, no fee comes near the largest 32-bit number, neither at the target
/// rate nor for spending the change at the long-term rate, and the smallest
/// fee is at least six times what rounding to 24 binary digits can take from
/// the target value.
pub open spec fn search_is_stable(pool: Seq<Candidate>, target: Target, rules: ChangeRules) -> bool {
    let widest = target.weight_with_change(input_weight(pool), rules.output_drain_weight as int);
    let least_fee = spec_fee(target.weight_without_change(4), target.fee_rate as int);
    let most_fee = spec_fee(widest, target.fee_rate as int);
    &&& rules.dust_limit <= i64::MAX
    &&& spec_fee(rules.input_drain_weight as int, rules.long_term_feerate as int)
        <= MAX_SEARCH_FEE
    &&& widest <= u32::MAX
    &&& least_fee >= 2
    &&& most_fee <= MAX_SEARCH_FEE
    &&& 6 * target.value <= SINGLE_PRECISION * (least_fee - 1)
}

/// Whether the search can be run on this pool and target.
pub fn search_allowed(pool: &Pool, target: &Target, rules: &ChangeRules) -> (yes: bool)
    requires
        pool.wf(),
        target.wf(),
    ensures
        yes == search_is_stable(pool@, *target, *rules),
{
    proof {
        lemma_totals_bounds(pool@);
    }
    let count: usize = pool.len();
    let inputs: u64 = inputs_weight(count, pool.weight());
    let widest: u64 = TX_FIXED_FIELD_WEIGHT + inputs + varint_size(target.output_count + 1) as u64 * 4
        + target.output_weight as u64 + rules.output_drain_weight as u64;
    let narrowest: u64 = TX_FIXED_FIELD_WEIGHT + 4 + varint_size(target.output_count) as u64 * 4
        + target.output_weight as u64;
    if rules.dust_limit > i64::MAX as u64 || widest > u32::MAX as u64 {
        return false;
    }
    if fee_at(rules.input_drain_weight as u64, rules.long_term_feerate) > MAX_SEARCH_FEE {
        return false;
    }
    let least_fee: u128 = fee_at(narrowest, target.fee_rate);
    let most_fee: u128 = fee_at(widest, target.fee_rate);
    if least_fee < 2 || most_fee > MAX_SEARCH_FEE {
        return false;
    }
    proof {
        lemma_product_bound(
            narrowest as int,
            target.fee_rate as int,
            0xff_ffff_ffff,
            0xffff_ffff_ffff_ffff,
        );
        lemma_product_bound(
            (least_fee - 1) as int,
            0x100_0000,
            0xffff_ffff_ffff_ffff_ffff_ffff,
            0x100_0000,
        );
    }
    6 * (target.value as u128) <= SINGLE_PRECISION * (least_fee - 1)
}

/// What the branch and bound search of `bdk_coin_select` selects among the
/// candidates `pool`, for outputs of `value_sum` satoshi and `weight_sum`
/// weight units in `n_outputs` outputs, at `fee_rate` and `long_term`
/// satoshi per `unit` weight units, with a change output that weighs
/// `output_weight`, costs `spend_weight` to spend and holds more than
/// `dust_limit`: the indices of the candidates, in rising order, or nothing
/// where the search finds no solution within `max_rounds`.
pub uninterp spec fn bnb_choice(
    pool: Seq<Candidate>,
    value_sum: u64,
    weight_sum: u32,
    n_outputs: usize,
    fee_rate: u64,
    long_term: u64,
    dust_limit: u64,
    output_weight: u32,
    spend_weight: u32,
    drain_outputs: usize,
    unit: usize,
    max_rounds: usize,
) -> Option<Seq<usize>>;

/// The indices that a search result lists.
pub open spec fn picks_of(found: Option<Vec<usize>>) -> Option<Seq<usize>> {
    match found {
        Some(picks) => Some(picks@),
        None => None,
    }
}

/// The target that the search is given.
pub open spec fn search_target(
    value_sum: u64,
    weight_sum: u32,
    n_outputs: usize,
    fee_rate: u64,
) -> Target {
    Target { value: value_sum, fee_rate, output_count: n_outputs, output_weight: weight_sum }
}

/// The rules that the search is given.
pub open spec fn search_rules(
    long_term: u64,
    dust_limit: u64,
    output_weight: u32,
    spend_weight: u32,
) -> ChangeRules {
    ChangeRules {
        long_term_feerate: long_term,
        dust_limit,
        input_drain_weight: spend_weight,
        output_drain_weight: output_weight,
    }
}

/// Runs `CoinSelector::run_bnb` of `bdk_coin_select` with its `LowestFee`
/// metric and the change policy `ChangePolicy::min_value_and_waste`, and
/// returns the indices that it selected. Its result is taken on trust as a
/// function of the arguments; nothing else is claimed of it. The conditions
/// keep the arguments where the crate neither overflows its 32-bit weights
/// and 64-bit values and fees, at the target rate or for spending the change
/// at the long-term rate, nor fails an assertion on its single-precision
/// arithmetic: it asserts that every fee is above zero, and that a fee worked
/// out from rounded values is not below zero.
#[verifier::external_body]
fn bnb_search(
    pool: &Vec<Candidate>,
    value_sum: u64,
    weight_sum: u32,
    n_outputs: usize,
    fee_rate: u64,
    long_term: u64,
    dust_limit: u64,
    output_weight: u32,
    spend_weight: u32,
    drain_outputs: usize,
    unit: usize,
    max_rounds: usize,
) -> (found: Option<Vec<usize>>)
    requires
        all_standard(pool@),
        total_value(pool@) <= MAX_TOTAL_VALUE,
        search_target(value_sum, weight_sum, n_outputs, fee_rate).wf(),
        drain_outputs == 1,
        unit == WU_PER_KVB,
        search_is_stable(
            pool@,
            search_target(value_sum, weight_sum, n_outputs, fee_rate),
            search_rules(long_term, dust_limit, output_weight, spend_weight),
        ),
    ensures
        picks_of(found) == bnb_choice(
            pool@,
            value_sum,
            weight_sum,
            n_outputs,
            fee_rate,
            long_term,
            dust_limit,
            output_weight,
            spend_weight,
            drain_outputs,
            unit,
            max_rounds,
        ),
{
    let coins: Vec<_> = pool.iter().map(|c| bdk_coin_select::Candidate { value: c.value, weight: c.weight, input_count: c.input_count, is_segwit: c.is_segwit }).collect();
    let rate = FeeRate::from_wu(fee_rate, unit);
    let long_term_feerate = FeeRate::from_wu(long_term, unit);
    let outputs = TargetOutputs { value_sum, weight_sum, n_outputs };
    let target = bdk_coin_select::Target { fee: TargetFee::from_feerate(rate), outputs };
    let drain = DrainWeights { output_weight, spend_weight, n_outputs: drain_outputs };
    let change_policy = ChangePolicy::min_value_and_waste(drain, dust_limit, rate, long_term_feerate);
    let mut selector = CoinSelector::new(&coins);
    let metric = LowestFee { target, long_term_feerate, change_policy };
    selector.run_bnb(metric, max_rounds).ok().map(|_| selector.selected_indices().iter().copied().collect())
}

/// The search result is taken: it lists candidates of the pool in rising
/// order, they pay for the target and its fee, and every one of them is
/// needed for that.
pub open spec fn accepted(before: Seq<Candidate>, target: Target, choice: Option<Seq<usize>>) -> bool {
    choice matches Some(picks) && {
        &&& valid_picks(picks, before.len() as int)
        &&& selection_covers(before, mask_of(before.len() as int, picks), target)
        &&& frugal(before, mask_of(before.len() as int, picks), target)
    }
}

/// `order` is what choosing best effective value first arrives at: the
/// shortest such list that pays for the target, or the whole pool where none does.
pub open spec fn fallback_order(before: Seq<Candidate>, target: Target, order: Seq<usize>) -> bool {
    &&& best_first(before, target.fee_rate, order)
    &&& none_shorter(before, target, order)
    &&& selection_covers(before, mask_of(before.len() as int, order), target) || order.len()
        == before.len()
}

/// What a withdrawal leaves, given what the search returned: where the
/// search result is taken, it is spent, and no part of it would have paid;
/// else the best effective values are
/// spent, as far as needed; and where even the whole pool does not pay for the
/// target, the withdrawal fails.
pub open spec fn bdk_outcome(
    before: Seq<Candidate>,
    next_id: int,
    after: Seq<Candidate>,
    entry: SimulationEntry,
    target: Target,
    rules: ChangeRules,
    choice: Option<Seq<usize>>,
) -> bool {
    if accepted(before, target, choice) {
        &&& entry.algorithm == Algorithm::Bnb
        &&& spends(
            before,
            next_id,
            after,
            entry,
            mask_of(before.len() as int, choice->Some_0),
            target,
            rules,
        )
        &&& minimal(before, mask_of(before.len() as int, choice->Some_0), target)
    } else {
        exists|order: Seq<usize>| #[trigger]
            fallback_order(before, target, order) && if selection_covers(
                before,
                mask_of(before.len() as int, order),
                target,
            ) {
                entry.algorithm == Algorithm::SelectSorted && spends(
                    before,
                    next_id,
                    after,
                    entry,
                    mask_of(before.len() as int, order),
                    target,
                    rules,
                )
            } else {
                entry.algorithm == Algorithm::Failed
            }
    }
}

/// The withdrawal spent a selection of which no part would have paid for the
/// target and its fee.
pub open spec fn spent_minimal(
    before: Seq<Candidate>,
    next_id: int,
    after: Seq<Candidate>,
    entry: SimulationEntry,
    target: Target,
    rules: ChangeRules,
) -> bool {
    exists|mask: Seq<bool>| #[trigger]
        spends(before, next_id, after, entry, mask, target, rules) && minimal(
            before,
            mask,
            target,
        )
}

/// What the search is taken to return on this pool within `max_rounds`
/// rounds: its choice where it can be run, nothing where it cannot.
pub open spec fn searched(
    before: Seq<Candidate>,
    target: Target,
    rules: ChangeRules,
    max_rounds: usize,
) -> Option<Seq<usize>> {
    if search_is_stable(before, target, rules) {
        bnb_choice(
            before,
            target.value,
            target.output_weight,
            target.output_count,
            target.fee_rate,
            rules.long_term_feerate,
            rules.dust_limit,
            rules.output_drain_weight,
            rules.input_drain_weight,
            1,
            WU_PER_KVB as usize,
            max_rounds,
        )
    } else {
        None
    }
}

/// A pool from which withdrawals spend what a branch and bound search selects.
pub struct BdkCoinSelect {
    pool: Pool,
    /// Fee rate expected in the long run, in satoshi per 1000 virtual bytes.
    pub long_term_feerate: u64,
    /// Least value that a change output may have.
    pub dust_limit: u64,
    /// Weight of spending a change output later.
    pub input_drain_weight: u32,
    /// Weight of a change output.
    pub output_drain_weight: u32,
    /// Rounds after which the search gives up.
    pub max_rounds: usize,
}

impl BdkCoinSelect {
    /// The candidates of the pool, oldest first.
    pub closed spec fn view(&self) -> Seq<Candidate> {
        self.pool@
    }

    /// The pool is in order and holds segwit v1 candidates only.
    pub closed spec fn inv(&self) -> bool {
        self.pool.wf() && all_segwit_v1(self.pool@)
    }

    /// The creation sequence number that the next candidate gets.
    pub closed spec fn sequence(&self) -> int {
        self.pool.next_id()
    }

    /// The rules that the public fields make up.
    pub closed spec fn change_rules(&self) -> ChangeRules {
        ChangeRules {
            long_term_feerate: self.long_term_feerate,
            dust_limit: self.dust_limit,
            input_drain_weight: self.input_drain_weight,
            output_drain_weight: self.output_drain_weight,
        }
    }

    /// Rounds after which the search gives up.
    pub closed spec fn rounds(&self) -> usize {
        self.max_rounds
    }

    /// A selector with an empty pool, whose search gives up after
    /// `BNB_MAX_ROUNDS` rounds.
    pub fn new(
        long_term_feerate: u64,
        dust_limit: u64,
        input_drain_weight: u32,
        output_drain_weight: u32,
    ) -> (selector: Self)
        ensures
            selector.wf(),
            selector.coins() == Seq::<Candidate>::empty(),
            selector.next_id() == 0,
            selector.rounds() == BNB_MAX_ROUNDS,
            selector.rules() == (ChangeRules {
                long_term_feerate,
                dust_limit,
                input_drain_weight,
                output_drain_weight,
            }),
    {
        BdkCoinSelect {
            pool: Pool::new(),
            long_term_feerate,
            dust_limit,
            input_drain_weight,
            output_drain_weight,
            max_rounds: BNB_MAX_ROUNDS,
        }
    }

    /// Sum of the values in the pool.
    pub fn balance(&self) -> (sum: u64)
        requires
            self.wf(),
        ensures
            sum == total_value(self.coins()),
    {
        self.pool.balance()
    }

    /// The rules by which withdrawals are settled.
    pub fn current_rules(&self) -> (rules: ChangeRules)
        ensures
            rules == self.change_rules(),
    {
        ChangeRules {
            long_term_feerate: self.long_term_feerate,
            dust_limit: self.dust_limit,
            input_drain_weight: self.input_drain_weight,
            output_drain_weight: self.output_drain_weight,
        }
    }

    /// Tries to pay `payments` from the pool, given what the search returned
    /// for them: spends the search result where it pays and none of it is
    /// superfluous, and else the best effective values, as far as needed.
    pub fn withdraw_with(
        &mut self,
        payments: &Vec<PendingPayment>,
        fee_rate_per_kvb: u64,
        found: Option<Vec<usize>>,
    ) -> (entry: SimulationEntry)
        requires
            old(self).wf(),
            payments_in_range(payments@),
            old(self).next_id() < u64::MAX,
        ensures
            final(self).wf(),
            final(self).rules() == old(self).rules(),
            final(self).rounds() == old(self).rounds(),
            final(self).next_id() == old(self).next_id() + if entry.change_amount is Some {
                1int
            } else {
                0int
            },
            entry.id == 0,
            balanced(entry),
            entry.change_amount matches Some(change) ==> change >= old(self).rules().dust_limit
                && change >= 1,
            withdrawn(
                old(self).coins(),
                old(self).next_id(),
                final(self).coins(),
                entry,
                Target::of(payments@, fee_rate_per_kvb),
                old(self).rules(),
            ),
            bdk_outcome(
                old(self).coins(),
                old(self).next_id(),
                final(self).coins(),
                entry,
                Target::of(payments@, fee_rate_per_kvb),
                old(self).rules(),
                picks_of(found),
            ),
            entry.algorithm == Algorithm::Bnb ==> spent_minimal(
                old(self).coins(),
                old(self).next_id(),
                final(self).coins(),
                entry,
                Target::of(payments@, fee_rate_per_kvb),
                old(self).rules(),
            ),
    {
        let rules = self.current_rules();
        let target = Target::from_payments(payments, fee_rate_per_kvb).unwrap();
        let ghost before = self.pool@;
        proof {
            lemma_totals_bounds(before);
        }
        let mut chosen: Option<Selection> = None;
        match &found {
            Some(picks) => {
                chosen = selection_from(self.pool.candidates(), &target, picks);
            },
            None => {},
        }
        match chosen {
            Some(sel) => {
                if sel.covered && is_frugal(self.pool.candidates(), &sel, &target) {
                    proof {
                        assert forall|sub: Seq<bool>|
                            within(sub, sel.mask@) && sub != sel.mask@ implies !#[trigger] selection_covers(
                            before,
                            sub,
                            target,
                        ) by {
                            lemma_frugal_is_minimal(before, sel.mask@, sub, target);
                        }
                    }
                    let entry = spend(&mut self.pool, &sel, &target, &rules, Algorithm::Bnb);
                    return entry;
                }
            },
            None => {},
        }
        assert(!accepted(before, target, picks_of(found)));
        let sel = select_sorted(self.pool.candidates(), &target);
        assert(fallback_order(before, target, sel.order@));
        if sel.covered {
            spend(&mut self.pool, &sel, &target, &rules, Algorithm::SelectSorted)
        } else {
            failed_entry(&self.pool, &target, &rules)
        }
    }
}

impl TargetSelector for BdkCoinSelect {
    open spec fn wf(&self) -> bool {
        &&& self.inv()
        &&& all_standard(self@)
        &&& all_segwit_v1(self@)
        &&& in_creation_order(self@, self.sequence())
        &&& 0 <= self.sequence() <= u64::MAX
        &&& total_value(self@) <= MAX_TOTAL_VALUE
    }

    open spec fn coins(&self) -> Seq<Candidate> {
        self@
    }

    open spec fn next_id(&self) -> int {
        self.sequence()
    }

    open spec fn rules(&self) -> ChangeRules {
        self.change_rules()
    }

    fn deposit(&mut self, deposit: ScenarioEntry) -> (done: Result<(), DepositError>)
        ensures
            final(self).rounds() == old(self).rounds(),
    {
        deposit_into(&mut self.pool, deposit)
    }

    fn withdraw(&mut self, payments: &Vec<PendingPayment>, fee_rate_per_kvb: u64) -> (entry:
        SimulationEntry)
        ensures
            final(self).rounds() == old(self).rounds(),
            bdk_outcome(
                old(self).coins(),
                old(self).next_id(),
                final(self).coins(),
                entry,
                Target::of(payments@, fee_rate_per_kvb),
                old(self).rules(),
                searched(
                    old(self).coins(),
                    Target::of(payments@, fee_rate_per_kvb),
                    old(self).rules(),
                    old(self).rounds(),
                ),
            ),
            entry.algorithm == Algorithm::Bnb ==> spent_minimal(
                old(self).coins(),
                old(self).next_id(),
                final(self).coins(),
                entry,
                Target::of(payments@, fee_rate_per_kvb),
                old(self).rules(),
            ),
    {
        let rules = self.current_rules();
        let target = Target::from_payments(payments, fee_rate_per_kvb).unwrap();
        proof {
            lemma_totals_bounds(self.pool@);
        }
        let found: Option<Vec<usize>> = if search_allowed(&self.pool, &target, &rules) {
            bnb_search(
                self.pool.candidates(),
                target.value,
                target.output_weight,
                target.output_count,
                target.fee_rate,
                rules.long_term_feerate,
                rules.dust_limit,
                rules.output_drain_weight,
                rules.input_drain_weight,
                1,
                WU_PER_KVB as usize,
                self.max_rounds,
            )
        } else {
            None
        };
        self.withdraw_with(payments, fee_rate_per_kvb, found)
    }

    fn values(&self) -> (list: Vec<u64>) {
        self.pool.values()
    }

    fn has_sequence_left(&self) -> (yes: bool) {
        self.pool.has_sequence_left()
    }
}

} // verus!
