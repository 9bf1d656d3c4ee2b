use coin_select_sim::accounting::PendingPayment;
use coin_select_sim::models::{Algorithm, DepositError, ScenarioEntry};
use coin_select_sim::pool::PoolLimit;
use coin_select_sim::selectors::bdk::BdkCoinSelect;
use coin_select_sim::selectors::rust_coinselect::RustCoinSelect;
use coin_select_sim::selectors::TargetSelector;

fn deposit(amount: i64) -> ScenarioEntry {
    ScenarioEntry { amount, fee_rate_per_kvb: 0 }
}

fn pay(amount: u64) -> Vec<PendingPayment> {
    vec![PendingPayment { amount, weight: 31 }]
}

#[test]
fn single_deposit_is_found_by_search() {
    let mut selector = BdkCoinSelect::new(10_000, 526, 68, 31);
    selector.deposit(deposit(100_000_000)).unwrap();
    let entry = selector.withdraw(&pay(50_000_000), 10_000);
    assert_eq!(entry.algorithm, Algorithm::Bnb);
    assert_eq!(entry.id, 0);
    assert_eq!(entry.inputs, vec![100_000_000]);
    assert_eq!(entry.amount, 50_000_000);
    // 32 fixed + (4 + 68 + 2) inputs + (4 + 31 + 31) outputs = 172 weight units,
    // at 2.5 satoshi each
    assert_eq!(entry.fee, Some(430));
    assert_eq!(entry.change_amount, Some(49_999_570));
    assert_eq!(entry.output_count, Some(2));
    assert_eq!(entry.target_feerate, 10_000);
    assert_eq!(entry.real_feerate, Some(10_000));
    assert_eq!(entry.negative_effective_valued_inputs, Some(0));
    assert_eq!(entry.utxo_count_before_payment, 1);
    assert_eq!(entry.utxo_count_after_payment, 1);
    assert_eq!(entry.balance, 100_000_000);
    assert_eq!(entry.cost_to_empty_at_long_term_feerate, 680_000);
    // the inputs cost now what they cost in the long run; the change costs 68
    // weight units to spend later
    assert_eq!(entry.waste_score, Some(680_000));
    assert_eq!(selector.values(), vec![49_999_570]);
    assert_eq!(selector.balance(), 49_999_570);
}

#[test]
fn empty_pool_fails() {
    let mut selector = BdkCoinSelect::new(10_000, 526, 68, 31);
    let entry = selector.withdraw(&pay(10_000_000), 10_000);
    assert_eq!(entry.algorithm, Algorithm::Failed);
    assert_eq!(entry.amount, 10_000_000);
    assert_eq!(entry.fee, None);
    assert_eq!(entry.real_feerate, None);
    assert_eq!(entry.change_amount, None);
    assert_eq!(entry.output_count, None);
    assert_eq!(entry.waste_score, None);
    assert_eq!(entry.negative_effective_valued_inputs, None);
    assert!(entry.inputs.is_empty());
    assert_eq!(entry.utxo_count_before_payment, 0);
    assert_eq!(entry.utxo_count_after_payment, 0);
    assert!(selector.values().is_empty());
}

#[test]
fn search_result_is_spent_as_given() {
    let mut selector = BdkCoinSelect::new(10_000, 526, 68, 31);
    for amount in [10_000, 50_000, 20_000] {
        selector.deposit(deposit(amount)).unwrap();
    }
    let entry = selector.withdraw_with(&pay(25_000), 4_000, Some(vec![0, 2]));
    assert_eq!(entry.algorithm, Algorithm::Bnb);
    assert_eq!(entry.inputs, vec![10_000, 20_000]);
    // 32 + (4 + 136 + 2) + (4 + 31 + 31) = 240 weight units at 1 satoshi each
    assert_eq!(entry.fee, Some(240));
    assert_eq!(entry.change_amount, Some(4_760));
    assert_eq!(selector.values(), vec![50_000, 4_760]);
}

#[test]
fn search_result_that_does_not_pay_is_left_aside() {
    let mut selector = BdkCoinSelect::new(10_000, 526, 68, 31);
    for amount in [10_000, 50_000, 20_000] {
        selector.deposit(deposit(amount)).unwrap();
    }
    // the first candidate alone does not pay 25 000: best effective value first
    let entry = selector.withdraw_with(&pay(25_000), 4_000, Some(vec![0]));
    assert_eq!(entry.algorithm, Algorithm::SelectSorted);
    assert_eq!(entry.inputs, vec![50_000]);
    assert_eq!(selector.values()[..2], [10_000, 20_000]);
}

#[test]
fn search_result_out_of_order_is_left_aside() {
    let mut selector = BdkCoinSelect::new(10_000, 526, 68, 31);
    for amount in [10_000, 50_000, 20_000] {
        selector.deposit(deposit(amount)).unwrap();
    }
    let entry = selector.withdraw_with(&pay(25_000), 4_000, Some(vec![2, 0]));
    assert_eq!(entry.algorithm, Algorithm::SelectSorted);
    let mut other = BdkCoinSelect::new(10_000, 526, 68, 31);
    other.deposit(deposit(10_000)).unwrap();
    let entry = other.withdraw_with(&pay(5_000), 4_000, Some(vec![1]));
    assert_eq!(entry.algorithm, Algorithm::SelectSorted);
    assert_eq!(entry.inputs, vec![10_000]);
}

#[test]
fn fallback_takes_best_effective_value_first() {
    let mut selector = BdkCoinSelect::new(10_000, 526, 68, 31);
    for amount in [1_000, 30_000, 2_000, 30_000, 40_000] {
        selector.deposit(deposit(amount)).unwrap();
    }
    let entry = selector.withdraw_with(&pay(65_000), 4_000, None);
    assert_eq!(entry.algorithm, Algorithm::SelectSorted);
    // 40 000 first, then the older of the two 30 000
    assert_eq!(entry.inputs, vec![30_000, 40_000]);
    assert_eq!(selector.values()[..3], [1_000, 2_000, 30_000]);
}

#[test]
fn fallback_fails_where_the_pool_is_too_small() {
    let mut selector = BdkCoinSelect::new(10_000, 526, 68, 31);
    for amount in [1_000, 2_000] {
        selector.deposit(deposit(amount)).unwrap();
    }
    let entry = selector.withdraw_with(&pay(3_000), 4_000, None);
    assert_eq!(entry.algorithm, Algorithm::Failed);
    assert_eq!(entry.balance, 3_000);
    assert_eq!(entry.utxo_count_after_payment, 2);
    assert_eq!(selector.values(), vec![1_000, 2_000]);
}

#[test]
fn search_is_not_run_at_fee_rate_zero() {
    let mut selector = BdkCoinSelect::new(10_000, 526, 68, 31);
    selector.deposit(deposit(100_000)).unwrap();
    let entry = selector.withdraw(&pay(50_000), 0);
    assert_eq!(entry.algorithm, Algorithm::SelectSorted);
    assert_eq!(entry.fee, Some(0));
    assert_eq!(entry.change_amount, Some(50_000));
}

#[test]
fn search_finds_the_exact_match() {
    let mut selector = BdkCoinSelect::new(10_000, 526, 68, 31);
    for amount in [70_000, 50_353, 90_000] {
        selector.deposit(deposit(amount)).unwrap();
    }
    // 32 + (4 + 68 + 2) + (4 + 31) = 141 weight units cost 353 satoshi
    let entry = selector.withdraw(&pay(50_000), 10_000);
    assert_eq!(entry.algorithm, Algorithm::Bnb);
    assert_eq!(entry.inputs, vec![50_353]);
    assert_eq!(entry.fee, Some(353));
    assert_eq!(entry.change_amount, None);
    assert_eq!(entry.output_count, Some(1));
    assert_eq!(entry.waste_score, Some(0));
    assert_eq!(selector.values(), vec![70_000, 90_000]);
}

#[test]
fn fifo_spends_oldest_first() {
    let mut selector = RustCoinSelect::new(10_000, 526, 68, 31);
    for amount in [30_000, 20_000, 10_000] {
        selector.deposit(deposit(amount)).unwrap();
    }
    let entry = selector.withdraw(&pay(40_000), 4_000);
    assert_eq!(entry.algorithm, Algorithm::Fifo);
    assert_eq!(entry.inputs, vec![30_000, 20_000]);
    assert_eq!(entry.fee, Some(240));
    assert_eq!(entry.change_amount, Some(9_760));
    assert_eq!(entry.utxo_count_before_payment, 3);
    assert_eq!(entry.utxo_count_after_payment, 2);
    assert_eq!(selector.values(), vec![10_000, 9_760]);
    assert_eq!(selector.balance(), 19_760);
}

#[test]
fn fifo_fails_where_the_pool_is_too_small() {
    let mut selector = RustCoinSelect::new(10_000, 526, 68, 31);
    selector.deposit(deposit(30_000)).unwrap();
    let entry = selector.withdraw(&pay(30_000), 4_000);
    assert_eq!(entry.algorithm, Algorithm::Failed);
    assert_eq!(selector.values(), vec![30_000]);
}

#[test]
fn change_below_the_dust_limit_goes_to_the_fee() {
    let mut selector = RustCoinSelect::new(10_000, 526, 68, 31);
    selector.deposit(deposit(50_700)).unwrap();
    // without change the fee is 141, with change 172: 528 would be left
    let entry = selector.withdraw(&pay(50_000), 4_000);
    assert_eq!(entry.change_amount, Some(528));
    let mut selector = RustCoinSelect::new(10_000, 526, 68, 31);
    selector.deposit(deposit(50_697)).unwrap();
    let entry = selector.withdraw(&pay(50_000), 4_000);
    assert_eq!(entry.change_amount, None);
    assert_eq!(entry.fee, Some(697));
    assert_eq!(entry.output_count, Some(1));
    // the inputs weigh 74; the excess of 556 satoshi over the fee of 141 is wasted
    assert_eq!(entry.waste_score, Some(74 * (4_000 - 10_000) + 4_000 * 556));
    assert!(selector.values().is_empty());
}

#[test]
fn change_that_costs_more_to_spend_than_it_saves_is_not_made() {
    // at a long-term rate of 40 satoshi per weight unit spending the change
    // costs 2 720 satoshi
    let mut selector = RustCoinSelect::new(160_000, 526, 68, 31);
    selector.deposit(deposit(52_000)).unwrap();
    let entry = selector.withdraw(&pay(50_000), 4_000);
    assert_eq!(entry.change_amount, None);
    assert_eq!(entry.fee, Some(2_000));
    let mut selector = RustCoinSelect::new(160_000, 526, 68, 31);
    selector.deposit(deposit(53_000)).unwrap();
    let entry = selector.withdraw(&pay(50_000), 4_000);
    assert_eq!(entry.change_amount, Some(2_828));
}

#[test]
fn inputs_that_cost_more_than_they_hold_are_counted() {
    let mut selector = RustCoinSelect::new(10_000, 526, 68, 31);
    for amount in [50, 60_000] {
        selector.deposit(deposit(amount)).unwrap();
    }
    let entry = selector.withdraw(&pay(50_000), 4_000);
    assert_eq!(entry.inputs, vec![50, 60_000]);
    assert_eq!(entry.negative_effective_valued_inputs, Some(1));
}

#[test]
fn deposit_of_nothing_makes_a_candidate_of_no_value() {
    let mut selector = RustCoinSelect::new(10_000, 526, 68, 31);
    selector.deposit(deposit(7)).unwrap();
    assert_eq!(selector.deposit(deposit(0)), Ok(()));
    assert_eq!(selector.values(), vec![7, 0]);
    assert_eq!(selector.balance(), 7);
    let mut selector = BdkCoinSelect::new(10_000, 526, 68, 31);
    assert_eq!(selector.deposit(deposit(0)), Ok(()));
    assert_eq!(selector.values(), vec![0]);
}

#[test]
fn deposit_below_zero_is_refused() {
    let mut selector = RustCoinSelect::new(10_000, 526, 68, 31);
    assert_eq!(selector.deposit(deposit(-5)), Err(DepositError::Negative));
    assert!(selector.values().is_empty());
    let mut selector = BdkCoinSelect::new(10_000, 526, 68, 31);
    assert_eq!(selector.deposit(deposit(i64::MIN)), Err(DepositError::Negative));
    assert!(selector.values().is_empty());
}

#[test]
fn names_of_the_algorithms() {
    assert_eq!(Algorithm::Bnb.name(), "bnb");
    assert_eq!(Algorithm::SelectSorted.name(), "sorted-fallback");
    assert_eq!(Algorithm::Fifo.name(), "fifo");
    assert_eq!(Algorithm::Failed.name(), "failed");
}

#[test]
fn deposit_beyond_the_value_limit_is_refused() {
    let mut selector = BdkCoinSelect::new(10_000, 526, 68, 31);
    selector.deposit(deposit(0x3fff_ffff_ffff_ffff)).unwrap();
    assert_eq!(selector.deposit(deposit(1)), Err(DepositError::Limit(PoolLimit::Value)));
    assert_eq!(selector.values(), vec![0x3fff_ffff_ffff_ffff]);
}

#[test]
fn search_without_rounds_finds_nothing() {
    let mut selector = BdkCoinSelect::new(10_000, 526, 68, 31);
    assert_eq!(selector.max_rounds, 100_000);
    selector.max_rounds = 0;
    selector.deposit(deposit(100_000_000)).unwrap();
    let entry = selector.withdraw(&pay(50_000_000), 10_000);
    assert_eq!(entry.algorithm, Algorithm::SelectSorted);
    assert_eq!(entry.change_amount, Some(49_999_570));
}

#[test]
fn search_result_with_more_than_needed_is_left_aside() {
    let mut selector = BdkCoinSelect::new(10_000, 526, 68, 31);
    for amount in [10_000, 50_000, 20_000] {
        selector.deposit(deposit(amount)).unwrap();
    }
    // 50 000 alone pays 25 000 and its fee
    let entry = selector.withdraw_with(&pay(25_000), 4_000, Some(vec![1, 2]));
    assert_eq!(entry.algorithm, Algorithm::SelectSorted);
    assert_eq!(entry.inputs, vec![50_000]);
    // each of 10 000 and 20 000 is needed
    let entry = selector.withdraw_with(&pay(25_000), 4_000, Some(vec![0, 1]));
    assert_eq!(entry.algorithm, Algorithm::Bnb);
    assert_eq!(entry.inputs, vec![10_000, 20_000]);
}
