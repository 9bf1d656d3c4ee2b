use coin_select_sim::models::{Algorithm, DepositError, ScenarioEntry};
use coin_select_sim::pool::PoolLimit;
use coin_select_sim::selectors::bdk::BdkCoinSelect;
use coin_select_sim::selectors::rust_coinselect::RustCoinSelect;
use coin_select_sim::selectors::TargetSelector;
use coin_select_sim::simulator::{simulate, PaymentPolicy, Simulation, SimulationError};

fn record(amount: i64, fee_rate_per_kvb: u64) -> ScenarioEntry {
    ScenarioEntry { amount, fee_rate_per_kvb }
}

fn bdk(policy: PaymentPolicy) -> Simulation<BdkCoinSelect> {
    Simulation::new(policy, BdkCoinSelect::new(10_000, 526, 68, 31))
}

#[test]
fn deposit_then_withdraw_half() {
    let mut simulation = bdk(PaymentPolicy::Drop);
    assert!(simulation.step(record(100_000_000, 10_000)).unwrap().is_none());
    assert_eq!(simulation.summary.deposit_count, 1);
    let out = simulation.step(record(-50_000_000, 10_000)).unwrap().unwrap();
    assert_eq!(out.utxos, vec![100_000_000]);
    assert_eq!(out.entry.id, 1);
    assert_eq!(out.entry.algorithm, Algorithm::Bnb);
    assert_eq!(out.entry.inputs, vec![100_000_000]);
    assert_eq!(out.entry.amount, 50_000_000);
    assert_eq!(out.entry.change_amount, Some(49_999_570));
    assert!(out.sample.is_none());
    assert_eq!(simulation.selector.values(), vec![49_999_570]);
    assert_eq!(simulation.summary.withdraw_count, 1);
    assert_eq!(simulation.summary.algorithm_frequencies.bnb, 1);
    assert_eq!(simulation.summary.total_fees, 430);
    assert!(simulation.payments.is_empty());
}

#[test]
fn withdrawal_from_nothing_fails() {
    let mut simulation = bdk(PaymentPolicy::Drop);
    let out = simulation.step(record(-10_000_000, 10_000)).unwrap().unwrap();
    assert_eq!(out.entry.algorithm, Algorithm::Failed);
    assert_eq!(out.entry.algorithm.name(), "failed");
    assert_eq!(out.entry.id, 1);
    assert!(out.utxos.is_empty());
    assert!(simulation.selector.values().is_empty());
    assert_eq!(simulation.summary.algorithm_frequencies.failed, 1);
    assert_eq!(simulation.summary.withdraw_count, 0);
    assert_eq!(simulation.withdraw_attempt, 1);
}

#[test]
fn failed_payment_rolls_forward() {
    let mut simulation = bdk(PaymentPolicy::RollForward);
    let first = simulation.step(record(-3_000, 4_000)).unwrap().unwrap();
    assert_eq!(first.entry.algorithm, Algorithm::Failed);
    assert_eq!(first.entry.amount, 3_000);
    assert_eq!(simulation.payments.len(), 1);
    simulation.step(record(1_000_000, 4_000)).unwrap();
    let second = simulation.step(record(-4_500, 4_000)).unwrap().unwrap();
    assert_eq!(second.entry.amount, 7_500);
    assert_eq!(second.entry.output_count, Some(3));
    assert_ne!(second.entry.algorithm, Algorithm::Failed);
    assert!(simulation.payments.is_empty());
    let third = simulation.step(record(-100, 4_000)).unwrap().unwrap();
    assert_eq!(third.entry.amount, 100);
}

#[test]
fn failed_payment_is_dropped() {
    let mut simulation = bdk(PaymentPolicy::Drop);
    let first = simulation.step(record(-3_000, 4_000)).unwrap().unwrap();
    assert_eq!(first.entry.algorithm, Algorithm::Failed);
    assert!(simulation.payments.is_empty());
    simulation.step(record(1_000_000, 4_000)).unwrap();
    let second = simulation.step(record(-4_500, 4_000)).unwrap().unwrap();
    assert_eq!(second.entry.amount, 4_500);
    assert_eq!(second.entry.output_count, Some(2));
}

#[test]
fn policy_defaults_to_roll_forward() {
    assert_eq!(PaymentPolicy::default(), PaymentPolicy::RollForward);
}

#[test]
fn run_puts_out_one_item_per_record() {
    let mut simulation = Simulation::new(
        PaymentPolicy::Drop,
        RustCoinSelect::new(10_000, 526, 68, 31),
    );
    let scenario = vec![
        record(30_000, 0),
        record(20_000, 0),
        record(-40_000, 4_000),
        record(-50_000, 4_000),
        record(10_000, 0),
    ];
    let steps = simulation.run(&scenario).unwrap();
    assert_eq!(steps.len(), 5);
    assert!(steps[0].is_none() && steps[1].is_none() && steps[4].is_none());
    let first = steps[2].as_ref().unwrap();
    assert_eq!(first.entry.id, 1);
    assert_eq!(first.entry.algorithm, Algorithm::Fifo);
    assert_eq!(first.utxos, vec![30_000, 20_000]);
    assert_eq!(first.entry.change_amount, Some(9_760));
    let second = steps[3].as_ref().unwrap();
    assert_eq!(second.entry.id, 2);
    assert_eq!(second.entry.algorithm, Algorithm::Failed);
    assert_eq!(second.utxos, vec![9_760]);
    assert_eq!(simulation.selector.values(), vec![9_760, 10_000]);
    assert_eq!(simulation.summary.deposit_count, 3);
    assert_eq!(simulation.summary.withdraw_count, 1);
    assert_eq!(simulation.summary.algorithm_frequencies.failed, 1);
    assert_eq!(simulation.withdraw_attempt, 2);
}

#[test]
fn run_stops_at_the_first_record_that_cannot_be_taken() {
    let mut simulation = bdk(PaymentPolicy::Drop);
    let scenario = vec![
        record(0x3fff_ffff_ffff_ffff, 0),
        record(1, 0),
        record(-5, 4_000),
    ];
    assert_eq!(
        simulation.run(&scenario).unwrap_err(),
        SimulationError::Deposit(DepositError::Limit(PoolLimit::Value))
    );
    assert_eq!(simulation.summary.deposit_count, 1);
    assert_eq!(simulation.withdraw_attempt, 0);
}

#[test]
fn payment_beyond_the_limit_stops_the_run() {
    let mut simulation = bdk(PaymentPolicy::Drop);
    assert_eq!(
        simulation.step(record(i64::MIN, 4_000)).unwrap_err(),
        SimulationError::PaymentsOutOfRange
    );
    assert!(simulation.payments.is_empty());
    assert_eq!(simulation.withdraw_attempt, 0);
}

#[test]
fn exhausted_counters_stop_the_run() {
    let mut simulation = bdk(PaymentPolicy::Drop);
    simulation.summary.deposit_count = usize::MAX;
    assert_eq!(simulation.step(record(5, 0)).unwrap_err(), SimulationError::DepositCount);
    assert!(simulation.selector.values().is_empty());
}

#[test]
fn zero_deposit_stays_in_the_pool() {
    let mut simulation = bdk(PaymentPolicy::Drop);
    simulation.selector.deposit(record(0, 0)).unwrap();
    simulation.step(record(60_000, 0)).unwrap();
    let out = simulation.step(record(-50_000, 4_000)).unwrap().unwrap();
    assert_eq!(out.utxos, vec![0, 60_000]);
    assert_eq!(out.entry.inputs, vec![60_000]);
    assert_eq!(simulation.selector.values()[0], 0);
}

#[test]
fn amount_of_zero_is_a_withdrawal() {
    let mut simulation = bdk(PaymentPolicy::Drop);
    let out = simulation.step(record(0, 4_000)).unwrap().unwrap();
    assert_eq!(out.entry.amount, 0);
    assert_eq!(out.entry.algorithm, Algorithm::Failed);
}

#[test]
fn every_500th_attempt_is_sampled() {
    let mut simulation = bdk(PaymentPolicy::Drop);
    let scenario: Vec<ScenarioEntry> = (0..1_001).map(|_| record(-1_000, 4_000)).collect();
    let steps = simulation.run(&scenario).unwrap();
    for (i, step) in steps.iter().enumerate() {
        let out = step.as_ref().unwrap();
        assert_eq!(out.entry.id, i + 1);
        assert_eq!(out.sample.is_some(), (i + 1) % 500 == 0);
    }
    let sample = steps[499].as_ref().unwrap().sample.as_ref().unwrap();
    assert_eq!(sample.algorithm_frequencies.failed, 500);
    let sample = steps[999].as_ref().unwrap().sample.as_ref().unwrap();
    assert_eq!(sample.algorithm_frequencies.failed, 1_000);
    assert_eq!(simulation.summary.algorithm_frequencies.failed, 1_001);
}

#[test]
fn standard_run() {
    let scenario = vec![record(100_000_000, 0), record(-50_000_000, 10_000), record(-60_000_000, 10_000)];
    let (simulation, steps) = simulate(&scenario);
    let steps = steps.unwrap();
    assert_eq!(steps.len(), 3);
    let first = steps[1].as_ref().unwrap();
    assert_eq!(first.entry.algorithm, Algorithm::Fifo);
    assert_eq!(first.entry.change_amount, Some(49_999_570));
    let second = steps[2].as_ref().unwrap();
    assert_eq!(second.entry.algorithm, Algorithm::Failed);
    // failed payments are given up
    assert!(simulation.payments.is_empty());
    assert_eq!(simulation.payment_policy, PaymentPolicy::Drop);
    assert_eq!(simulation.selector.long_term_feerate, 10_000);
    assert_eq!(simulation.selector.dust_limit, 526);
    assert_eq!(simulation.selector.input_drain_weight, 68);
    assert_eq!(simulation.selector.output_drain_weight, 31);
    assert_eq!(simulation.summary.deposit_count, 1);
}

#[test]
fn exhausted_attempts_stop_the_run() {
    let mut simulation = bdk(PaymentPolicy::Drop);
    simulation.withdraw_attempt = usize::MAX;
    assert_eq!(simulation.step(record(-5, 4_000)).unwrap_err(), SimulationError::AttemptCount);
    assert!(simulation.payments.is_empty());
}
