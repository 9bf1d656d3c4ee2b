use coin_select_sim::accounting::PendingPayment;
use coin_select_sim::models::{Algorithm, ScenarioEntry, SimulationEntry};
use coin_select_sim::selectors::bdk::BdkCoinSelect;
use coin_select_sim::selectors::TargetSelector;

fn selector_with(values: &[u64]) -> BdkCoinSelect {
    let mut selector = BdkCoinSelect::new(10_000, 526, 68, 31);
    for value in values {
        selector
            .deposit(ScenarioEntry { amount: *value as i64, fee_rate_per_kvb: 0 })
            .unwrap();
    }
    selector
}

fn withdraw(values: &[u64], amount: u64, rate: u64) -> (SimulationEntry, Vec<u64>) {
    let mut selector = selector_with(values);
    let entry = selector.withdraw(&vec![PendingPayment { amount, weight: 31 }], rate);
    (entry, selector.values())
}

fn sorted(mut values: Vec<u64>) -> Vec<u64> {
    values.sort();
    values
}

#[test]
fn selection_pays_for_the_target() {
    let (entry, rest) = withdraw(&[40_000, 25_000, 90_000, 3_000, 12_000], 60_000, 8_000);
    assert_eq!(entry.algorithm, Algorithm::Bnb);
    let spent: u64 = entry.inputs.iter().sum();
    assert!(spent >= entry.amount);
    assert_eq!(spent, entry.amount + entry.fee.unwrap() + entry.change_amount.unwrap_or(0));
    let left: u64 = rest.iter().sum();
    assert_eq!(left + entry.amount + entry.fee.unwrap(), 170_000);
}

#[test]
fn order_of_the_pool_does_not_change_the_waste() {
    let orders: [[u64; 4]; 4] = [
        [70_000, 50_353, 90_000, 20_000],
        [20_000, 90_000, 50_353, 70_000],
        [50_353, 20_000, 70_000, 90_000],
        [90_000, 70_000, 20_000, 50_353],
    ];
    for amount in [50_000, 100_000, 139_000, 225_000] {
        let (first, _) = withdraw(&orders[0], amount, 10_000);
        assert_eq!(first.algorithm, Algorithm::Bnb);
        for order in &orders[1..] {
            let (entry, _) = withdraw(order, amount, 10_000);
            assert_eq!(entry.algorithm, Algorithm::Bnb);
            assert_eq!(entry.waste_score, first.waste_score);
            assert_eq!(entry.fee, first.fee);
            assert_eq!(sorted(entry.inputs), sorted(first.inputs.clone()));
        }
    }
}

#[test]
fn change_is_never_below_the_dust_limit() {
    for extra in 0..1_200 {
        let (entry, _) = withdraw(&[50_000 + extra], 50_000, 4_000);
        if let Some(change) = entry.change_amount {
            assert!(change >= 526);
        }
    }
}

#[test]
fn many_pools_are_served_without_fault() {
    let mut state: u64 = 0x2545_f491_4f6c_dd1d;
    let mut next = move |bound: u64| {
        state ^= state << 13;
        state ^= state >> 7;
        state ^= state << 17;
        state % bound
    };
    let mut served = 0;
    for _ in 0..400 {
        let count = 1 + next(7) as usize;
        let scale = 10u64.pow(2 + next(9) as u32);
        let values: Vec<u64> = (0..count).map(|_| 1 + next(scale)).collect();
        let total: u64 = values.iter().sum();
        let amount = 1 + next(total + total / 4);
        let rate = [1, 250, 999, 1_000, 4_000, 10_000, 123_457, 2_000_000][next(8) as usize];
        let (entry, rest) = withdraw(&values, amount, rate);
        let left: u64 = rest.iter().sum();
        match entry.algorithm {
            Algorithm::Failed => assert_eq!(left, total),
            _ => {
                served += 1;
                let spent: u64 = entry.inputs.iter().sum();
                let change = entry.change_amount.unwrap_or(0);
                assert_eq!(spent, amount + entry.fee.unwrap() + change);
                assert_eq!(left + spent, total + change);
                assert!(change == 0 || change >= 526);
            },
        }
    }
    assert!(served > 100);
}

#[test]
fn search_result_with_a_superfluous_input_is_left_aside() {
    // the search spends both candidates, to make change and pay a fee of 600;
    // the first alone pays, with 853 satoshi left to the fee
    let (entry, rest) = withdraw(&[50_853, 10_000], 50_000, 10_000);
    assert_eq!(entry.algorithm, Algorithm::SelectSorted);
    assert_eq!(entry.inputs, vec![50_853]);
    assert_eq!(entry.fee, Some(853));
    assert_eq!(entry.change_amount, None);
    assert_eq!(rest, vec![10_000]);
}

#[test]
fn searched_selection_has_no_part_that_pays() {
    let mut state: u64 = 0x1357_9bdf_0246_8ace;
    let mut next = move |bound: u64| {
        state ^= state << 13;
        state ^= state >> 7;
        state ^= state << 17;
        state % bound
    };
    let mut searched = 0;
    for _ in 0..600 {
        let count = 1 + next(6) as usize;
        let values: Vec<u64> = (0..count).map(|_| 1 + next(200_000)).collect();
        let total: u64 = values.iter().sum();
        let amount = 1 + next(total);
        let rate = 1_000 + next(40_000);
        let (entry, _) = withdraw(&values, amount, rate);
        if entry.algorithm != Algorithm::Bnb {
            continue;
        }
        searched += 1;
        let n = entry.inputs.len();
        for subset in 0..(1u32 << n) - 1 {
            let part: Vec<u64> =
                (0..n).filter(|i| subset >> i & 1 == 1).map(|i| entry.inputs[i]).collect();
            let held: u64 = part.iter().sum();
            // 32 fixed, the input count, 68 for each input, the witness
            // marker, the output count and one output of 31
            let marker = if part.is_empty() { 0 } else { 2 };
            let weight = 32 + 4 + 68 * part.len() as u64 + marker + 4 + 31;
            let fee = (weight * rate + 3_999) / 4_000;
            assert!(held < amount + fee);
        }
    }
    assert!(searched > 100);
}

#[test]
fn search_is_run_up_to_its_limit() {
    let mut state: u64 = 0x0123_4567_89ab_cdef;
    let mut next = move |bound: u64| {
        state ^= state << 13;
        state ^= state >> 7;
        state ^= state << 17;
        state % bound
    };
    let mut searched = 0;
    for _ in 0..3_000 {
        let rate = 200 + next(60_000);
        // 32 + 4 + 4 + 31 weight units make the smallest fee
        let least_fee = (71 * rate + 3_999) / 4_000;
        let limit = (1 << 24) * (least_fee - 1) / 6;
        if limit < 2 {
            continue;
        }
        let amount = limit - next(limit / 2);
        let count = 1 + next(5) as usize;
        let values: Vec<u64> = (0..count).map(|_| 1 + next(2 * amount)).collect();
        let total: u64 = values.iter().sum();
        let (entry, rest) = withdraw(&values, amount, rate);
        let left: u64 = rest.iter().sum();
        match entry.algorithm {
            Algorithm::Failed => assert_eq!(left, total),
            algorithm => {
                if algorithm == Algorithm::Bnb {
                    searched += 1;
                }
                let spent: u64 = entry.inputs.iter().sum();
                let change = entry.change_amount.unwrap_or(0);
                assert_eq!(spent, amount + entry.fee.unwrap() + change);
                assert_eq!(left + spent, total + change);
            },
        }
    }
    assert!(searched > 500);
}

#[test]
fn search_is_not_run_beyond_its_limit() {
    // at 999 satoshi per 1000 virtual bytes the smallest fee is 18 satoshi
    let values = [7_905_420_099_896, 3_867_370_731_510, 4_015_945_358_171];
    let (entry, _) = withdraw(&values, 9_302_173_025_952, 999);
    assert_eq!(entry.algorithm, Algorithm::SelectSorted);
    assert_eq!(entry.inputs, vec![7_905_420_099_896, 4_015_945_358_171]);
}

#[test]
fn search_is_not_run_with_a_dust_limit_beyond_all_values() {
    let mut selector = BdkCoinSelect::new(10_000, u64::MAX, 68, 31);
    selector
        .deposit(ScenarioEntry { amount: 100_000_000, fee_rate_per_kvb: 0 })
        .unwrap();
    let entry = selector.withdraw(&vec![PendingPayment { amount: 50_000_000, weight: 31 }], 10_000);
    assert_eq!(entry.algorithm, Algorithm::SelectSorted);
    assert_eq!(entry.change_amount, None);
    assert_eq!(entry.fee, Some(50_000_000));
}

#[test]
fn search_is_not_run_where_spending_the_change_costs_beyond_all_fees() {
    let mut selector = BdkCoinSelect::new(u64::MAX, 526, u32::MAX, 31);
    selector
        .deposit(ScenarioEntry { amount: 100_000_000, fee_rate_per_kvb: 0 })
        .unwrap();
    let entry = selector.withdraw(&vec![PendingPayment { amount: 50_000_000, weight: 31 }], 10_000);
    assert_eq!(entry.algorithm, Algorithm::SelectSorted);
    assert_eq!(entry.change_amount, None);
    assert_eq!(entry.fee, Some(50_000_000));
    // 2^30 satoshi is the most that spending the change may cost
    let mut selector = BdkCoinSelect::new(4_000, 526, 0x4000_0000, 31);
    selector
        .deposit(ScenarioEntry { amount: 100_000_000, fee_rate_per_kvb: 0 })
        .unwrap();
    let entry = selector.withdraw(&vec![PendingPayment { amount: 50_000_000, weight: 31 }], 10_000);
    assert_eq!(entry.algorithm, Algorithm::SelectSorted);
    let mut selector = BdkCoinSelect::new(4_000, 526, 0x3fff_ffff, 31);
    selector
        .deposit(ScenarioEntry { amount: 100_000_000, fee_rate_per_kvb: 0 })
        .unwrap();
    let entry = selector.withdraw(&vec![PendingPayment { amount: 50_000_000, weight: 31 }], 10_000);
    assert_eq!(entry.algorithm, Algorithm::Bnb);
}
