use coin_select_sim::accounting::{covers, settle, ChangeRules, PendingPayment, Target};
use coin_select_sim::weights::{fee_at, varint_size};

fn rules() -> ChangeRules {
    ChangeRules {
        long_term_feerate: 10_000,
        dust_limit: 526,
        input_drain_weight: 68,
        output_drain_weight: 31,
    }
}

fn target(value: u64, fee_rate: u64) -> Target {
    Target { value, fee_rate, output_count: 1, output_weight: 31 }
}

#[test]
fn varint_sizes() {
    assert_eq!(varint_size(0), 1);
    assert_eq!(varint_size(0xfc), 1);
    assert_eq!(varint_size(0xfd), 3);
    assert_eq!(varint_size(0xffff), 3);
    assert_eq!(varint_size(0x1_0000), 5);
    assert_eq!(varint_size(0xffff_ffff), 5);
    assert_eq!(varint_size(0x1_0000_0000), 9);
}

#[test]
fn fees_round_up() {
    assert_eq!(fee_at(0, 10_000), 0);
    assert_eq!(fee_at(141, 0), 0);
    assert_eq!(fee_at(4_000, 1), 1);
    assert_eq!(fee_at(4_001, 1), 2);
    assert_eq!(fee_at(141, 10_000), 353);
    assert_eq!(fee_at(172, 10_000), 430);
    assert_eq!(fee_at(0xff_ffff_ffff, u64::MAX), 5_070_602_400_908_305_919_693_507_527);
}

#[test]
fn target_of_several_payments() {
    let payments = vec![
        PendingPayment { amount: 1_000, weight: 31 },
        PendingPayment { amount: 2_500, weight: 43 },
    ];
    let target = Target::from_payments(&payments, 7_000).unwrap();
    assert_eq!(target.value, 3_500);
    assert_eq!(target.output_weight, 74);
    assert_eq!(target.output_count, 2);
    assert_eq!(target.fee_rate, 7_000);
    let none = Target::from_payments(&Vec::new(), 7_000).unwrap();
    assert_eq!((none.value, none.output_weight, none.output_count), (0, 0, 0));
}

#[test]
fn target_out_of_range() {
    let payments = vec![
        PendingPayment { amount: 0x3fff_ffff_ffff_ffff, weight: 31 },
        PendingPayment { amount: 1, weight: 31 },
    ];
    assert!(Target::from_payments(&payments, 1).is_none());
    let payments = vec![
        PendingPayment { amount: 1, weight: 0x3fff_ffff },
        PendingPayment { amount: 1, weight: 1 },
    ];
    assert!(Target::from_payments(&payments, 1).is_none());
    let payments = vec![PendingPayment { amount: 0x3fff_ffff_ffff_ffff, weight: 0x3fff_ffff }];
    assert!(Target::from_payments(&payments, 1).is_some());
}

#[test]
fn coverage_counts_the_fee() {
    // 32 + 74 + 4 + 31 = 141 weight units at one satoshi each
    assert!(covers(&target(50_000, 4_000), 50_141, 74));
    assert!(!covers(&target(50_000, 4_000), 50_140, 74));
    assert!(covers(&target(0, 0), 0, 4));
}

#[test]
fn settlement_with_change() {
    let s = settle(&target(50_000, 4_000), &rules(), 60_000, 74);
    assert_eq!(s.change, Some(9_828));
    assert_eq!(s.fee, 172);
    assert_eq!(s.weight, 172);
    assert_eq!(s.waste, 74 * (4_000 - 10_000) + 68 * 10_000);
}

#[test]
fn settlement_without_change() {
    let s = settle(&target(50_000, 4_000), &rules(), 50_141, 74);
    assert_eq!(s.change, None);
    assert_eq!(s.fee, 141);
    assert_eq!(s.weight, 141);
    assert_eq!(s.waste, 74 * (4_000 - 10_000));
    // one satoshi short of the dust limit
    let s = settle(&target(50_000, 4_000), &rules(), 50_697, 74);
    assert_eq!(s.change, None);
    assert_eq!(s.fee, 697);
    let s = settle(&target(50_000, 4_000), &rules(), 50_698, 74);
    assert_eq!(s.change, Some(526));
    assert_eq!(s.fee, 172);
}

#[test]
fn settlement_never_makes_change_of_nothing() {
    let free = ChangeRules { dust_limit: 0, long_term_feerate: 0, ..rules() };
    let s = settle(&target(50_000, 4_000), &free, 50_172, 74);
    assert_eq!(s.change, None);
    assert_eq!(s.fee, 172);
    let s = settle(&target(50_000, 4_000), &free, 50_173, 74);
    assert_eq!(s.change, Some(1));
}
