use coin_select_sim::lines::values_line;

#[test]
fn no_values_give_an_empty_line() {
    assert_eq!(values_line(&Vec::new()), "");
}

#[test]
fn one_value_stands_alone() {
    assert_eq!(values_line(&vec![0]), "0");
    assert_eq!(values_line(&vec![100_000_000]), "100000000");
    assert_eq!(values_line(&vec![u64::MAX]), "18446744073709551615");
}

#[test]
fn values_are_joined_by_commas() {
    assert_eq!(values_line(&vec![49_999_570, 0, 10, 7]), "49999570,0,10,7");
}
