use coin_select_sim::pool::{Pool, PoolLimit};

#[test]
fn new_pool_is_empty() {
    let pool = Pool::new();
    assert_eq!(pool.len(), 0);
    assert_eq!(pool.balance(), 0);
    assert_eq!(pool.weight(), 0);
    assert!(pool.values().is_empty());
    assert!(pool.has_sequence_left());
}

#[test]
fn deposits_line_up_in_creation_order() {
    let mut pool = Pool::new();
    assert_eq!(pool.deposit(500, 68), Ok(0));
    assert_eq!(pool.deposit(300, 70), Ok(1));
    assert_eq!(pool.deposit(700, 68), Ok(2));
    assert_eq!(pool.len(), 3);
    assert_eq!(pool.balance(), 1_500);
    assert_eq!(pool.weight(), 206);
    assert_eq!(pool.values(), vec![500, 300, 700]);
    let all = pool.all();
    assert_eq!(all[1].value, 300);
    assert_eq!(all[1].weight, 70);
    assert_eq!(all[1].input_count, 1);
    assert!(all[1].is_segwit);
    assert_eq!(all[1].creation_sequence, 1);
    assert_eq!(pool.candidates().len(), 3);
}

#[test]
fn removal_keeps_the_order_of_the_rest() {
    let mut pool = Pool::new();
    for value in [10, 20, 30, 40] {
        pool.deposit(value, 68).unwrap();
    }
    let taken = pool.remove(&vec![false, true, false, true]);
    assert_eq!(taken.iter().map(|c| c.value).collect::<Vec<u64>>(), vec![20, 40]);
    assert_eq!(pool.values(), vec![10, 30]);
    assert_eq!(pool.balance(), 40);
    assert_eq!(pool.weight(), 136);
    // sequence numbers are not used again
    assert_eq!(pool.deposit(50, 68), Ok(4));
    assert_eq!(pool.values(), vec![10, 30, 50]);
}

#[test]
fn limits_of_the_pool() {
    let mut pool = Pool::new();
    assert_eq!(pool.deposit(1, 0), Err(PoolLimit::ZeroWeight));
    assert_eq!(pool.deposit(0x4000_0000_0000_0000, 68), Err(PoolLimit::Value));
    assert_eq!(pool.deposit(0x3fff_ffff_ffff_ffff, 68), Ok(0));
    assert_eq!(pool.deposit(1, 68), Err(PoolLimit::Value));
    assert_eq!(pool.len(), 1);
}

#[test]
fn weight_limit_of_the_pool() {
    let mut pool = Pool::new();
    // 2^39 - 1 is the limit, and every candidate counts one unit more than it weighs
    for sequence in 0..127 {
        assert_eq!(pool.deposit(1, u32::MAX), Ok(sequence));
    }
    assert_eq!(pool.deposit(1, u32::MAX), Err(PoolLimit::Weight));
    assert_eq!(pool.deposit(1, u32::MAX - 1), Ok(127));
    assert_eq!(pool.deposit(1, 1), Err(PoolLimit::Weight));
    assert_eq!(pool.len(), 128);
    assert_eq!(pool.weight(), 0x7f_ffff_ffff - 128);
}

#[test]
fn removal_by_sequence_number() {
    let mut pool = Pool::new();
    for value in [10, 20, 30, 40] {
        pool.deposit(value, 68).unwrap();
    }
    let taken = pool.remove_ids(&vec![3, 0, 9]);
    assert_eq!(taken.iter().map(|c| c.creation_sequence).collect::<Vec<u64>>(), vec![0, 3]);
    assert_eq!(pool.values(), vec![20, 30]);
    assert!(pool.remove_ids(&Vec::new()).is_empty());
    assert_eq!(pool.balance(), 50);
}
