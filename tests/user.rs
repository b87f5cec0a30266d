use zk_exchange::user::{BalanceError, User};

#[test]
fn balances_add_sub_and_saturate() {
    let mut u = User::new("0xabc".into());
    assert_eq!(u.get_balance("ETH"), 0);
    u.add_balance("ETH".into(), 100);
    u.add_balance("ETH".into(), 5);
    assert_eq!(u.get_balance("ETH"), 105);
    u.sub_balance("ETH".into(), 5);
    assert_eq!(u.get_balance("ETH"), 100);
    u.sub_balance("ETH".into(), 500);
    assert_eq!(u.get_balance("ETH"), 0);
    u.sub_balance("BTC".into(), 1);
    assert_eq!(u.get_balance("BTC"), 0);
    u.set_balance("BTC".into(), 7);
    assert_eq!(u.get_balance("BTC"), 7);
    assert_eq!(u.get_balance("ETH"), 0);
    assert_eq!(u.get_balances().len(), 2);
}

#[test]
fn balance_updates_refuse_bad_requests() {
    let mut u = User::new_with_balances("0x1".into(), vec![("USD".into(), 10)]);
    assert_eq!(u.update_balance("USD".into(), 11, false), Err(BalanceError::Insufficient));
    assert_eq!(u.get_balance("USD"), 10);
    assert_eq!(u.update_balance("USD".into(), u64::MAX, true), Err(BalanceError::Overflow));
    assert_eq!(u.get_balance("USD"), 10);
    assert_eq!(u.update_balance("USD".into(), 10, false), Ok(()));
    assert_eq!(u.get_balance("USD"), 0);
    assert_eq!(u.update_balance("EUR".into(), 3, true), Ok(()));
    assert_eq!(u.get_balance("EUR"), 3);
}

#[test]
fn replace_all_balances() {
    let mut u = User::new("0x2".into());
    u.set_balances(vec![("A".into(), 1), ("B".into(), 2)]);
    assert_eq!(u.get_balance("B"), 2);
    assert_eq!(u.address, "0x2");
}

#[test]
fn debit_of_unheld_token_lists_nothing() {
    let mut u = User::new_with_balances("0x3".into(), vec![("ETH".into(), 4)]);
    u.sub_balance("BTC".into(), 2);
    assert_eq!(u.get_balances(), vec![("ETH".to_string(), 4)]);
    assert_eq!(u.update_balance("BTC".into(), 0, false), Ok(()));
    assert_eq!(u.get_balances().len(), 1);
}

#[test]
fn covered_updates_succeed() {
    let mut u = User::new_with_balances("0x4".into(), vec![("USD".into(), u64::MAX - 1)]);
    assert_eq!(u.update_balance("USD".into(), 1, true), Ok(()));
    assert_eq!(u.get_balance("USD"), u64::MAX);
    assert_eq!(u.update_balance("USD".into(), u64::MAX, false), Ok(()));
    assert_eq!(u.get_balance("USD"), 0);
}

#[test]
fn settle_trade_moves_amount() {
    let mut buyer = User::new_with_balances("b".into(), vec![("P".into(), 5)]);
    let mut seller = User::new_with_balances("s".into(), vec![("P".into(), 30), ("Q".into(), 1)]);
    assert_eq!(User::settle_trade(&mut buyer, &mut seller, &"P".to_string(), 30), Ok(()));
    assert_eq!(buyer.get_balance("P"), 35);
    assert_eq!(seller.get_balance("P"), 0);
    assert_eq!(seller.get_balance("Q"), 1);
    assert_eq!(User::settle_trade(&mut buyer, &mut seller, &"P".to_string(), 1), Err(BalanceError::Insufficient));
    assert_eq!(buyer.get_balance("P"), 35);
    let mut rich = User::new_with_balances("r".into(), vec![("P".into(), u64::MAX)]);
    let mut other = User::new_with_balances("o".into(), vec![("P".into(), 9)]);
    assert_eq!(User::settle_trade(&mut rich, &mut other, &"P".to_string(), 1), Err(BalanceError::Overflow));
    assert_eq!(other.get_balance("P"), 9);
}
