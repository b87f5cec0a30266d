use zk_exchange::mempool::OrdersMempool;
use zk_exchange::order::Order;

fn at(id: &str, user: &str, price: u64, side: bool, created: u64) -> Order {
    Order::new_at(id.to_string(), user.to_string(), "BTC/USD".to_string(), 10, price, side, created)
}

#[test]
fn top_buy_is_highest_then_earliest() {
    let mut m = OrdersMempool::new();
    assert!(m.add_order(at("a", "u", 100, true, 5)));
    assert!(m.add_order(at("b", "u", 102, true, 7)));
    assert!(m.add_order(at("c", "u", 102, true, 6)));
    assert!(m.add_order(at("d", "u", 102, true, 6)));
    assert_eq!(m.get_top_buy_order().unwrap().id, "c");
    assert!(m.remove_order_by_id("c"));
    assert_eq!(m.get_top_buy_order().unwrap().id, "d");
    assert!(m.remove_order_by_id("d"));
    assert_eq!(m.get_top_buy_order().unwrap().id, "b");
}

#[test]
fn top_sell_is_lowest_then_earliest() {
    let mut m = OrdersMempool::new();
    m.add_order(at("a", "u", 100, false, 5));
    m.add_order(at("b", "u", 98, false, 7));
    m.add_order(at("c", "u", 98, false, 3));
    assert_eq!(m.get_top_sell_order().unwrap().id, "c");
    m.remove_order("c".to_string());
    assert_eq!(m.get_top_sell_order().unwrap().id, "b");
}

#[test]
fn empty_book_has_no_top() {
    let m = OrdersMempool::new();
    assert!(m.get_top_buy_order().is_none());
    assert!(m.get_top_sell_order().is_none());
    let (b, s) = m.get_all_orders();
    assert!(b.is_empty() && s.is_empty());
}

#[test]
fn duplicate_id_and_empty_order_rejected() {
    let mut m = OrdersMempool::new();
    assert!(m.add_order(at("a", "u", 100, true, 1)));
    assert!(!m.add_order(at("a", "u", 90, false, 1)));
    let mut done = at("z", "u", 100, true, 1);
    done.fill(10);
    assert!(!m.add_order(done));
    let zero = Order::new_at("y".into(), "u".into(), "p".into(), 0, 1, true, 1);
    assert!(!m.add_order(zero));
    let (b, s) = m.get_all_orders();
    assert_eq!(b.len(), 1);
    assert_eq!(s.len(), 0);
}

#[test]
fn remove_unknown_id_is_false() {
    let mut m = OrdersMempool::new();
    m.add_order(at("a", "u", 100, true, 1));
    assert!(!m.remove_order_by_id("nope"));
    assert!(m.remove_order_by_id("a"));
    assert!(!m.remove_order_by_id("a"));
}

#[test]
fn update_keeps_place_in_line() {
    let mut m = OrdersMempool::new();
    m.add_order(at("a", "u", 100, true, 1));
    m.add_order(at("b", "u", 100, true, 1));
    let mut a = at("a", "u", 100, true, 1);
    a.fill(4);
    assert!(m.update_order(a));
    let top = m.get_top_buy_order().unwrap();
    assert_eq!(top.id, "a");
    assert_eq!(top.filled_amount, 4);
    assert!(m.update_order(at("c", "u", 1, false, 1)));
    assert_eq!(m.get_top_sell_order().unwrap().id, "c");
}

#[test]
fn lookups_by_id_and_user() {
    let mut m = OrdersMempool::new();
    m.add_order(at("a", "alice", 100, true, 1));
    m.add_order(at("b", "bob", 101, false, 1));
    m.add_order(at("c", "alice", 102, false, 1));
    assert_eq!(m.get_order_by_id("b").unwrap().user_id, "bob");
    assert!(m.get_order_by_id("x").is_none());
    let ids: Vec<String> = m.get_orders_by_user_id("alice").into_iter().map(|o| o.id).collect();
    assert_eq!(ids, vec!["a".to_string(), "c".to_string()]);
    assert!(m.get_orders_by_user_id("carol").is_empty());
    let (b, s) = m.get_all_orders();
    assert_eq!(b.len(), 1);
    assert_eq!(s.len(), 2);
}
