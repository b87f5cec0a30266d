use zk_exchange::engine::{is_match, OrderMatchingEngine};
use zk_exchange::matched_logs::{MatchedEntry, MatchedLogs};
use zk_exchange::mempool::OrdersMempool;
use zk_exchange::order::{Order, OrderStatus};

const FIVE_PERCENT: u64 = 50_000;

fn engine(deviation_ppm: u64) -> OrderMatchingEngine {
    OrderMatchingEngine::new(deviation_ppm, OrdersMempool::new(), MatchedLogs::new())
}

fn order(id: &str, user: &str, amount: u64, price: u64, side: bool) -> Order {
    Order::new(id.to_string(), user.to_string(), "pair_id".to_string(), amount, price, side)
}

#[test]
fn test_match() {
    let buy_order = Order::new("buy_order".to_string(), "user_id".to_string(), "pair_id".to_string(), 100, 100, true);
    let sell_order = Order::new("sell_order".to_string(), "user_id".to_string(), "pair_id".to_string(), 100, 100, false);
    let mut engine = engine(FIVE_PERCENT);
    engine.add_order(buy_order);
    engine.add_order(sell_order);
    let matches = engine.try_match();
    assert_eq!(matches.len(), 1);
    assert_eq!(matches[0].0.id, "buy_order");
    assert_eq!(matches[0].1.id, "sell_order");
    assert_eq!(matches[0].2, 100);
}

#[test]
fn test_match_with_deviation() {
    let buy_order = Order::new("buy_order".to_string(), "user_id".to_string(), "pair_id".to_string(), 100, 103, true);
    let sell_order = Order::new("sell_order".to_string(), "user_id".to_string(), "pair_id".to_string(), 100, 100, false);
    let mut engine = engine(FIVE_PERCENT);
    engine.add_order(buy_order);
    engine.add_order(sell_order);
    let matches = engine.try_match();
    assert_eq!(matches.len(), 1);
    assert_eq!(matches[0].0.id, "buy_order");
    assert_eq!(matches[0].1.id, "sell_order");
    assert_eq!(matches[0].2, 100);
}

#[test]
fn test_match_with_deviation_too_high() {
    let buy_order = Order::new("buy_order".to_string(), "user_id".to_string(), "pair_id".to_string(), 100, 106, true);
    let sell_order = Order::new("sell_order".to_string(), "user_id".to_string(), "pair_id".to_string(), 100, 100, false);
    let mut engine = engine(FIVE_PERCENT);
    engine.add_order(buy_order);
    engine.add_order(sell_order);
    let matches = engine.try_match();
    assert_eq!(matches.len(), 0);
}

#[test]
fn exact_price_match_empties_book() {
    let mut e = engine(0);
    assert!(e.add_order(order("A", "u1", 100, 100, true)));
    assert!(e.add_order(order("B", "u2", 100, 100, false)));
    let m = e.try_match();
    assert_eq!(m.len(), 1);
    assert_eq!((m[0].0.id.as_str(), m[0].1.id.as_str(), m[0].2), ("A", "B", 100));
    assert_eq!(m[0].0.status, OrderStatus::Filled);
    assert_eq!(m[0].1.status, OrderStatus::Filled);
    assert!(e.mempool.get_top_buy_order().is_none());
    assert!(e.mempool.get_top_sell_order().is_none());
}

#[test]
fn partial_fill_keeps_remainder() {
    let mut e = engine(0);
    e.add_order(order("A", "u1", 100, 100, true));
    e.add_order(order("B", "u2", 40, 100, false));
    e.add_order(order("C", "u3", 80, 100, false));
    let m = e.try_match();
    assert_eq!(m.len(), 2);
    assert_eq!((m[0].0.id.as_str(), m[0].1.id.as_str(), m[0].2), ("A", "B", 40));
    assert_eq!((m[1].0.id.as_str(), m[1].1.id.as_str(), m[1].2), ("A", "C", 60));
    assert_eq!(m[0].0.status, OrderStatus::PartiallyFilled);
    assert!(e.mempool.get_order_by_id("A").is_none());
    assert!(e.mempool.get_order_by_id("B").is_none());
    let c = e.mempool.get_order_by_id("C").unwrap();
    assert_eq!(c.amount - c.filled_amount, 20);
    assert_eq!(c.status, OrderStatus::PartiallyFilled);
}

#[test]
fn deviation_inside_tolerance_trades() {
    let mut e = engine(FIVE_PERCENT);
    e.add_order(order("A", "u1", 100, 103, true));
    e.add_order(order("B", "u2", 100, 100, false));
    let m = e.try_match();
    assert_eq!(m.len(), 1);
    assert_eq!((m[0].0.id.as_str(), m[0].1.id.as_str(), m[0].2), ("A", "B", 100));
}

#[test]
fn deviation_outside_tolerance_rests() {
    let mut e = engine(FIVE_PERCENT);
    e.add_order(order("A", "u1", 100, 106, true));
    e.add_order(order("B", "u2", 100, 100, false));
    assert!(e.try_match().is_empty());
    assert_eq!(e.mempool.get_top_buy_order().unwrap().id, "A");
    assert_eq!(e.mempool.get_top_sell_order().unwrap().id, "B");
}

#[test]
fn price_time_priority_at_one_price() {
    let mut e = engine(0);
    e.add_order(order("A", "u1", 100, 100, true));
    e.add_order(order("D", "u4", 100, 100, true));
    e.add_order(order("S1", "u2", 50, 100, false));
    let m1 = e.try_match();
    assert_eq!(m1.len(), 1);
    assert_eq!((m1[0].0.id.as_str(), m1[0].2), ("A", 50));
    e.add_order(order("S2", "u3", 51, 100, false));
    let m2 = e.try_match();
    assert_eq!(m2.len(), 2);
    assert_eq!((m2[0].0.id.as_str(), m2[0].2), ("A", 50));
    assert_eq!((m2[1].0.id.as_str(), m2[1].2), ("D", 1));
}

#[test]
fn no_crossed_book_after_match_pass() {
    let mut e = engine(10_000);
    e.add_order(order("b1", "u1", 30, 101, true));
    e.add_order(order("b2", "u1", 30, 99, true));
    e.add_order(order("s1", "u2", 10, 100, false));
    e.add_order(order("s2", "u2", 100, 102, false));
    let m = e.try_match();
    assert_eq!(m.len(), 1);
    assert_eq!((m[0].0.id.as_str(), m[0].1.id.as_str(), m[0].2), ("b1", "s1", 10));
    let top_buy = e.mempool.get_top_buy_order().unwrap().price;
    let top_sell = e.mempool.get_top_sell_order().unwrap().price;
    assert!(!is_match(top_buy, top_sell, 10_000));
    assert!(e.try_match().is_empty());
}

#[test]
fn trades_logged_in_production_order() {
    let mut e = engine(0);
    e.add_order(order("A", "u1", 100, 100, true));
    e.add_order(order("B", "u2", 40, 100, false));
    e.add_order(order("C", "u3", 80, 100, false));
    let m = e.try_match();
    let logged = e.matched_logs.pop_top_n_matched_logs("pair_id", 10).unwrap();
    assert_eq!(logged.len(), m.len());
    for (entry, (buy, sell, amount)) in logged.iter().zip(m.iter()) {
        assert_eq!(entry.buy_order.id, buy.id);
        assert_eq!(entry.sell_order.id, sell.id);
        assert_eq!(entry.matched_amount, *amount);
    }
    assert!(e.matched_logs.pop_top_n_matched_logs("pair_id", 10).is_none());
}

#[test]
fn pairs_never_cross_match() {
    let mut e = engine(0);
    e.add_order(Order::new("b".into(), "u1".into(), "BTC/USD".into(), 10, 100, true));
    e.add_order(Order::new("s".into(), "u2".into(), "ETH/USD".into(), 10, 100, false));
    assert!(e.try_match().is_empty());
    e.add_order(Order::new("s2".into(), "u2".into(), "BTC/USD".into(), 10, 100, false));
    let m = e.try_match();
    assert_eq!(m.len(), 1);
    assert_eq!(m[0].1.id, "s2");
}

#[test]
fn fill_conserves_amount() {
    let mut o = order("A", "u1", 100, 100, true);
    o.fill(30);
    assert_eq!(o.filled_amount, 30);
    assert_eq!(o.remaining_amount(), 70);
    assert_eq!(o.status, OrderStatus::PartiallyFilled);
    assert!(!o.is_filled());
    o.fill(70);
    assert_eq!(o.filled_amount, 100);
    assert!(o.is_filled());
    assert_eq!(o.get_status(), OrderStatus::Filled);
}

#[test]
fn tolerance_rule_exact_values() {
    assert!(is_match(100, 100, 0));
    assert!(!is_match(101, 100, 0));
    assert!(is_match(103, 100, FIVE_PERCENT));
    assert!(!is_match(106, 100, FIVE_PERCENT));
    assert!(is_match(100, 95, FIVE_PERCENT));
    assert!(!is_match(99, 100, 1_000_000));
    assert!(is_match(u64::MAX, 1, 1_000_000));
}

#[test]
fn bulk_add_keeps_arrival_order() {
    let mut e = engine(0);
    let accepted = e.add_orders(vec![
        order("A", "u1", 10, 100, true),
        order("A", "u1", 10, 100, true),
        order("D", "u1", 10, 100, true),
    ]);
    assert_eq!(accepted, vec![true, false, true]);
    assert_eq!(e.mempool.get_top_buy_order().unwrap().id, "A");
    let (buys, sells) = e.mempool.get_all_orders();
    assert_eq!(buys.iter().map(|o| o.id.as_str()).collect::<Vec<_>>(), vec!["A", "D"]);
    assert!(sells.is_empty());
}

#[test]
fn settlement_at_resting_price() {
    let e = MatchedEntry {
        timestamp: 3,
        buy_order: Order::new_at("b".into(), "u1".into(), "P".into(), 1, 103, true, 20),
        sell_order: Order::new_at("s".into(), "u2".into(), "P".into(), 1, 100, false, 10),
        matched_amount: 1,
    };
    assert_eq!(e.settlement_price(), 100);
    let mut later = e.clone();
    later.sell_order.created_at = 30;
    assert_eq!(later.settlement_price(), 103);
}

#[test]
fn earlier_buy_exhausted_before_later() {
    let mut e = engine(FIVE_PERCENT);
    e.add_order(order("A", "u1", 80, 100, true));
    e.add_order(order("D", "u4", 80, 100, true));
    e.add_order(order("S1", "u2", 50, 100, false));
    let m1 = e.try_match();
    assert_eq!(m1.iter().map(|m| (m.0.id.as_str(), m.1.id.as_str(), m.2)).collect::<Vec<_>>(), vec![("A", "S1", 50)]);
    assert_eq!(e.mempool.get_order_by_id("A").unwrap().filled_amount, 50);
    assert_eq!(e.mempool.get_order_by_id("D").unwrap().filled_amount, 0);
    e.add_order(order("S2", "u3", 50, 100, false));
    let m2 = e.try_match();
    assert_eq!(
        m2.iter().map(|m| (m.0.id.as_str(), m.1.id.as_str(), m.2)).collect::<Vec<_>>(),
        vec![("A", "S2", 30), ("D", "S2", 20)]
    );
    assert_eq!(m2[0].0.status, OrderStatus::Filled);
    assert!(e.mempool.get_order_by_id("A").is_none());
    assert_eq!(e.mempool.get_order_by_id("D").unwrap().filled_amount, 20);
}
