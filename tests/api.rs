use zk_exchange::api::{
    get_orders, status_to_string, CreateUserRequest, GetOrdersQuery, OrderResponse, PlaceOrderRequest, UserOrdersResponse,
    UserResponse,
};
use zk_exchange::mempool::OrdersMempool;
use zk_exchange::order::{Order, OrderStatus};

fn book() -> OrdersMempool {
    let mut m = OrdersMempool::new();
    for i in 0..12u64 {
        let pair = if i % 2 == 0 { "BTC/USD" } else { "ETH/USD" };
        m.add_order(Order::new_at(format!("o{}", i), "user_1".into(), pair.into(), 100, 10000 + i, i < 8, 1));
    }
    m
}

fn query(pair: Option<&str>, side: Option<bool>, page: Option<usize>, limit: Option<usize>) -> GetOrdersQuery {
    GetOrdersQuery { pair_id: pair.map(|p| p.to_string()), side, page, limit }
}

#[test]
fn test_get_orders() {
    let mut m = OrdersMempool::new();
    m.add_order(Order::new("order_1".to_string(), "user_1".to_string(), "BTC/USD".to_string(), 100, 10000, true));
    let response = get_orders(&m, &query(None, None, Some(1), Some(10)));
    assert_eq!(response.orders[response.orders.len() - 1].id, "order_1");
}

#[test]
fn listing_defaults_and_filters() {
    let m = book();
    let all = get_orders(&m, &query(None, None, None, None));
    assert_eq!((all.total, all.page, all.limit, all.orders.len()), (12, 1, 10, 10));
    assert_eq!(all.orders[0].id, "o0");
    assert_eq!(all.orders[8].id, "o8");
    let btc = get_orders(&m, &query(Some("BTC/USD"), None, None, None));
    assert_eq!(btc.total, 6);
    assert!(btc.orders.iter().all(|o| o.pair_id == "BTC/USD"));
    let sells = get_orders(&m, &query(Some(""), Some(false), None, None));
    assert_eq!(sells.total, 4);
    assert!(sells.orders.iter().all(|o| !o.side));
    let buys_eth = get_orders(&m, &query(Some("ETH/USD"), Some(true), None, None));
    assert_eq!(buys_eth.total, 4);
}

#[test]
fn listing_pages() {
    let m = book();
    let page2 = get_orders(&m, &query(None, None, Some(2), Some(5)));
    assert_eq!(page2.orders.iter().map(|o| o.id.as_str()).collect::<Vec<_>>(), vec!["o5", "o6", "o7", "o8", "o9"]);
    let page3 = get_orders(&m, &query(None, None, Some(3), Some(5)));
    assert_eq!(page3.orders.len(), 2);
    let beyond = get_orders(&m, &query(None, None, Some(9), Some(5)));
    assert!(beyond.orders.is_empty());
    assert_eq!(beyond.total, 12);
    let zero_page = get_orders(&m, &query(None, None, Some(0), Some(1000)));
    assert_eq!((zero_page.page, zero_page.limit, zero_page.orders.len()), (1, 100, 12));
    let huge = get_orders(&m, &query(None, None, Some(usize::MAX), Some(100)));
    assert!(huge.orders.is_empty());
}

#[test]
fn responses_report_orders() {
    let o = PlaceOrderRequest { user_id: "u".into(), pair_id: "P".into(), amount: 5, price: 7, side: false }.into_order("x".into());
    assert_eq!((o.id.as_str(), o.amount, o.price, o.side, o.filled_amount), ("x", 5, 7, false, 0));
    let r = OrderResponse::from_order(&o);
    assert_eq!(r.status, "Pending");
    assert_eq!(r.user_id, "u");
    assert_eq!(status_to_string(OrderStatus::PartiallyFilled), "PartiallyFilled");
    assert_eq!(status_to_string(OrderStatus::Batched), "Batched");
    let u = UserOrdersResponse::from_orders(vec![o]);
    assert_eq!(u.orders.len(), 1);
}

#[test]
fn create_user_from_request() {
    let req = CreateUserRequest {
        address: "0xa".into(),
        initial_balances: Some(vec![("ETH".into(), 5), ("BTC".into(), 1), ("ETH".into(), 9)]),
    };
    let user = req.into_user();
    assert_eq!(user.get_balance("ETH"), 9);
    assert_eq!(user.get_balance("BTC"), 1);
    assert_eq!(user.get_balance("DOGE"), 0);
    let resp = UserResponse::from_user(&user);
    assert_eq!(resp.address, "0xa");
    assert_eq!(resp.balances.len(), 2);
    let empty = CreateUserRequest { address: "0xb".into(), initial_balances: None }.into_user();
    assert_eq!(empty.get_balance("ETH"), 0);
}

#[test]
fn test_get_order_by_id() {
    let mut m = OrdersMempool::new();
    m.add_order(Order::new("order_1".to_string(), "user_1".to_string(), "BTC/USD".to_string(), 100, 10000, true));
    let response = OrderResponse::from_order(m.get_order_by_id("order_1").unwrap());
    assert_eq!(response.id, "order_1");
}

#[test]
fn test_cancel_order() {
    let mut m = OrdersMempool::new();
    m.add_order(Order::new("order_1".to_string(), "user_1".to_string(), "BTC/USD".to_string(), 100, 10000, true));
    assert!(m.remove_order_by_id("order_1"));
    assert!(m.get_order_by_id("order_1").is_none());
}

#[test]
fn test_place_order() {
    let (order_tx, order_rx) = std::sync::mpsc::channel();
    let order = Order::new("order_1".to_string(), "user_1".to_string(), "BTC/USD".to_string(), 100, 10000, true);
    order_tx.send(order.snapshot()).unwrap();
    let received_order = order_rx.recv().unwrap();
    assert_eq!(received_order.id, order.id);
    assert_eq!(received_order.amount, order.amount);
    assert_eq!(received_order.price, order.price);
    assert_eq!(received_order.created_at, order.created_at);
}
