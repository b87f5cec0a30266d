use zk_exchange::block::{Block, BlockBuilder};
use zk_exchange::matched_logs::{MatchedEntry, MatchedLogs};
use zk_exchange::order::{Order, OrderStatus};

fn entry(buy_amount: u64, sell_amount: u64, matched: u64) -> MatchedEntry {
    MatchedEntry {
        timestamp: 1,
        buy_order: Order::new("order1".to_string(), "user1".to_string(), "BTCUSDT".to_string(), buy_amount, 10, true),
        sell_order: Order::new("order2".to_string(), "user2".to_string(), "BTCUSDT".to_string(), sell_amount, 10, false),
        matched_amount: matched,
    }
}

fn trade(n: u64) -> MatchedEntry {
    MatchedEntry {
        timestamp: n,
        buy_order: Order::new_at(format!("b{}", n), "u1".into(), "BTCUSDT".into(), 10, 10, true, n),
        sell_order: Order::new_at(format!("s{}", n), "u2".into(), "BTCUSDT".into(), 10, 10, false, n),
        matched_amount: 10,
    }
}

fn same_order(a: &Order, b: &Order) -> bool {
    a.id == b.id
        && a.user_id == b.user_id
        && a.pair_id == b.pair_id
        && a.amount == b.amount
        && a.filled_amount == b.filled_amount
        && a.price == b.price
        && a.side == b.side
        && a.status == b.status
        && a.created_at == b.created_at
        && a.updated_at == b.updated_at
}

fn same_entry(a: &MatchedEntry, b: &MatchedEntry) -> bool {
    a.timestamp == b.timestamp
        && same_order(&a.buy_order, &b.buy_order)
        && same_order(&a.sell_order, &b.sell_order)
        && a.matched_amount == b.matched_amount
}

#[test]
fn test_new() {
    let logs = vec![entry(100, 80, 80), entry(90, 90, 90), entry(80, 80, 80)];
    let block = Block::new_with_entries(logs.clone(), "".to_string());
    assert!(!block.id.is_empty());
    assert_eq!(block.id.len(), 32);
    assert!(block.timestamp > 0);
    assert_eq!(block.length, 3);
    assert_eq!(block.logs.len(), logs.len());
    for (a, b) in block.logs.iter().zip(logs.iter()) {
        assert!(same_entry(a, b));
    }
}

#[test]
fn block_id_is_digest_of_trades() {
    let a = Block::new_with_entries_at(vec![trade(1)], "".into(), 5);
    let b = Block::new_with_entries_at(vec![trade(1)], "other".into(), 9);
    let c = Block::new_with_entries_at(vec![trade(2)], "".into(), 5);
    assert_eq!(a.id.len(), 32);
    assert!(a.id.chars().all(|ch| ch.is_ascii_hexdigit() && !ch.is_ascii_uppercase()));
    assert_eq!(a.id, b.id);
    assert_ne!(a.id, c.id);
    assert_eq!(a.hash(), a.id);
    let empty = Block::new_with_entries_at(vec![], "".into(), 5);
    assert_ne!(empty.id, a.id);
}

#[test]
fn add_entry_counts() {
    let mut b = Block::new("head".into());
    assert_eq!(b.length, 0);
    b.add_entry(trade(1));
    b.add_entry(trade(2));
    assert_eq!(b.length, 2);
    assert_eq!(b.logs[1].timestamp, 2);
    assert_eq!(b.last_block_hash, "head");
}

#[test]
fn finalize_marks_batched_and_rehashes() {
    let mut b = Block::new_with_entries_at(vec![trade(1), trade(2)], "h".into(), 1);
    let before = b.id.clone();
    b.finalize_block_at(77);
    assert_eq!(b.timestamp, 77);
    assert!(b.logs.iter().all(|e| e.buy_order.status == OrderStatus::Batched && e.sell_order.status == OrderStatus::Batched));
    assert_ne!(b.id, before);
    assert_eq!(b.hash(), b.id);
}

#[test]
fn sealing_by_size_then_by_epoch() {
    let mut logs = MatchedLogs::new();
    for n in 1..=3 {
        logs.push_entry(trade(n));
    }
    let mut builder = BlockBuilder::new_at(10, 2, 0, "".into(), 0);
    let first = builder.build_block_at(&mut logs, 1).expect("full block seals");
    assert_eq!(first.length, 2);
    assert_eq!(first.logs[0].timestamp, 1);
    assert_eq!(first.logs[1].timestamp, 2);
    assert_eq!(first.hash(), first.id);
    assert_eq!(builder.get_block_height(), 1);
    assert!(builder.build_block_at(&mut logs, 2).is_none());
    assert_eq!(builder.staged_block().length, 1);
    let second = builder.build_block_at(&mut logs, 12).expect("epoch deadline seals");
    assert_eq!(second.length, 1);
    assert_eq!(second.logs[0].timestamp, 3);
    assert_eq!(second.last_block_hash, first.id);
    assert_eq!(builder.get_last_block_hash(), second.id);
    assert_eq!(builder.get_block_height(), 2);
    assert_eq!(logs.num_entries(), 0);
}

#[test]
fn empty_epoch_seals_empty_block() {
    let mut logs = MatchedLogs::new();
    let mut builder = BlockBuilder::new_at(10, 5, 7, "prev".into(), 100);
    assert!(builder.build_block_at(&mut logs, 110).is_none());
    let b = builder.build_block_at(&mut logs, 111).unwrap();
    assert_eq!(b.length, 0);
    assert_eq!(b.last_block_hash, "prev");
    assert_eq!(builder.get_block_height(), 8);
}

#[test]
fn pop_by_pair_is_fifo() {
    let mut logs = MatchedLogs::new();
    let mut eth = trade(9);
    eth.buy_order.pair_id = "ETHUSDT".into();
    logs.push_entry(trade(1));
    logs.push_entry(eth);
    logs.push_entry(trade(2));
    logs.push_entry(trade(3));
    let got = logs.pop_top_n_matched_logs("BTCUSDT", 2).unwrap();
    assert_eq!(got.iter().map(|e| e.timestamp).collect::<Vec<_>>(), vec![1, 2]);
    assert!(logs.pop_top_n_matched_logs("BTCUSDT", 0).is_none());
    assert!(logs.pop_top_n_matched_logs("XRP", 3).is_none());
    assert_eq!(logs.get_all_pair_ids(), vec!["ETHUSDT".to_string(), "BTCUSDT".to_string()]);
    let eth = logs.pop_top_n_matched_logs("ETHUSDT", 5).unwrap();
    assert_eq!(eth.len(), 1);
    assert_eq!(logs.pop_top_n_matched_logs("BTCUSDT", 5).unwrap()[0].timestamp, 3);
    assert_eq!(logs.num_entries(), 0);
}

#[test]
fn logs_by_user() {
    let mut logs = MatchedLogs::new();
    logs.push_entry(trade(1));
    let mut other = trade(2);
    other.buy_order.user_id = "u3".into();
    other.sell_order.user_id = "u3".into();
    logs.push_entry(other);
    assert_eq!(logs.get_logs_by_user_id("u1").len(), 1);
    assert_eq!(logs.get_logs_by_user_id("u3").len(), 1);
    assert_eq!(logs.get_orders_by_user_id("u3").len(), 2);
    assert_eq!(logs.get_orders_by_user_id("u2")[0].id, "s1");
    assert!(logs.get_logs_by_user_id("nobody").is_empty());
}

#[test]
fn chain_of_blocks_links_ids() {
    let mut logs = MatchedLogs::new();
    let mut builder = BlockBuilder::new_at(100, 1, 0, "genesis".into(), 0);
    let mut sealed = Vec::new();
    for n in 1..=4 {
        logs.push_entry(trade(n));
        sealed.push(builder.build_block_at(&mut logs, n).unwrap());
    }
    assert_eq!(sealed[0].last_block_hash, "genesis");
    for w in sealed.windows(2) {
        assert_eq!(w[1].last_block_hash, w[0].id);
        assert_eq!(w[0].hash(), w[0].id);
    }
    assert_eq!(builder.get_block_height(), 4);
}

#[test]
fn block_id_ignores_interleaving_of_pairs() {
    let mut eth = trade(5);
    eth.buy_order.pair_id = "ETHUSDT".into();
    let mut ada = trade(6);
    ada.buy_order.pair_id = "ADAUSDT".into();
    let a = Block::new_with_entries_at(vec![trade(1), eth.clone(), trade(2), ada.clone()], "".into(), 1);
    let b = Block::new_with_entries_at(vec![ada.clone(), eth.clone(), trade(1), trade(2)], "".into(), 1);
    let c = Block::new_with_entries_at(vec![ada, eth, trade(2), trade(1)], "".into(), 1);
    assert_eq!(a.id, b.id);
    assert_ne!(a.id, c.id);
}

#[test]
fn drain_is_round_robin_over_pairs() {
    let mut logs = MatchedLogs::new();
    let mut eth = trade(2);
    eth.buy_order.pair_id = "ETHUSDT".into();
    logs.push_entry(trade(1));
    logs.push_entry(eth);
    logs.push_entry(trade(3));
    logs.push_entry(trade(4));
    let mut builder = BlockBuilder::new_at(100, 3, 0, "".into(), 0);
    let b = builder.build_block_at(&mut logs, 1).unwrap();
    assert_eq!(b.logs.iter().map(|e| e.timestamp).collect::<Vec<_>>(), vec![1, 3, 4]);
    assert_eq!(logs.get_all_pair_ids(), vec!["ETHUSDT".to_string()]);
    let mut builder2 = BlockBuilder::new_at(100, 5, 0, "".into(), 0);
    assert!(builder2.build_block_at(&mut logs, 1).is_none());
    assert_eq!(builder2.staged_block().logs[0].timestamp, 2);
}
