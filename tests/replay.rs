use zk_exchange::block::Block;
use zk_exchange::data::{deterministic_random, getrandom_custom_impl, populate_block_data};
use zk_exchange::matched_logs::MatchedEntry;
use zk_exchange::order::Order;
use zk_exchange::replay::{block_proof, BlockProofInput, User, UserBalanceState};

#[test]
fn test_block_proof() {
    let input = populate_block_data(10);
    let result = block_proof(input);
    assert!(result);
}

fn state(balances: &[(&str, u64)]) -> UserBalanceState {
    UserBalanceState {
        users: balances.iter().map(|(a, b)| User { address: a.to_string(), balances: *b }).collect(),
    }
}

fn trade(buyer: &str, seller: &str, amount: u64) -> MatchedEntry {
    MatchedEntry {
        timestamp: 1,
        buy_order: Order::new_at("b".into(), buyer.into(), "P".into(), amount, 1, true, 1),
        sell_order: Order::new_at("s".into(), seller.into(), "P".into(), amount, 1, false, 1),
        matched_amount: amount,
    }
}

fn input(prev: UserBalanceState, trades: Vec<MatchedEntry>, claimed_next: UserBalanceState) -> BlockProofInput {
    let block = Block::new_with_entries_at(trades, "".into(), 1);
    BlockProofInput {
        hash: block.hash(),
        user_balance_hash: claimed_next.hash(),
        previous_user_balance_hash: prev.hash(),
        previous_user_balance_state: prev,
        user_balance_state: claimed_next,
        block,
    }
}

#[test]
fn replay_accepts_true_transition_and_conserves_total() {
    let prev = state(&[("a", 100), ("b", 50)]);
    let next = state(&[("a", 130), ("b", 20)]);
    let i = input(prev, vec![trade("a", "b", 30)], next);
    let total_before: u64 = i.previous_user_balance_state.users.iter().map(|u| u.balances).sum();
    let total_after: u64 = i.user_balance_state.users.iter().map(|u| u.balances).sum();
    assert_eq!(total_before, total_after);
    assert!(block_proof(i.clone()));
    assert!(block_proof(i));
}

#[test]
fn replay_rejects_wrong_claims() {
    let prev = state(&[("a", 100), ("b", 50)]);
    let mut i = input(prev.clone(), vec![trade("a", "b", 30)], state(&[("a", 131), ("b", 20)]));
    assert!(!block_proof(i.clone()));
    i = input(prev.clone(), vec![trade("a", "b", 30)], state(&[("a", 130), ("b", 20)]));
    i.hash = "0".repeat(32);
    assert!(!block_proof(i.clone()));
    i = input(prev, vec![trade("a", "b", 30)], state(&[("a", 130), ("b", 20)]));
    i.previous_user_balance_hash = "x".into();
    assert!(!block_proof(i));
}

#[test]
fn replay_rejects_missing_user_and_underflow() {
    let prev = state(&[("a", 100), ("b", 50)]);
    assert!(!block_proof(input(prev.clone(), vec![trade("a", "c", 1)], prev.clone())));
    assert!(!block_proof(input(prev.clone(), vec![trade("a", "b", 51)], state(&[("a", 151), ("b", 0)]))));
    assert!(block_proof(input(prev.clone(), vec![trade("a", "b", 50)], state(&[("a", 150), ("b", 0)]))));
}

#[test]
fn state_hash_depends_on_balances() {
    let a = state(&[("a", 1)]);
    let b = state(&[("a", 2)]);
    assert_ne!(a.hash(), b.hash());
    assert_eq!(a.hash(), state(&[("a", 1)]).hash());
    assert_eq!(a.hash().len(), 32);
}

#[test]
fn sample_data_is_consistent() {
    let i = populate_block_data(4);
    assert_eq!(i.block.length, 4);
    assert_eq!(i.block.logs[0].buy_order.user_id, "user1");
    assert_eq!(i.block.logs[3].buy_order.user_id, "user1");
    assert_eq!(i.block.logs[1].sell_order.user_id, "user2");
    assert!(!i.block.logs[1].sell_order.side);
    assert_eq!(i.block.logs[2].matched_amount, i.block.logs[2].buy_order.amount);
    assert!(i.block.logs.iter().all(|e| (50..=100).contains(&e.buy_order.amount) && (95..=105).contains(&e.buy_order.price)));
    assert!(i.user_balance_state.users.iter().all(|u| u.balances == 1_000_000_000));
    assert!(block_proof(i));
}

#[test]
fn lcg_exact_values() {
    assert_eq!(deterministic_random(0), 1442695040888963407);
    assert_eq!(deterministic_random(1), 6364136223846793005u64.wrapping_add(1442695040888963407));
    assert_eq!(deterministic_random(2), 6364136223846793005u64.wrapping_mul(2).wrapping_add(1442695040888963407));
}

#[test]
fn custom_entropy_pattern() {
    let mut buf = vec![9u8; 300];
    assert!(getrandom_custom_impl(&mut buf).is_ok());
    assert_eq!(buf[0], 0);
    assert_eq!(buf[255], 255);
    assert_eq!(buf[256], 0);
    assert_eq!(buf[299], 43);
}

#[test]
fn mirrored_entry() {
    let o = Order::new_at("7".into(), "user2".into(), "POL-ETH".into(), 60, 99, true, 1000);
    let e = MatchedEntry::new(o);
    assert_eq!(e.timestamp, 1000);
    assert_eq!(e.matched_amount, 60);
    assert!(!e.sell_order.side);
    assert_eq!(e.sell_order.id, "7");
    assert_eq!(e.sell_order.user_id, "user2");
}

#[test]
fn state_hash_ignores_account_order() {
    assert_eq!(state(&[("a", 1), ("b", 2), ("c", 3)]).hash(), state(&[("c", 3), ("a", 1), ("b", 2)]).hash());
    assert_ne!(state(&[("a", 1), ("b", 2)]).hash(), state(&[("a", 2), ("b", 1)]).hash());
}

#[test]
fn replay_follows_canonical_order() {
    // Stored order would debit "b" before crediting it; canonical order (pair "A" first)
    // credits "b" first, so the replay goes through.
    let prev = state(&[("a", 10), ("b", 0), ("c", 0)]);
    let mut credit_b = trade("b", "a", 5);
    credit_b.buy_order.pair_id = "A".into();
    credit_b.sell_order.pair_id = "A".into();
    let debit_b = trade("c", "b", 5);
    let next = state(&[("a", 5), ("b", 0), ("c", 5)]);
    assert!(block_proof(input(prev, vec![debit_b, credit_b], next)));
}
