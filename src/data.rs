use vstd::prelude::*;

use crate::block::{Block, block_hash};
use crate::canonical::{canonical, canonical_order, lemma_canonical_members};
use crate::matched_logs::MatchedEntry;
use crate::order::Order;
use crate::replay::{BlockProofInput, User, UserBalanceState, apply_all, lemma_self_trades_noop, replay_accepts, replay_trades, state_hash};

verus! {

pub const LCG_MUL: u64 = 6364136223846793005;

pub const LCG_INC: u64 = 1442695040888963407;

/// One step of a 64-bit linear congruential generator: `seed * LCG_MUL + LCG_INC`
/// modulo 2^64.
pub open spec fn lcg(seed: u64) -> u64 {
    (((seed as nat * LCG_MUL as nat) % 0x1_0000_0000_0000_0000 + LCG_INC as nat) % 0x1_0000_0000_0000_0000) as u64
}

/// A reproducible pseudo-random number derived from `seed`.
pub fn deterministic_random(seed: usize) -> (r: u64)
    ensures
        r == lcg(seed as u64),
{
    let value = seed as u64;
    let value = value.wrapping_mul(LCG_MUL);
    value.wrapping_add(LCG_INC)
}

/// Fills the buffer with the byte pattern 0, 1, ..., 255, 0, 1, ...: the stand-in for
/// entropy inside the proving environment, where output must be reproducible.
pub fn getrandom_custom_impl(dest: &mut [u8]) -> (r: Result<(), ()>)
    ensures
        r is Ok,
        final(dest)@.len() == old(dest)@.len(),
        forall|i: int| 0 <= i < final(dest)@.len() ==> #[trigger] final(dest)@[i] == (i % 256) as u8,
{
    let mut k: usize = 0;
    while k < dest.len()
        invariant
            k <= dest@.len(),
            dest@.len() == old(dest)@.len(),
            forall|i: int| 0 <= i < k ==> #[trigger] dest@[i] == (i % 256) as u8,
        decreases dest@.len() - k,
    {
        dest[k] = (k % 256) as u8;
        k = k + 1;
    }
    Ok(())
}

/// The balance every sample account starts with.
pub const SAMPLE_BALANCE: u64 = 1000000000;

/// A sample replay input of `num_orders` trades on "POL-ETH", each order traded in
/// full against its own mirror image; the accounts user1, user2 and user3 take turns.
/// The block and the prior snapshot carry their true digests; the new snapshot is the
/// prior one with the block's trades applied, and carries its digest.
pub fn populate_block_data(num_orders: usize) -> (r: BlockProofInput)
    requires
        num_orders < usize::MAX / 2,
    ensures
        r.block.logs@.len() == num_orders,
        r.block.wf(),
        r.hash@ == block_hash(r.block.logs@),
        r.block.id@ == r.hash@,
        r.previous_user_balance_state.users@.len() == 3,
        forall|i: int| 0 <= i < 3 ==> (#[trigger] r.previous_user_balance_state.users@[i]).balances == SAMPLE_BALANCE,
        r.previous_user_balance_hash@ == state_hash(r.previous_user_balance_state.users@),
        apply_all(r.previous_user_balance_state.users@, canonical(r.block.logs@)) == Some(r.user_balance_state.users@),
        r.user_balance_hash@ == state_hash(r.user_balance_state.users@),
        replay_accepts(r),
{
    let mut logs: Vec<MatchedEntry> = Vec::new();
    let mut i: usize = 0;
    while i < num_orders
        invariant
            i <= num_orders,
            num_orders < usize::MAX / 2,
            logs@.len() == i,
            forall|k: int| 0 <= k < i ==> {
                &&& (#[trigger] logs@[k]).sell_order.user_id@ == logs@[k].buy_order.user_id@
                &&& (logs@[k].buy_order.user_id@ == "user1"@ || logs@[k].buy_order.user_id@ == "user2"@
                    || logs@[k].buy_order.user_id@ == "user3"@)
                &&& logs@[k].matched_amount <= 100
            },
        decreases num_orders - i,
    {
        let user = if i % 3 == 0 {
            "user1".to_owned()
        } else if i % 3 == 1 {
            "user2".to_owned()
        } else {
            "user3".to_owned()
        };
        let amount = 50 + deterministic_random(i * 2) % 51;
        let price = 95 + deterministic_random(i * 2 + 1) % 11;
        let order = Order::new_at(i.to_string(), user, "POL-ETH".to_owned(), amount, price, true, 1000);
        logs.push(MatchedEntry::new(order));
        i = i + 1;
    }
    let block = Block::new_with_entries_at(logs, String::new(), 1000);
    let hash = block.hash();
    let mut users: Vec<User> = Vec::new();
    users.push(User { address: "user1".to_owned(), balances: SAMPLE_BALANCE });
    users.push(User { address: "user2".to_owned(), balances: SAMPLE_BALANCE });
    users.push(User { address: "user3".to_owned(), balances: SAMPLE_BALANCE });
    let previous = UserBalanceState { users };
    let previous_hash = previous.hash();
    proof {
        let s = previous.users@;
        let logs = block.logs@;
        let es = canonical(logs);
        lemma_canonical_members(logs);
        assert forall|k: int| 0 <= k < es.len() implies {
            &&& (#[trigger] es[k]).sell_order.user_id@ == es[k].buy_order.user_id@
            &&& exists|i: int| 0 <= i < s.len() && s[i].address@ == es[k].buy_order.user_id@
            &&& forall|j: int| 0 <= j < s.len() ==> #[trigger] s[j].balances + es[k].matched_amount <= u64::MAX
        } by {
            assert(logs.contains(es[k]));
            let m = choose|m: int| 0 <= m < logs.len() && logs[m] == es[k];
            assert(logs[m] == es[k]);
            if es[k].buy_order.user_id@ == "user1"@ {
                assert(s[0].address@ == es[k].buy_order.user_id@);
            } else if es[k].buy_order.user_id@ == "user2"@ {
                assert(s[1].address@ == es[k].buy_order.user_id@);
            } else {
                assert(s[2].address@ == es[k].buy_order.user_id@);
            }
        }
        lemma_self_trades_noop(s, es);
    }
    let mut next = previous.snapshot();
    let replayed = replay_trades(&mut next, &canonical_order(&block.logs));
    assert(replayed);
    let next_hash = next.hash();
    BlockProofInput {
        block,
        hash,
        user_balance_hash: next_hash,
        previous_user_balance_hash: previous_hash,
        previous_user_balance_state: previous,
        user_balance_state: next,
    }
}

} // verus!
