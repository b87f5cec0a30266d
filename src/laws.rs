use vstd::prelude::*;

use crate::block::{Block, BlockBuilder, block_hash, build_step};
use crate::matched_logs::MatchedEntry;
use crate::mempool::{OrdersMempool, in_scope, is_top, ranks_ahead};
use crate::order::{Order, OrderStatus, fill_spec};
use crate::user::{set_token, token_balance};
use crate::canonical::{lemma_filter_members, lemma_filter_shrinks, lex_lt};
use crate::replay::{BlockProofInput, User, apply_all, apply_trade, by_address, lemma_min_address_present, min_address, replay_accepts, state_hash};

verus! {

/// An order after a sequence of fills, applied one after another.
pub open spec fn fill_seq(o: Order, qs: Seq<u64>) -> Order
    decreases qs.len(),
{
    if qs.len() == 0 {
        o
    } else {
        fill_spec(fill_seq(o, qs.drop_last()), qs.last())
    }
}

pub open spec fn sum_u64(qs: Seq<u64>) -> int
    decreases qs.len(),
{
    if qs.len() == 0 {
        0
    } else {
        sum_u64(qs.drop_last()) + qs.last()
    }
}

/// Each fill takes at most what the order still has open, as the matcher ensures.
pub open spec fn admissible_fills(o: Order, qs: Seq<u64>) -> bool {
    forall|k: int| 0 <= k < qs.len() ==> #[trigger] qs[k] <= fill_seq(o, qs.take(k)).remaining()
}

/// Conservation of amount: over every sequence of matches a new order takes part in,
/// the matched units add up to its fill, never exceed its amount, and reach it exactly
/// when the order ends up `Filled`.
pub proof fn lemma_fill_conservation(o: Order, qs: Seq<u64>)
    requires
        o.filled_amount == 0,
        o.status == OrderStatus::Pending,
        admissible_fills(o, qs),
    ensures
        fill_seq(o, qs).filled_amount == sum_u64(qs),
        sum_u64(qs) <= o.amount,
        fill_seq(o, qs).amount == o.amount,
        qs.len() > 0 ==> (fill_seq(o, qs).status == OrderStatus::Filled <==> sum_u64(qs) == o.amount),
    decreases qs.len(),
{
    if qs.len() > 0 {
        let init = qs.drop_last();
        assert forall|k: int| 0 <= k < init.len() implies #[trigger] init[k] <= fill_seq(o, init.take(k)).remaining() by {
            assert(init.take(k) =~= qs.take(k));
            assert(qs[k] <= fill_seq(o, qs.take(k)).remaining());
        }
        lemma_fill_conservation(o, init);
        assert(qs.take(qs.len() - 1) =~= init);
        assert(qs[qs.len() - 1] <= fill_seq(o, qs.take(qs.len() - 1)).remaining());
    }
}

/// Price-time priority on the bid side: the best resting buy has the highest price, and
/// of the buys at that price the earliest creation time.
pub proof fn lemma_top_buy_is_best(m: OrdersMempool, i: int)
    requires
        is_top(m.buys(), i, true, None),
    ensures
        forall|j: int| 0 <= j < m.buys().len() ==> {
            &&& (#[trigger] m.buys()[j]).price <= m.buys()[i].price
            &&& (m.buys()[j].price == m.buys()[i].price ==> m.buys()[j].created_at >= m.buys()[i].created_at)
        },
{
    assert forall|j: int| 0 <= j < m.buys().len() implies {
        &&& (#[trigger] m.buys()[j]).price <= m.buys()[i].price
        &&& (m.buys()[j].price == m.buys()[i].price ==> m.buys()[j].created_at >= m.buys()[i].created_at)
    } by {
        if j != i {
            assert(in_scope(m.buys()[j], None));
            assert(!ranks_ahead(m.buys()[j], m.buys()[i], true));
        }
    }
}

/// Price-time priority on the ask side: the best resting sell has the lowest price, and
/// of the sells at that price the earliest creation time.
pub proof fn lemma_top_sell_is_best(m: OrdersMempool, i: int)
    requires
        is_top(m.sells(), i, false, None),
    ensures
        forall|j: int| 0 <= j < m.sells().len() ==> {
            &&& (#[trigger] m.sells()[j]).price >= m.sells()[i].price
            &&& (m.sells()[j].price == m.sells()[i].price ==> m.sells()[j].created_at >= m.sells()[i].created_at)
        },
{
    assert forall|j: int| 0 <= j < m.sells().len() implies {
        &&& (#[trigger] m.sells()[j]).price >= m.sells()[i].price
        &&& (m.sells()[j].price == m.sells()[i].price ==> m.sells()[j].created_at >= m.sells()[i].created_at)
    } by {
        if j != i {
            assert(in_scope(m.sells()[j], None));
            assert(!ranks_ahead(m.sells()[j], m.sells()[i], false));
        }
    }
}

/// Sum of all balances of a snapshot.
pub open spec fn total_balance(s: Seq<User>) -> int
    decreases s.len(),
{
    if s.len() == 0 {
        0
    } else {
        total_balance(s.drop_last()) + s.last().balances
    }
}

proof fn lemma_total_update(s: Seq<User>, i: int, u: User)
    requires
        0 <= i < s.len(),
    ensures
        total_balance(s.update(i, u)) == total_balance(s) - s[i].balances + u.balances,
    decreases s.len(),
{
    let t = s.update(i, u);
    if i < s.len() - 1 {
        assert(t.drop_last() =~= s.drop_last().update(i, u));
        lemma_total_update(s.drop_last(), i, u);
    } else {
        assert(t.drop_last() =~= s.drop_last());
    }
}

/// Balance conservation for one trade: the buyer's credit equals the seller's debit, so
/// a trade that applies leaves the sum of all balances as it was.
pub proof fn lemma_trade_conserves_balance(s: Seq<User>, e: MatchedEntry)
    requires
        apply_trade(s, e) is Some,
    ensures
        total_balance(apply_trade(s, e)->Some_0) == total_balance(s),
{
    reveal(apply_trade);
    let b = crate::replay::user_pos(s, e.buy_order.user_id@);
    let s1 = s.update(b, User { balances: (s[b].balances + e.matched_amount) as u64, ..s[b] });
    lemma_total_update(s, b, User { balances: (s[b].balances + e.matched_amount) as u64, ..s[b] });
    let k = crate::replay::user_pos(s1, e.sell_order.user_id@);
    lemma_total_update(s1, k, User { balances: (s1[k].balances - e.matched_amount) as u64, ..s1[k] });
}

/// Balance conservation for a block: replaying any trade stream that applies leaves the
/// sum of all balances unchanged.
pub proof fn lemma_replay_conserves_balance(s: Seq<User>, es: Seq<MatchedEntry>)
    requires
        apply_all(s, es) is Some,
    ensures
        total_balance(apply_all(s, es)->Some_0) == total_balance(s),
    decreases es.len(),
{
    if es.len() > 0 {
        let t = apply_all(s, es.drop_last())->Some_0;
        lemma_replay_conserves_balance(s, es.drop_last());
        lemma_trade_conserves_balance(t, es.last());
    }
}

/// Balance conservation when a trade settles: what the buyer is credited the seller is
/// debited, on the same token, and no other balance of either account moves.
pub proof fn lemma_settlement_conserves_balance(
    b0: Seq<(String, u64)>,
    s0: Seq<(String, u64)>,
    b1: Seq<(String, u64)>,
    s1: Seq<(String, u64)>,
    t: Seq<char>,
    amount: u64,
)
    requires
        token_balance(b0, t) + amount <= u64::MAX,
        token_balance(s0, t) >= amount,
        set_token(b0, b1, t, (token_balance(b0, t) + amount) as u64),
        set_token(s0, s1, t, (token_balance(s0, t) - amount) as u64),
    ensures
        token_balance(b1, t) + token_balance(s1, t) == token_balance(b0, t) + token_balance(s0, t),
        forall|u: Seq<char>| u != t ==> #[trigger] token_balance(b1, u) == token_balance(b0, u)
            && token_balance(s1, u) == token_balance(s0, u),
{
}

/// Replay determinism: the verdict on a block depends on nothing but the contents of the
/// input (its trades, the claimed digests and the prior balances), so two inputs that
/// agree on them get the same verdict.
pub proof fn lemma_replay_deterministic(a: BlockProofInput, b: BlockProofInput)
    requires
        a.block.logs@ == b.block.logs@,
        a.hash@ == b.hash@,
        a.user_balance_hash@ == b.user_balance_hash@,
        a.previous_user_balance_hash@ == b.previous_user_balance_hash@,
        a.previous_user_balance_state.users@ == b.previous_user_balance_state.users@,
    ensures
        replay_accepts(a) == replay_accepts(b),
{
}

/// No two accounts share an address: the snapshot is a map from address to account.
pub open spec fn distinct_addresses(s: Seq<User>) -> bool {
    forall|i: int, j: int|
        0 <= i < s.len() && 0 <= j < s.len() && i != j ==> (#[trigger] s[i]).address@ != (#[trigger] s[j]).address@
}

/// Accounts in strictly increasing address order.
pub open spec fn address_sorted(s: Seq<User>) -> bool {
    forall|i: int, j: int| 0 <= i < j < s.len() ==> lex_lt((#[trigger] s[i]).address@, (#[trigger] s[j]).address@)
}

proof fn lemma_lex_irrefl(a: Seq<char>)
    ensures
        !lex_lt(a, a),
    decreases a.len(),
{
    if a.len() > 0 {
        lemma_lex_irrefl(a.subrange(1, a.len() as int));
    }
}

proof fn lemma_lex_trans(a: Seq<char>, b: Seq<char>, c: Seq<char>)
    requires
        lex_lt(a, b),
        lex_lt(b, c),
    ensures
        lex_lt(a, c),
    decreases a.len(),
{
    if a.len() > 0 && b.len() > 0 && c.len() > 0 && a[0] == b[0] && b[0] == c[0] {
        lemma_lex_trans(a.subrange(1, a.len() as int), b.subrange(1, b.len() as int), c.subrange(1, c.len() as int));
    }
}

proof fn lemma_lex_total(a: Seq<char>, b: Seq<char>)
    requires
        a != b,
    ensures
        lex_lt(a, b) || lex_lt(b, a),
    decreases a.len(),
{
    if a.len() > 0 && b.len() > 0 && a[0] == b[0] {
        let ta = a.subrange(1, a.len() as int);
        let tb = b.subrange(1, b.len() as int);
        if ta == tb {
            assert(a =~= seq![a[0]] + ta);
            assert(b =~= seq![b[0]] + tb);
        }
        lemma_lex_total(ta, tb);
    } else if a.len() == 0 && b.len() == 0 {
        assert(a =~= b);
    } else if a.len() > 0 && b.len() > 0 {
        vstd::utf8::char_u32_cast(a[0], a[0] as u32);
        vstd::utf8::char_u32_cast(b[0], b[0] as u32);
    }
}

proof fn lemma_min_address_least(s: Seq<User>)
    requires
        s.len() > 0,
    ensures
        forall|i: int| 0 <= i < s.len() ==> !lex_lt((#[trigger] s[i]).address@, min_address(s)),
    decreases s.len(),
{
    if s.len() == 1 {
        lemma_lex_irrefl(s[0].address@);
    } else {
        let d = s.drop_last();
        lemma_min_address_least(d);
        let m = min_address(d);
        assert forall|i: int| 0 <= i < s.len() implies !lex_lt((#[trigger] s[i]).address@, min_address(s)) by {
            if lex_lt(s.last().address@, m) {
                if i < s.len() - 1 {
                    assert(s[i] == d[i]);
                    if lex_lt(s[i].address@, s.last().address@) {
                        lemma_lex_trans(s[i].address@, s.last().address@, m);
                    }
                } else {
                    lemma_lex_irrefl(s.last().address@);
                }
            } else if i < s.len() - 1 {
                assert(s[i] == d[i]);
            }
        }
    }
}

proof fn lemma_filter_keeps_distinct(s: Seq<User>, pred: spec_fn(User) -> bool)
    requires
        distinct_addresses(s),
    ensures
        distinct_addresses(s.filter(pred)),
    decreases s.len(),
{
    reveal(Seq::filter);
    if s.len() > 0 {
        let d = s.drop_last();
        assert forall|i: int, j: int| 0 <= i < d.len() && 0 <= j < d.len() && i != j
            implies (#[trigger] d[i]).address@ != (#[trigger] d[j]).address@ by {
            assert(d[i] == s[i] && d[j] == s[j]);
        }
        lemma_filter_keeps_distinct(d, pred);
        lemma_filter_members(d, pred);
        let f = s.filter(pred);
        let fd = d.filter(pred);
        if pred(s.last()) {
            assert forall|i: int, j: int| 0 <= i < f.len() && 0 <= j < f.len() && i != j
                implies (#[trigger] f[i]).address@ != (#[trigger] f[j]).address@ by {
                if i < fd.len() && j < fd.len() {
                    assert(f[i] == fd[i] && f[j] == fd[j]);
                } else {
                    let k = if i < fd.len() { i } else { j };
                    assert(f[k] == fd[k]);
                    assert(d.contains(fd[k]));
                    let m = choose|m: int| 0 <= m < d.len() && d[m] == fd[k];
                    assert(s[m] == d[m]);
                    assert(s[s.len() - 1] == s.last());
                    assert(f[f.len() - 1] == s.last());
                }
            }
        }
    }
}

proof fn lemma_by_address_sorted(s: Seq<User>)
    requires
        distinct_addresses(s),
    ensures
        address_sorted(by_address(s)),
        forall|x: User| by_address(s).contains(x) <==> s.contains(x),
    decreases s.len(),
{
    if s.len() > 0 {
        let m = min_address(s);
        let keep = |u: User| u.address@ == m;
        let rest = |u: User| u.address@ != m;
        let a = s.filter(keep);
        let b = s.filter(rest);
        lemma_min_address_present(s);
        let i0 = choose|i: int| 0 <= i < s.len() && (#[trigger] s[i]).address@ == m;
        lemma_filter_shrinks(s, rest, i0);
        lemma_filter_keeps_distinct(s, rest);
        lemma_filter_keeps_distinct(s, keep);
        lemma_by_address_sorted(b);
        lemma_min_address_least(s);
        s.lemma_filter_contains(keep, i0);
        let r = by_address(b);
        assert(by_address(s) == a + r);
        assert(a.len() == 1) by {
            assert(a.contains(s[i0]));
            if a.len() > 1 {
                s.lemma_filter_pred(keep, 0);
                s.lemma_filter_pred(keep, 1);
                assert(a[0].address@ == a[1].address@);
            }
        }
        assert forall|x: User| by_address(s).contains(x) <==> s.contains(x) by {
            if s.contains(x) {
                let k = choose|k: int| 0 <= k < s.len() && s[k] == x;
                if x.address@ == m {
                    s.lemma_filter_contains(keep, k);
                    let j = choose|j: int| 0 <= j < a.len() && a[j] == x;
                    assert((a + r)[j] == x);
                } else {
                    s.lemma_filter_contains(rest, k);
                    assert(r.contains(x));
                    let j = choose|j: int| 0 <= j < r.len() && r[j] == x;
                    assert((a + r)[a.len() + j] == x);
                }
            }
            if by_address(s).contains(x) {
                let j = choose|j: int| 0 <= j < (a + r).len() && (a + r)[j] == x;
                if j < a.len() {
                    assert(a.contains(x));
                    s.lemma_filter_contains_rev(keep, x);
                } else {
                    assert(r[j - a.len()] == x);
                    assert(b.contains(x));
                    s.lemma_filter_contains_rev(rest, x);
                }
            }
        }
        assert forall|i: int, j: int| 0 <= i < j < (a + r).len()
            implies lex_lt((#[trigger] (a + r)[i]).address@, (#[trigger] (a + r)[j]).address@) by {
            if i >= 1 {
                assert((a + r)[i] == r[i - 1] && (a + r)[j] == r[j - 1]);
            } else {
                assert((a + r)[0] == a[0]);
                s.lemma_filter_pred(keep, 0);
                let y = (a + r)[j];
                assert(y == r[j - 1]);
                assert(r.contains(y));
                assert(b.contains(y));
                s.lemma_filter_contains_rev(rest, y);
                let k = choose|k: int| 0 <= k < b.len() && b[k] == y;
                s.lemma_filter_pred(rest, k);
                let ks = choose|ks: int| 0 <= ks < s.len() && s[ks] == y;
                assert(!lex_lt(s[ks].address@, m));
                lemma_lex_total(m, y.address@);
            }
        }
    }
}

proof fn lemma_sorted_unique(s1: Seq<User>, s2: Seq<User>)
    requires
        address_sorted(s1),
        address_sorted(s2),
        forall|x: User| s1.contains(x) <==> s2.contains(x),
    ensures
        s1 == s2,
    decreases s1.len(),
{
    if s1.len() == 0 {
        if s2.len() > 0 {
            assert(s2.contains(s2[0]));
        }
        assert(s1 =~= s2);
    } else {
        assert(s1.contains(s1[0]));
        let j = choose|j: int| 0 <= j < s2.len() && s2[j] == s1[0];
        assert(s2.contains(s2[0]));
        let i = choose|i: int| 0 <= i < s1.len() && s1[i] == s2[0];
        if j > 0 {
            if i > 0 {
                assert(lex_lt(s2[0].address@, s2[j].address@));
                assert(lex_lt(s1[0].address@, s1[i].address@));
                lemma_lex_trans(s1[0].address@, s2[0].address@, s1[0].address@);
                lemma_lex_irrefl(s1[0].address@);
            } else {
                lemma_lex_irrefl(s2[0].address@);
            }
        }
        let t1 = s1.subrange(1, s1.len() as int);
        let t2 = s2.subrange(1, s2.len() as int);
        assert forall|x: User| t1.contains(x) <==> t2.contains(x) by {
            if t1.contains(x) {
                let k = choose|k: int| 0 <= k < t1.len() && t1[k] == x;
                assert(s1[k + 1] == x);
                assert(lex_lt(s1[0].address@, x.address@));
                lemma_lex_irrefl(x.address@);
                assert(s2.contains(x));
                let k2 = choose|k2: int| 0 <= k2 < s2.len() && s2[k2] == x;
                assert(k2 != 0);
                assert(t2[k2 - 1] == x);
            }
            if t2.contains(x) {
                let k = choose|k: int| 0 <= k < t2.len() && t2[k] == x;
                assert(s2[k + 1] == x);
                assert(lex_lt(s2[0].address@, x.address@));
                lemma_lex_irrefl(x.address@);
                assert(s1.contains(x));
                let k1 = choose|k1: int| 0 <= k1 < s1.len() && s1[k1] == x;
                assert(k1 != 0);
                assert(t1[k1 - 1] == x);
            }
        }
        assert forall|a: int, b: int| 0 <= a < b < t1.len() implies lex_lt((#[trigger] t1[a]).address@, (#[trigger] t1[b]).address@) by {
            assert(t1[a] == s1[a + 1] && t1[b] == s1[b + 1]);
        }
        assert forall|a: int, b: int| 0 <= a < b < t2.len() implies lex_lt((#[trigger] t2[a]).address@, (#[trigger] t2[b]).address@) by {
            assert(t2[a] == s2[a + 1] && t2[b] == s2[b + 1]);
        }
        lemma_sorted_unique(t1, t2);
        assert(s1 =~= seq![s1[0]] + t1);
        assert(s2 =~= seq![s2[0]] + t2);
    }
}

/// Replay determinism for balance snapshots: two snapshots holding the same accounts,
/// each address once, have the same digest whatever order the accounts are stored in.
pub proof fn lemma_state_hash_order_free(s1: Seq<User>, s2: Seq<User>)
    requires
        distinct_addresses(s1),
        distinct_addresses(s2),
        forall|x: User| s1.contains(x) <==> s2.contains(x),
    ensures
        state_hash(s1) == state_hash(s2),
{
    lemma_by_address_sorted(s1);
    lemma_by_address_sorted(s2);
    assert forall|x: User| by_address(s1).contains(x) <==> by_address(s2).contains(x) by {
        assert(by_address(s1).contains(x) <==> s1.contains(x));
        assert(by_address(s2).contains(x) <==> s2.contains(x));
    }
    lemma_sorted_unique(by_address(s1), by_address(s2));
}

/// A run of build steps: step `k` takes builder `states[k]` to `states[k + 1]`.
pub open spec fn build_run(
    states: Seq<BlockBuilder>,
    pending: Seq<Seq<MatchedEntry>>,
    rests: Seq<Seq<MatchedEntry>>,
    outs: Seq<Option<Block>>,
    times: Seq<u64>,
) -> bool {
    &&& states.len() == outs.len() + 1
    &&& pending.len() == outs.len()
    &&& rests.len() == outs.len()
    &&& times.len() == outs.len()
    &&& forall|k: int|
        0 <= k < outs.len() ==> #[trigger] build_step(states[k], pending[k], states[k + 1], rests[k], outs[k], times[k])
}

proof fn lemma_head_holds(
    states: Seq<BlockBuilder>,
    pending: Seq<Seq<MatchedEntry>>,
    rests: Seq<Seq<MatchedEntry>>,
    outs: Seq<Option<Block>>,
    times: Seq<u64>,
    i: int,
    k: int,
)
    requires
        build_run(states, pending, rests, outs, times),
        0 <= i < k <= outs.len(),
        outs[i] is Some,
        forall|m: int| i < m < k ==> (#[trigger] outs[m]) is None,
    ensures
        states[k].head() == outs[i]->Some_0.id@,
    decreases k - i,
{
    if k == i + 1 {
        assert(build_step(states[i], pending[i], states[i + 1], rests[i], outs[i], times[i]));
    } else {
        lemma_head_holds(states, pending, rests, outs, times, i, k - 1);
        let m = k - 1;
        assert(build_step(states[m], pending[m], states[m + 1], rests[m], outs[m], times[m]));
        assert(outs[m] is None);
    }
}

/// Chain integrity: in any run of the builder, each sealed block's id is the digest of
/// its trades, and the next block sealed names that id as its predecessor.
pub proof fn lemma_chain_integrity(
    states: Seq<BlockBuilder>,
    pending: Seq<Seq<MatchedEntry>>,
    rests: Seq<Seq<MatchedEntry>>,
    outs: Seq<Option<Block>>,
    times: Seq<u64>,
    i: int,
    j: int,
)
    requires
        build_run(states, pending, rests, outs, times),
        0 <= i < j < outs.len(),
        outs[i] is Some,
        outs[j] is Some,
        forall|m: int| i < m < j ==> (#[trigger] outs[m]) is None,
    ensures
        outs[i]->Some_0.id@ == block_hash(outs[i]->Some_0.logs@),
        outs[j]->Some_0.last_block_hash@ == outs[i]->Some_0.id@,
{
    assert(build_step(states[i], pending[i], states[i + 1], rests[i], outs[i], times[i]));
    lemma_head_holds(states, pending, rests, outs, times, i, j);
    assert(build_step(states[j], pending[j], states[j + 1], rests[j], outs[j], times[j]));
}

} // verus!
