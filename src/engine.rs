use vstd::prelude::*;

use crate::matched_logs::{MatchedEntry, MatchedLogs};
use crate::mempool::{OrdersMempool, has_id, is_top, lemma_top_unique, none_in_scope, in_scope};
use crate::order::{Order, OrderStatus, fill_spec};

verus! {

/// Parts per million: the unit of the price tolerance.
pub const PPM: u64 = 1000000;

/// A best bid and a best ask may trade: at equal prices always; when the bid is higher,
/// only while the gap relative to the bid stays within `deviation_ppm` millionths.
pub open spec fn matchable(buy_price: u64, sell_price: u64, deviation_ppm: u64) -> bool {
    buy_price == sell_price || (buy_price > sell_price && (buy_price - sell_price) * PPM
        <= deviation_ppm * buy_price)
}

/// In no pair can the best bid trade with the best ask.
pub open spec fn quiescent(m: OrdersMempool, deviation_ppm: u64) -> bool {
    forall|p: Seq<char>, i: int, j: int|
        #[trigger] is_top(m.buys(), i, true, Some(p)) && #[trigger] is_top(m.sells(), j, false, Some(p))
            ==> !matchable(m.buys()[i].price, m.sells()[j].price, deviation_ppm)
}

/// What a produced match says of itself: a positive amount between a buy and a sell of
/// one pair at prices that may trade, both recorded as filled by it, and at least one
/// of the two filled completely (the amount is the smaller remainder).
pub open spec fn valid_match(m: (Order, Order, u64), deviation_ppm: u64) -> bool {
    &&& m.2 > 0
    &&& matchable(m.0.price, m.1.price, deviation_ppm)
    &&& (m.0.filled_amount == m.0.amount || m.1.filled_amount == m.1.amount)
    &&& m.0.side && !m.1.side
    &&& m.0.pair_id@ == m.1.pair_id@
    &&& m.0.filled_amount <= m.0.amount && m.1.filled_amount <= m.1.amount
    &&& (m.0.status == OrderStatus::Filled <==> m.0.filled_amount == m.0.amount)
    &&& (m.1.status == OrderStatus::Filled <==> m.1.filled_amount == m.1.amount)
}

/// The log grew by exactly the given matches, in the order they were produced.
pub open spec fn logged_in_order(pre: Seq<MatchedEntry>, post: Seq<MatchedEntry>, ms: Seq<(Order, Order, u64)>) -> bool {
    &&& post.len() == pre.len() + ms.len()
    &&& post.take(pre.len() as int) == pre
    &&& forall|k: int|
        0 <= k < ms.len() ==> {
            &&& (#[trigger] post[pre.len() + k]).buy_order == ms[k].0
            &&& post[pre.len() + k].sell_order == ms[k].1
            &&& post[pre.len() + k].matched_amount == ms[k].2
        }
}

/// The pair of the `k`-th resting buy has a best bid and a best ask that may trade.
pub open spec fn match_at(buys: Seq<Order>, sells: Seq<Order>, deviation_ppm: u64, k: int) -> bool {
    &&& 0 <= k < buys.len()
    &&& exists|i: int, j: int|
        #[trigger] is_top(buys, i, true, Some(buys[k].pair_id@)) && #[trigger] is_top(sells, j, false, Some(buys[k].pair_id@))
            && matchable(buys[i].price, sells[j].price, deviation_ppm)
}

/// The first of the first `n` resting buys whose pair can trade, if any.
pub open spec fn first_match(buys: Seq<Order>, sells: Seq<Order>, deviation_ppm: u64, n: nat) -> Option<int>
    decreases n,
{
    if n == 0 {
        None
    } else {
        match first_match(buys, sells, deviation_ppm, (n - 1) as nat) {
            Some(k) => Some(k),
            None => if match_at(buys, sells, deviation_ppm, n - 1) { Some(n - 1) } else { None },
        }
    }
}

/// Position of the best order of a side within a pair.
pub open spec fn top_of(s: Seq<Order>, is_buy: bool, pair: Seq<char>) -> int {
    choose|i: int| is_top(s, i, is_buy, Some(pair))
}

/// The bid and ask the next trade takes: the best of the pair of the earliest resting buy
/// whose pair can trade.
pub open spec fn step_choice(buys: Seq<Order>, sells: Seq<Order>, deviation_ppm: u64) -> Option<(int, int)> {
    match first_match(buys, sells, deviation_ppm, buys.len()) {
        Some(k) => Some((top_of(buys, true, buys[k].pair_id@), top_of(sells, false, buys[k].pair_id@))),
        None => None,
    }
}

/// One trade: the chosen bid and ask trade the smaller of their remainders; a side that
/// is used up leaves its book, a partly filled one is replaced where it stands, and all
/// other resting orders stay as they are. Gives both books after it and the match.
pub open spec fn match_step(buys: Seq<Order>, sells: Seq<Order>, deviation_ppm: u64) -> Option<(Seq<Order>, Seq<Order>, (Order, Order, u64))> {
    match step_choice(buys, sells, deviation_ppm) {
        None => None,
        Some((i, j)) => {
            let rb = buys[i].remaining();
            let rs = sells[j].remaining();
            let q = (if rb <= rs { rb } else { rs }) as u64;
            let b = fill_spec(buys[i], q);
            let s = fill_spec(sells[j], q);
            let nb = if rb <= rs { buys.remove(i) } else { buys.update(i, b) };
            let ns = if rs <= rb { sells.remove(j) } else { sells.update(j, s) };
            Some((nb, ns, (b, s, q)))
        },
    }
}

/// A whole match pass: trades step after step until no pair can trade. Gives both books
/// at the end and the matches in the order made.
pub open spec fn match_pass(buys: Seq<Order>, sells: Seq<Order>, deviation_ppm: u64) -> (Seq<Order>, Seq<Order>, Seq<(Order, Order, u64)>)
    decreases buys.len() + sells.len(),
    via lemma_match_pass_decreases
{
    match match_step(buys, sells, deviation_ppm) {
        None => (buys, sells, Seq::empty()),
        Some((nb, ns, m)) => {
            let (fb, fs, ms) = match_pass(nb, ns, deviation_ppm);
            (fb, fs, seq![m] + ms)
        },
    }
}

pub proof fn lemma_first_match_found(buys: Seq<Order>, sells: Seq<Order>, deviation_ppm: u64, n: nat)
    requires
        first_match(buys, sells, deviation_ppm, n) is Some,
    ensures
        ({
            let k = first_match(buys, sells, deviation_ppm, n)->Some_0;
            0 <= k < n && match_at(buys, sells, deviation_ppm, k)
        }),
    decreases n,
{
    if n > 0 && first_match(buys, sells, deviation_ppm, (n - 1) as nat) is Some {
        lemma_first_match_found(buys, sells, deviation_ppm, (n - 1) as nat);
    }
}

pub proof fn lemma_first_match_stable(buys: Seq<Order>, sells: Seq<Order>, deviation_ppm: u64, k: nat, n: nat)
    requires
        k <= n,
        first_match(buys, sells, deviation_ppm, k) is Some,
    ensures
        first_match(buys, sells, deviation_ppm, n) == first_match(buys, sells, deviation_ppm, k),
    decreases n - k,
{
    if k < n {
        lemma_first_match_stable(buys, sells, deviation_ppm, k, (n - 1) as nat);
    }
}

/// The chosen bid and ask are the best of one pair, and may trade.
pub proof fn lemma_step_choice(buys: Seq<Order>, sells: Seq<Order>, deviation_ppm: u64)
    requires
        step_choice(buys, sells, deviation_ppm) is Some,
    ensures
        ({
            let (i, j) = step_choice(buys, sells, deviation_ppm)->Some_0;
            &&& is_top(buys, i, true, Some(buys[i].pair_id@))
            &&& is_top(sells, j, false, Some(buys[i].pair_id@))
            &&& matchable(buys[i].price, sells[j].price, deviation_ppm)
        }),
{
    lemma_first_match_found(buys, sells, deviation_ppm, buys.len());
    let k = first_match(buys, sells, deviation_ppm, buys.len())->Some_0;
    let p = buys[k].pair_id@;
    let (i0, j0) = choose|i: int, j: int|
        #[trigger] is_top(buys, i, true, Some(p)) && #[trigger] is_top(sells, j, false, Some(p))
            && matchable(buys[i].price, sells[j].price, deviation_ppm);
    let i = top_of(buys, true, p);
    let j = top_of(sells, false, p);
    lemma_top_unique(buys, i, i0, true, Some(p));
    lemma_top_unique(sells, j, j0, false, Some(p));
}

proof fn lemma_step_shrinks(buys: Seq<Order>, sells: Seq<Order>, deviation_ppm: u64)
    requires
        match_step(buys, sells, deviation_ppm) is Some,
    ensures
        ({
            let (nb, ns, m) = match_step(buys, sells, deviation_ppm)->Some_0;
            nb.len() + ns.len() < buys.len() + sells.len()
        }),
{
    lemma_step_choice(buys, sells, deviation_ppm);
}

#[via_fn]
proof fn lemma_match_pass_decreases(buys: Seq<Order>, sells: Seq<Order>, deviation_ppm: u64) {
    if match_step(buys, sells, deviation_ppm) is Some {
        lemma_step_shrinks(buys, sells, deviation_ppm);
    }
}

/// Resting one incoming order: taken, at the back of its side, when its id is new and
/// something of it is left to fill; otherwise both books stay as they are.
pub open spec fn add_spec(buys: Seq<Order>, sells: Seq<Order>, o: Order) -> (Seq<Order>, Seq<Order>, bool) {
    if !has_id(buys, o.id@) && !has_id(sells, o.id@) && o.filled_amount < o.amount {
        if o.side {
            (buys.push(o), sells, true)
        } else {
            (buys, sells.push(o), true)
        }
    } else {
        (buys, sells, false)
    }
}

/// Resting the orders one after another, in list order.
pub open spec fn add_all(buys: Seq<Order>, sells: Seq<Order>, os: Seq<Order>) -> (Seq<Order>, Seq<Order>, Seq<bool>)
    decreases os.len(),
{
    if os.len() == 0 {
        (buys, sells, Seq::empty())
    } else {
        let (b, s, r) = add_all(buys, sells, os.drop_last());
        let (b2, s2, x) = add_spec(b, s, os.last());
        (b2, s2, r.push(x))
    }
}

/// Tests the tolerance rule on concrete prices.
pub fn is_match(buy_price: u64, sell_price: u64, deviation_ppm: u64) -> (r: bool)
    ensures
        r == matchable(buy_price, sell_price, deviation_ppm),
{
    if buy_price == sell_price {
        true
    } else if buy_price > sell_price {
        let gap = (buy_price - sell_price) as u128;
        proof {
            assert(gap * (PPM as u128) <= (u64::MAX as u128) * (PPM as u128)) by (nonlinear_arith)
                requires gap <= u64::MAX;
            assert((deviation_ppm as u128) * (buy_price as u128) <= (u64::MAX as u128) * (u64::MAX as u128)) by (nonlinear_arith);
        }
        gap * (PPM as u128) <= (deviation_ppm as u128) * (buy_price as u128)
    } else {
        false
    }
}

/// Continuous matching over the resting book, under a price tolerance.
pub struct OrderMatchingEngine {
    pub deviation_ppm: u64,
    pub mempool: OrdersMempool,
    pub matched_logs: MatchedLogs,
}

impl OrderMatchingEngine {
    pub open spec fn wf(&self) -> bool {
        self.mempool.wf()
    }

    pub fn new(deviation_ppm: u64, mempool: OrdersMempool, matched_logs: MatchedLogs) -> (r: OrderMatchingEngine)
        ensures
            r == (OrderMatchingEngine { deviation_ppm, mempool, matched_logs }),
    {
        OrderMatchingEngine { deviation_ppm, mempool, matched_logs }
    }

    /// Rests an incoming order; `false` when the book rejects it.
    pub fn add_order(&mut self, order: Order) -> (r: bool)
        requires
            old(self).wf(),
        ensures
            final(self).wf(),
            r == (!old(self).mempool.contains_id(order.id@) && order.filled_amount < order.amount),
            r ==> final(self).mempool.side(order.side) == old(self).mempool.side(order.side).push(order)
                && final(self).mempool.side(!order.side) == old(self).mempool.side(!order.side),
            !r ==> final(self).mempool.buys() == old(self).mempool.buys()
                && final(self).mempool.sells() == old(self).mempool.sells(),
            final(self).deviation_ppm == old(self).deviation_ppm,
            final(self).matched_logs == old(self).matched_logs,
    {
        self.mempool.add_order(order)
    }

    /// Rests incoming orders one after another, in the order given, each as `add_order`
    /// would; reports for each whether it was taken.
    pub fn add_orders(&mut self, orders: Vec<Order>) -> (r: Vec<bool>)
        requires
            old(self).wf(),
        ensures
            final(self).wf(),
            (final(self).mempool.buys(), final(self).mempool.sells(), r@)
                == add_all(old(self).mempool.buys(), old(self).mempool.sells(), orders@),
            final(self).deviation_ppm == old(self).deviation_ppm,
            final(self).matched_logs == old(self).matched_logs,
    {
        let mut r: Vec<bool> = Vec::new();
        let mut k: usize = 0;
        assert(orders@.take(0) =~= Seq::<Order>::empty());
        while k < orders.len()
            invariant
                k <= orders@.len(),
                self.wf(),
                self.deviation_ppm == old(self).deviation_ppm,
                self.matched_logs == old(self).matched_logs,
                (self.mempool.buys(), self.mempool.sells(), r@)
                    == add_all(old(self).mempool.buys(), old(self).mempool.sells(), orders@.take(k as int)),
            decreases orders@.len() - k,
        {
            let o = orders[k].snapshot();
            let ok = self.add_order(o);
            r.push(ok);
            proof {
                assert(orders@.take(k + 1).drop_last() =~= orders@.take(k as int));
                assert(orders@.take(k + 1).last() == orders@[k as int]);
            }
            k = k + 1;
        }
        assert(orders@.take(orders@.len() as int) =~= orders@);
        r
    }

    /// The trades produced so far and not yet taken into a block.
    pub fn get_matched_logs(&self) -> (r: &MatchedLogs)
        ensures
            *r == self.matched_logs,
    {
        &self.matched_logs
    }

    /// Runs a match pass: while some pair's best bid and best ask can trade, trades the
    /// smaller of their remainders, takes filled orders off the book, keeps partly filled
    /// ones in place, and logs the trade. Returns the matches in the order produced.
    pub fn try_match(&mut self) -> (r: Vec<(Order, Order, u64)>)
        requires
            old(self).wf(),
        ensures
            final(self).wf(),
            final(self).deviation_ppm == old(self).deviation_ppm,
            quiescent(final(self).mempool, final(self).deviation_ppm),
            logged_in_order(old(self).matched_logs.entries(), final(self).matched_logs.entries(), r@),
            forall|k: int| 0 <= k < r@.len() ==> valid_match(#[trigger] r@[k], final(self).deviation_ppm),
            (final(self).mempool.buys(), final(self).mempool.sells(), r@)
                == match_pass(old(self).mempool.buys(), old(self).mempool.sells(), old(self).deviation_ppm),
    {
        let mut matches: Vec<(Order, Order, u64)> = Vec::new();
        assert(self.matched_logs.entries().take(self.matched_logs.entries().len() as int)
            =~= self.matched_logs.entries());
        loop
            invariant
                self.wf(),
                self.deviation_ppm == old(self).deviation_ppm,
                logged_in_order(old(self).matched_logs.entries(), self.matched_logs.entries(), matches@),
                forall|k: int| 0 <= k < matches@.len() ==> valid_match(#[trigger] matches@[k], self.deviation_ppm),
                ({
                    let (fb, fs, ms) = match_pass(self.mempool.buys(), self.mempool.sells(), self.deviation_ppm);
                    match_pass(old(self).mempool.buys(), old(self).mempool.sells(), old(self).deviation_ppm)
                        == (fb, fs, matches@ + ms)
                }),
            decreases self.mempool.len(),
        {
            match self.find_match() {
                None => {
                    assert(matches@ + Seq::<(Order, Order, u64)>::empty() =~= matches@);
                    return matches;
                },
                Some((bi, si)) => {
                    let ghost pre = self.matched_logs.entries();
                    let ghost cb = self.mempool.buys();
                    let ghost cs = self.mempool.sells();
                    proof {
                        lemma_step_choice(cb, cs, self.deviation_ppm);
                    }
                    let ghost ms = matches@;
                    let ghost len0 = self.mempool.len();
                    let rb = self.mempool.order_at(true, bi).remaining_amount();
                    let rs = self.mempool.order_at(false, si).remaining_amount();
                    let qty = if rb < rs { rb } else { rs };
                    let b = self.mempool.fill_at(true, bi, qty);
                    let s = self.mempool.fill_at(false, si, qty);
                    self.matched_logs.add_matched_entry(b.snapshot(), s.snapshot(), qty);
                    let m = (b, s, qty);
                    assert(valid_match(m, self.deviation_ppm));
                    matches.push(m);
                    proof {
                        let post = self.matched_logs.entries();
                        let base = old(self).matched_logs.entries();
                        assert(post.take(base.len() as int) =~= pre.take(base.len() as int));
                        assert forall|k: int| 0 <= k < matches@.len() implies {
                            &&& (#[trigger] post[base.len() + k]).buy_order == matches@[k].0
                            &&& post[base.len() + k].sell_order == matches@[k].1
                            &&& post[base.len() + k].matched_amount == matches@[k].2
                        } by {
                            if k < ms.len() {
                                assert(post[base.len() + k] == pre[base.len() + k]);
                            }
                        }
                        assert(self.mempool.len() < len0);
                        let st = match_step(cb, cs, self.deviation_ppm)->Some_0;
                        assert(st.2 == m);
                        assert(self.mempool.buys() == st.0);
                        assert(self.mempool.sells() == st.1);
                        let (fb, fs, rest) = match_pass(st.0, st.1, self.deviation_ppm);
                        assert(match_pass(cb, cs, self.deviation_ppm) == (fb, fs, seq![m] + rest));
                        assert(ms + (seq![m] + rest) =~= matches@ + rest);
                    }
                },
            }
        }
    }

    /// A pair whose best bid and best ask can trade, as positions of the two sides;
    /// `None` when the book is quiescent.
    fn find_match(&self) -> (r: Option<(usize, usize)>)
        requires
            self.wf(),
        ensures
            match r {
                Some((bi, si)) => step_choice(self.mempool.buys(), self.mempool.sells(), self.deviation_ppm)
                    == Some((bi as int, si as int)),
                None => quiescent(self.mempool, self.deviation_ppm)
                    && step_choice(self.mempool.buys(), self.mempool.sells(), self.deviation_ppm) is None,
            },
    {
        let ghost buys = self.mempool.buys();
        let ghost sells = self.mempool.sells();
        let n = self.mempool.num_buys();
        let mut k: usize = 0;
        while k < n
            invariant
                k <= n,
                n == buys.len(),
                buys == self.mempool.buys(),
                sells == self.mempool.sells(),
                first_match(buys, sells, self.deviation_ppm, k as nat) is None,
                forall|k2: int, i: int, j: int|
                    0 <= k2 < k && #[trigger] is_top(buys, i, true, Some(buys[k2].pair_id@))
                        && #[trigger] is_top(sells, j, false, Some(buys[k2].pair_id@))
                        ==> !matchable(buys[i].price, sells[j].price, self.deviation_ppm),
            decreases n - k,
        {
            let pair = self.mempool.order_at(true, k).pair_id.clone();
            let ghost p = pair@;
            assert(in_scope(buys[k as int], Some(p)));
            match self.mempool.top_index_for_pair(true, &pair) {
                Some(bi) => {
                    match self.mempool.top_index_for_pair(false, &pair) {
                        Some(si) => {
                            let bp = self.mempool.order_at(true, bi).price;
                            let sp = self.mempool.order_at(false, si).price;
                            if is_match(bp, sp, self.deviation_ppm) {
                                proof {
                                    assert(match_at(buys, sells, self.deviation_ppm, k as int));
                                    lemma_first_match_stable(buys, sells, self.deviation_ppm, (k + 1) as nat, buys.len());
                                    let c = top_of(buys, true, p);
                                    let d = top_of(sells, false, p);
                                    lemma_top_unique(buys, c, bi as int, true, Some(p));
                                    lemma_top_unique(sells, d, si as int, false, Some(p));
                                }
                                return Some((bi, si));
                            }
                            assert forall|i: int, j: int|
                                #[trigger] is_top(buys, i, true, Some(p)) && #[trigger] is_top(sells, j, false, Some(p))
                                    implies !matchable(buys[i].price, sells[j].price, self.deviation_ppm) by {
                                lemma_top_unique(buys, i, bi as int, true, Some(p));
                                lemma_top_unique(sells, j, si as int, false, Some(p));
                            }
                        },
                        None => {
                            assert forall|i: int, j: int|
                                #[trigger] is_top(buys, i, true, Some(p)) && #[trigger] is_top(sells, j, false, Some(p))
                                    implies !matchable(buys[i].price, sells[j].price, self.deviation_ppm) by {
                                assert(none_in_scope(sells, Some(p)));
                                assert(in_scope(sells[j], Some(p)));
                            }
                        },
                    }
                },
                None => {
                    assert(none_in_scope(buys, Some(p)));
                    assert(false);
                },
            }
            proof {
                assert(!match_at(buys, sells, self.deviation_ppm, k as int));
            }
            k = k + 1;
        }
        assert forall|p: Seq<char>, i: int, j: int|
            #[trigger] is_top(buys, i, true, Some(p)) && #[trigger] is_top(sells, j, false, Some(p))
                implies !matchable(buys[i].price, sells[j].price, self.deviation_ppm) by {
            assert(buys[i].pair_id@ == p);
            assert(is_top(buys, i, true, Some(buys[i].pair_id@)));
        }
        None
    }
}

} // verus!
