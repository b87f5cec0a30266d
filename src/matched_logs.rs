use vstd::prelude::*;

use crate::clock::unix_now_secs;
use crate::order::{Order, OrderStatus};

verus! {

/// A completed match: both orders as they stood right after it, and the units traded.
#[derive(Clone, Debug)]
pub struct MatchedEntry {
    pub timestamp: u64,
    pub buy_order: Order,
    pub sell_order: Order,
    pub matched_amount: u64,
}

impl MatchedEntry {
    /// The pair a trade belongs to.
    pub open spec fn pair(&self) -> Seq<char> {
        self.buy_order.pair_id@
    }

    /// A trade of an order against its own mirror image: the same order on the other
    /// side, created at the fixed time 1000, matched in full at time 1000.
    pub fn new(buy_order: Order) -> (r: MatchedEntry)
        ensures
            r.timestamp == 1000,
            r.buy_order == buy_order,
            r.sell_order == (Order {
                side: !buy_order.side,
                filled_amount: 0,
                status: OrderStatus::Pending,
                created_at: 1000,
                updated_at: 1000,
                ..buy_order
            }),
            r.matched_amount == buy_order.amount,
    {
        let sell_order = Order::new_at(
            buy_order.id.clone(),
            buy_order.user_id.clone(),
            buy_order.pair_id.clone(),
            buy_order.amount,
            buy_order.price,
            !buy_order.side,
            1000,
        );
        let matched_amount = buy_order.amount;
        MatchedEntry { timestamp: 1000, buy_order, sell_order, matched_amount }
    }

    /// An exact copy of this entry.
    pub fn snapshot(&self) -> (r: MatchedEntry)
        ensures
            r == *self,
    {
        MatchedEntry {
            timestamp: self.timestamp,
            buy_order: self.buy_order.snapshot(),
            sell_order: self.sell_order.snapshot(),
            matched_amount: self.matched_amount,
        }
    }

    /// The price the trade settles at: that of the resting order, the one created
    /// first; at equal creation times, the buy's.
    pub fn settlement_price(&self) -> (r: u64)
        ensures
            r == settlement_price_of(*self),
    {
        if self.sell_order.created_at < self.buy_order.created_at {
            self.sell_order.price
        } else {
            self.buy_order.price
        }
    }

    pub fn involves_user(&self, user_id: &String) -> (r: bool)
        ensures
            r == entry_involves(*self, user_id@),
    {
        self.buy_order.user_id == *user_id || self.sell_order.user_id == *user_id
    }
}

pub open spec fn settlement_price_of(e: MatchedEntry) -> u64 {
    if e.sell_order.created_at < e.buy_order.created_at {
        e.sell_order.price
    } else {
        e.buy_order.price
    }
}

/// The distinct pairs of the trades, in order of first appearance.
pub open spec fn pair_order(s: Seq<MatchedEntry>) -> Seq<Seq<char>>
    decreases s.len(),
{
    if s.len() == 0 {
        Seq::empty()
    } else {
        let p = pair_order(s.drop_last());
        if p.contains(s.last().pair()) {
            p
        } else {
            p.push(s.last().pair())
        }
    }
}

/// A round-robin drain of at most `room` trades: visiting the pairs in the given order,
/// each visit takes the oldest trades of that pair, up to the room still left. Gives the
/// trades taken, in the order taken, and those left behind, in their order.
pub open spec fn drain(s: Seq<MatchedEntry>, pairs: Seq<Seq<char>>, room: nat) -> (Seq<MatchedEntry>, Seq<MatchedEntry>)
    decreases pairs.len(),
{
    if pairs.len() == 0 {
        (Seq::empty(), s)
    } else {
        let (t0, r0) = drain(s, pairs.drop_last(), room);
        if t0.len() >= room {
            (t0, r0)
        } else {
            let (t1, r1) = take_pair(r0, pairs.last(), (room - t0.len()) as nat);
            (t0 + t1, r1)
        }
    }
}

pub proof fn lemma_take_pair_len(s: Seq<MatchedEntry>, pair: Seq<char>, n: nat)
    ensures
        take_pair(s, pair, n).0.len() <= n,
    decreases s.len(),
{
    if s.len() > 0 {
        lemma_take_pair_len(s.drop_last(), pair, n);
    }
}

pub proof fn lemma_take_pair_bounded(s: Seq<MatchedEntry>, pair: Seq<char>, n: nat)
    ensures
        take_pair(s, pair, n).0.len() <= s.len(),
    decreases s.len(),
{
    if s.len() > 0 {
        lemma_take_pair_bounded(s.drop_last(), pair, n);
    }
}

/// Asking for more trades than wait changes nothing.
pub proof fn lemma_take_pair_saturates(s: Seq<MatchedEntry>, pair: Seq<char>, n: nat, m: nat)
    requires
        n <= m,
        s.len() <= n || n == m,
    ensures
        take_pair(s, pair, n) == take_pair(s, pair, m),
    decreases s.len(),
{
    if s.len() > 0 && n < m {
        lemma_take_pair_saturates(s.drop_last(), pair, n, m);
        lemma_take_pair_bounded(s.drop_last(), pair, n);
    }
}

/// A user's sides of the given trades, in order.
pub open spec fn user_orders(s: Seq<MatchedEntry>, user: Seq<char>) -> Seq<Order>
    decreases s.len(),
{
    if s.len() == 0 {
        Seq::empty()
    } else {
        let e = s.last();
        let buy = if e.buy_order.user_id@ == user { seq![e.buy_order] } else { Seq::empty() };
        let sell = if e.sell_order.user_id@ == user { seq![e.sell_order] } else { Seq::empty() };
        user_orders(s.drop_last(), user) + buy + sell
    }
}

pub open spec fn entry_involves(e: MatchedEntry, user: Seq<char>) -> bool {
    e.buy_order.user_id@ == user || e.sell_order.user_id@ == user
}

/// Splits `s` into the first (up to `n`) trades of `pair`, and everything else, both in
/// their relative order.
pub open spec fn take_pair(s: Seq<MatchedEntry>, pair: Seq<char>, n: nat) -> (Seq<MatchedEntry>, Seq<MatchedEntry>)
    decreases s.len(),
{
    if s.len() == 0 {
        (Seq::empty(), Seq::empty())
    } else {
        let (taken, kept) = take_pair(s.drop_last(), pair, n);
        if s.last().pair() == pair && taken.len() < n {
            (taken.push(s.last()), kept)
        } else {
            (taken, kept.push(s.last()))
        }
    }
}

/// Completed trades waiting to be put into a block, in the order they were produced.
/// Trades of one pair come out oldest first.
pub struct MatchedLogs {
    logs: Vec<MatchedEntry>,
}

impl MatchedLogs {
    /// Every pending trade, in production order.
    pub closed spec fn entries(&self) -> Seq<MatchedEntry> {
        self.logs@
    }

    /// The pending trades of one pair, oldest first.
    pub open spec fn queue(&self, pair: Seq<char>) -> Seq<MatchedEntry> {
        self.entries().filter(|e: MatchedEntry| e.pair() == pair)
    }

    pub fn new() -> (r: MatchedLogs)
        ensures
            r.entries() == Seq::<MatchedEntry>::empty(),
    {
        MatchedLogs { logs: Vec::new() }
    }

    /// Number of pending trades.
    pub fn num_entries(&self) -> (r: usize)
        ensures
            r == self.entries().len(),
    {
        self.logs.len()
    }

    /// Appends a trade, stamped now, behind every earlier one.
    pub fn add_matched_entry(&mut self, buy_order: Order, sell_order: Order, matched_amount: u64)
        ensures
            final(self).entries() == old(self).entries().push(
                MatchedEntry {
                    timestamp: final(self).entries().last().timestamp,
                    buy_order,
                    sell_order,
                    matched_amount,
                },
            ),
    {
        let timestamp = unix_now_secs();
        self.logs.push(MatchedEntry { timestamp, buy_order, sell_order, matched_amount });
    }

    /// Appends a trade as given.
    pub fn push_entry(&mut self, entry: MatchedEntry)
        ensures
            final(self).entries() == old(self).entries().push(entry),
    {
        self.logs.push(entry);
    }

    /// Copies of the pending trades in which a user bought or sold, in production order.
    pub fn get_logs_by_user_id(&self, user_id: &str) -> (r: Vec<MatchedEntry>)
        ensures
            r@ == self.entries().filter(|e: MatchedEntry| entry_involves(e, user_id@)),
    {
        let user = user_id.to_owned();
        let ghost f = |e: MatchedEntry| entry_involves(e, user_id@);
        proof {
            reveal(Seq::filter);
        }
        let mut out: Vec<MatchedEntry> = Vec::new();
        let mut k: usize = 0;
        while k < self.logs.len()
            invariant
                k <= self.logs@.len(),
                user@ == user_id@,
                f == (|e: MatchedEntry| entry_involves(e, user_id@)),
                out@ == self.logs@.take(k as int).filter(f),
            decreases self.logs@.len() - k,
        {
            proof {
                reveal(Seq::filter);
                assert(self.logs@.take(k + 1).drop_last() =~= self.logs@.take(k as int));
                assert(self.logs@.take(k + 1).last() == self.logs@[k as int]);
            }
            if self.logs[k].involves_user(&user) {
                out.push(self.logs[k].snapshot());
            }
            k = k + 1;
        }
        assert(self.logs@.take(self.logs@.len() as int) =~= self.logs@);
        out
    }

    /// The user's orders as recorded in the pending trades, in production order: for
    /// each trade, the buy side if it is theirs, then the sell side if it is theirs.
    pub fn get_orders_by_user_id(&self, user_id: &str) -> (r: Vec<Order>)
        ensures
            r@ == user_orders(self.entries(), user_id@),
    {
        let user = user_id.to_owned();
        let mut out: Vec<Order> = Vec::new();
        let mut k: usize = 0;
        while k < self.logs.len()
            invariant
                k <= self.logs@.len(),
                user@ == user_id@,
                out@ == user_orders(self.logs@.take(k as int), user_id@),
            decreases self.logs@.len() - k,
        {
            assert(self.logs@.take(k + 1).drop_last() =~= self.logs@.take(k as int));
            let e = &self.logs[k];
            let ghost before = out@;
            if e.buy_order.user_id == user {
                out.push(e.buy_order.snapshot());
            }
            if e.sell_order.user_id == user {
                out.push(e.sell_order.snapshot());
            }
            assert(out@ =~= user_orders(self.logs@.take(k + 1), user_id@));
            k = k + 1;
        }
        assert(self.logs@.take(self.logs@.len() as int) =~= self.logs@);
        out
    }

    /// The distinct pairs with pending trades, in order of their oldest pending trade.
    pub fn get_all_pair_ids(&self) -> (r: Vec<String>)
        ensures
            r@.len() == pair_order(self.entries()).len(),
            forall|i: int| 0 <= i < r@.len() ==> (#[trigger] r@[i])@ == pair_order(self.entries())[i],
    {
        let mut ids: Vec<String> = Vec::new();
        let mut k: usize = 0;
        while k < self.logs.len()
            invariant
                k <= self.logs@.len(),
                ids@.len() == pair_order(self.logs@.take(k as int)).len(),
                forall|i: int| 0 <= i < ids@.len() ==> (#[trigger] ids@[i])@ == pair_order(self.logs@.take(k as int))[i],
            decreases self.logs@.len() - k,
        {
            let ghost t = self.logs@.take(k + 1);
            assert(t.drop_last() =~= self.logs@.take(k as int));
            assert(t.last() == self.logs@[k as int]);
            let p = &self.logs[k].buy_order.pair_id;
            let ghost prev = pair_order(self.logs@.take(k as int));
            let mut seen = false;
            let mut j: usize = 0;
            while j < ids.len()
                invariant
                    j <= ids@.len(),
                    ids@.len() == prev.len(),
                    forall|i: int| 0 <= i < ids@.len() ==> (#[trigger] ids@[i])@ == prev[i],
                    seen == exists|i: int| 0 <= i < j && prev[i] == p@,
                decreases ids@.len() - j,
            {
                if ids[j] == *p {
                    seen = true;
                }
                proof {
                    if !seen {
                        assert forall|i: int| 0 <= i < j + 1 implies prev[i] != p@ by {
                            if i == j {
                                assert(ids@[i]@ == prev[i]);
                            }
                        }
                    }
                }
                j = j + 1;
            }
            proof {
                if seen {
                    let i = choose|i: int| 0 <= i < ids@.len() && prev[i] == p@;
                    assert(prev.contains(p@));
                } else {
                    assert(!prev.contains(p@));
                }
            }
            if !seen {
                ids.push(p.clone());
            }
            k = k + 1;
        }
        assert(self.logs@.take(self.logs@.len() as int) =~= self.logs@);
        ids
    }

    /// Removes and returns the oldest `n` trades of a pair (fewer if fewer wait);
    /// `None` when none of that pair waits or `n` is zero. Other trades keep their order.
    pub fn pop_top_n_matched_logs(&mut self, pair_id: &str, n: usize) -> (r: Option<Vec<MatchedEntry>>)
        ensures
            final(self).entries() == take_pair(old(self).entries(), pair_id@, n as nat).1,
            match r {
                Some(v) => v@ == take_pair(old(self).entries(), pair_id@, n as nat).0 && v@.len() > 0,
                None => take_pair(old(self).entries(), pair_id@, n as nat).0.len() == 0,
            },
    {
        let pair = pair_id.to_owned();
        let mut taken: Vec<MatchedEntry> = Vec::new();
        let mut kept: Vec<MatchedEntry> = Vec::new();
        let ghost s = self.logs@;
        let mut k: usize = 0;
        while k < self.logs.len()
            invariant
                k <= self.logs.len(),
                s == self.logs@,
                pair@ == pair_id@,
                (taken@, kept@) == take_pair(s.take(k as int), pair@, n as nat),
            decreases self.logs.len() - k,
        {
            let e = self.logs[k].snapshot();
            assert(s.take(k + 1).drop_last() =~= s.take(k as int));
            if e.buy_order.pair_id == pair && taken.len() < n {
                taken.push(e);
            } else {
                kept.push(e);
            }
            k = k + 1;
        }
        assert(s.take(s.len() as int) =~= s);
        self.logs = kept;
        if taken.len() == 0 {
            None
        } else {
            Some(taken)
        }
    }
}

} // verus!
