use vstd::prelude::*;

use crate::order::{fill_spec, Order};

verus! {

/// Price-time priority: `a` ranks strictly ahead of `b` on the given side.
/// Buys prefer the higher price, sells the lower; equal prices go to the earlier order.
pub open spec fn ranks_ahead(a: Order, b: Order, is_buy: bool) -> bool {
    if a.price == b.price {
        a.created_at < b.created_at
    } else if is_buy {
        a.price > b.price
    } else {
        a.price < b.price
    }
}

/// Whether an order takes part in a scan restricted to `pair` (`None`: every pair).
pub open spec fn in_scope(o: Order, pair: Option<Seq<char>>) -> bool {
    match pair {
        Some(p) => o.pair_id@ == p,
        None => true,
    }
}

/// `i` is the best order of `s` in scope: nothing in scope ranks ahead of it, and it
/// ranks ahead of every order in scope that arrived before it (arrival breaks full ties).
pub open spec fn is_top(s: Seq<Order>, i: int, is_buy: bool, pair: Option<Seq<char>>) -> bool {
    &&& 0 <= i < s.len()
    &&& in_scope(s[i], pair)
    &&& forall|j: int|
        0 <= j < s.len() && in_scope(s[j], pair) && j != i ==> {
            &&& !ranks_ahead(#[trigger] s[j], s[i], is_buy)
            &&& (j < i ==> ranks_ahead(s[i], s[j], is_buy))
        }
}

/// The scope that an optional pair restriction denotes.
pub open spec fn scope_of(pair: Option<&String>) -> Option<Seq<char>> {
    match pair {
        Some(p) => Some(p@),
        None => None,
    }
}

/// No order of `s` is in scope.
pub open spec fn none_in_scope(s: Seq<Order>, pair: Option<Seq<char>>) -> bool {
    forall|j: int| 0 <= j < s.len() ==> !in_scope(#[trigger] s[j], pair)
}

pub open spec fn has_id(s: Seq<Order>, id: Seq<char>) -> bool {
    exists|j: int| 0 <= j < s.len() && (#[trigger] s[j]).id@ == id
}

/// At most one best order exists.
pub proof fn lemma_top_unique(s: Seq<Order>, i: int, k: int, is_buy: bool, pair: Option<Seq<char>>)
    requires
        is_top(s, i, is_buy, pair),
        is_top(s, k, is_buy, pair),
    ensures
        i == k,
{
    if i < k {
        assert(!ranks_ahead(s[k], s[i], is_buy));
    } else if k < i {
        assert(!ranks_ahead(s[i], s[k], is_buy));
    }
}

/// Index of the best order of `orders` in scope, if any order is in scope.
fn top_index(orders: &Vec<Order>, is_buy: bool, pair: Option<&String>) -> (r: Option<usize>)
    ensures
        match r {
            Some(i) => is_top(orders@, i as int, is_buy, scope_of(pair)),
            None => none_in_scope(orders@, scope_of(pair)),
        },
{
    let ghost scope = scope_of(pair);
    let mut best: Option<usize> = None;
    let mut k: usize = 0;
    while k < orders.len()
        invariant
            k <= orders.len(),
            scope == scope_of(pair),
            match best {
                Some(i) => is_top(orders@.take(k as int), i as int, is_buy, scope),
                None => none_in_scope(orders@.take(k as int), scope),
            },
        decreases orders.len() - k,
    {
        let o = &orders[k];
        let eligible = match pair {
            Some(p) => o.pair_id == *p,
            None => true,
        };
        let ghost prev = orders@.take(k as int);
        let ghost next = orders@.take(k + 1);
        assert(next =~= prev.push(orders@[k as int]));
        if eligible {
            match best {
                Some(i) => {
                    let b = &orders[i];
                    let ahead = if o.price == b.price {
                        o.created_at < b.created_at
                    } else if is_buy {
                        o.price > b.price
                    } else {
                        o.price < b.price
                    };
                    if ahead {
                        best = Some(k);
                        assert forall|j: int|
                            0 <= j < next.len() && in_scope(next[j], scope) && j != k implies {
                                &&& !ranks_ahead(#[trigger] next[j], next[k as int], is_buy)
                                &&& (j < k ==> ranks_ahead(next[k as int], next[j], is_buy))
                            } by {
                            if j != i {
                                assert(prev[j] == next[j]);
                            }
                        }
                    }
                },
                None => {
                    best = Some(k);
                },
            }
        }
        k = k + 1;
    }
    assert(orders@.take(orders.len() as int) =~= orders@);
    best
}

/// The resting orders of every pair, each side kept in arrival order.
pub struct OrdersMempool {
    buy_orders: Vec<Order>,
    sell_orders: Vec<Order>,
}

impl OrdersMempool {
    pub closed spec fn buys(&self) -> Seq<Order> {
        self.buy_orders@
    }

    pub closed spec fn sells(&self) -> Seq<Order> {
        self.sell_orders@
    }

    /// Every resting order is on its own side, unfilled, and has an id of its own.
    pub open spec fn wf(&self) -> bool {
        &&& forall|i: int|
            0 <= i < self.buys().len() ==> {
                &&& (#[trigger] self.buys()[i]).side
                &&& self.buys()[i].filled_amount < self.buys()[i].amount
            }
        &&& forall|i: int|
            0 <= i < self.sells().len() ==> {
                &&& !(#[trigger] self.sells()[i]).side
                &&& self.sells()[i].filled_amount < self.sells()[i].amount
            }
        &&& unique_ids(self.buys())
        &&& unique_ids(self.sells())
        &&& forall|i: int, j: int|
            0 <= i < self.buys().len() && 0 <= j < self.sells().len()
                ==> (#[trigger] self.buys()[i]).id@ != (#[trigger] self.sells()[j]).id@
    }

    pub open spec fn contains_id(&self, id: Seq<char>) -> bool {
        has_id(self.buys(), id) || has_id(self.sells(), id)
    }

    pub open spec fn len(&self) -> nat {
        self.buys().len() + self.sells().len()
    }

    pub fn new() -> (r: OrdersMempool)
        ensures
            r.wf(),
            r.buys() == Seq::<Order>::empty(),
            r.sells() == Seq::<Order>::empty(),
    {
        OrdersMempool { buy_orders: Vec::new(), sell_orders: Vec::new() }
    }

    /// Rests an order on its side, behind those that arrived before it. An order whose
    /// id is already resting, or with nothing left to fill, is rejected (`false`).
    pub fn add_order(&mut self, order: Order) -> (r: bool)
        requires
            old(self).wf(),
        ensures
            final(self).wf(),
            r == (!old(self).contains_id(order.id@) && order.filled_amount < order.amount),
            r && order.side ==> final(self).buys() == old(self).buys().push(order)
                && final(self).sells() == old(self).sells(),
            r && !order.side ==> final(self).sells() == old(self).sells().push(order)
                && final(self).buys() == old(self).buys(),
            !r ==> final(self).buys() == old(self).buys() && final(self).sells() == old(self).sells(),
    {
        if order.filled_amount >= order.amount {
            return false;
        }
        if find_index(&self.buy_orders, &order.id).is_some() || find_index(&self.sell_orders, &order.id).is_some() {
            return false;
        }
        if order.side {
            self.buy_orders.push(order);
        } else {
            self.sell_orders.push(order);
        }
        true
    }

    /// Takes the order with the given id off the book; `false` when none rests.
    pub fn remove_order_by_id(&mut self, order_id: &str) -> (r: bool)
        requires
            old(self).wf(),
        ensures
            final(self).wf(),
            r == old(self).contains_id(order_id@),
            !final(self).contains_id(order_id@),
            r ==> removed_one(old(self).buys(), final(self).buys(), order_id@)
                && final(self).sells() == old(self).sells()
                || removed_one(old(self).sells(), final(self).sells(), order_id@)
                && final(self).buys() == old(self).buys(),
            !r ==> final(self).buys() == old(self).buys() && final(self).sells() == old(self).sells(),
    {
        let id = order_id.to_owned();
        self.remove_order(id)
    }

    /// As `remove_order_by_id`, with an owned id.
    pub fn remove_order(&mut self, order_id: String) -> (r: bool)
        requires
            old(self).wf(),
        ensures
            final(self).wf(),
            r == old(self).contains_id(order_id@),
            !final(self).contains_id(order_id@),
            r ==> removed_one(old(self).buys(), final(self).buys(), order_id@)
                && final(self).sells() == old(self).sells()
                || removed_one(old(self).sells(), final(self).sells(), order_id@)
                && final(self).buys() == old(self).buys(),
            !r ==> final(self).buys() == old(self).buys() && final(self).sells() == old(self).sells(),
    {
        match find_index(&self.buy_orders, &order_id) {
            Some(i) => {
                self.buy_orders.remove(i);
                proof { lemma_remove_keeps_unique(old(self).buys(), i as int); }
                return true;
            },
            None => {},
        }
        match find_index(&self.sell_orders, &order_id) {
            Some(i) => {
                self.sell_orders.remove(i);
                proof { lemma_remove_keeps_unique(old(self).sells(), i as int); }
                true
            },
            None => false,
        }
    }
}

impl OrdersMempool {
    /// The best resting buy: highest price, then earliest creation, then earliest arrival.
    pub fn get_top_buy_order(&self) -> (r: Option<&Order>)
        ensures
            match r {
                Some(o) => exists|i: int| is_top(self.buys(), i, true, None) && self.buys()[i] == *o,
                None => self.buys().len() == 0,
            },
    {
        match top_index(&self.buy_orders, true, None) {
            Some(i) => {
                assert(scope_of(None::<&String>) == None::<Seq<char>>);
                assert(is_top(self.buys(), i as int, true, None));
                Some(&self.buy_orders[i])
            },
            None => {
                assert(scope_of(None::<&String>) == None::<Seq<char>>);
                assert(self.buys().len() > 0 ==> in_scope(self.buys()[0], None));
                None
            },
        }
    }

    /// The best resting sell: lowest price, then earliest creation, then earliest arrival.
    pub fn get_top_sell_order(&self) -> (r: Option<&Order>)
        ensures
            match r {
                Some(o) => exists|i: int| is_top(self.sells(), i, false, None) && self.sells()[i] == *o,
                None => self.sells().len() == 0,
            },
    {
        match top_index(&self.sell_orders, false, None) {
            Some(i) => {
                assert(scope_of(None::<&String>) == None::<Seq<char>>);
                assert(is_top(self.sells(), i as int, false, None));
                Some(&self.sell_orders[i])
            },
            None => {
                assert(scope_of(None::<&String>) == None::<Seq<char>>);
                assert(self.sells().len() > 0 ==> in_scope(self.sells()[0], None));
                None
            },
        }
    }

    /// Position of the best resting order of one side within one pair.
    pub fn top_index_for_pair(&self, is_buy: bool, pair_id: &String) -> (r: Option<usize>)
        ensures
            match r {
                Some(i) => is_top(self.side(is_buy), i as int, is_buy, Some(pair_id@)),
                None => none_in_scope(self.side(is_buy), Some(pair_id@)),
            },
    {
        if is_buy {
            top_index(&self.buy_orders, true, Some(pair_id))
        } else {
            top_index(&self.sell_orders, false, Some(pair_id))
        }
    }

    pub fn num_buys(&self) -> (r: usize)
        ensures
            r == self.buys().len(),
    {
        self.buy_orders.len()
    }

    pub open spec fn side(&self, is_buy: bool) -> Seq<Order> {
        if is_buy { self.buys() } else { self.sells() }
    }

    /// The resting order at a position of one side.
    pub fn order_at(&self, is_buy: bool, i: usize) -> (r: &Order)
        requires
            i < self.side(is_buy).len(),
        ensures
            *r == self.side(is_buy)[i as int],
    {
        if is_buy { &self.buy_orders[i] } else { &self.sell_orders[i] }
    }

    /// Fills `qty` units of the resting order at position `i` of one side. A filled order
    /// leaves the book; a partly filled one keeps its place. Returns the order as filled.
    pub fn fill_at(&mut self, is_buy: bool, i: usize, qty: u64) -> (r: Order)
        requires
            old(self).wf(),
            i < old(self).side(is_buy).len(),
            0 < qty <= old(self).side(is_buy)[i as int].remaining(),
        ensures
            final(self).wf(),
            r == fill_spec(old(self).side(is_buy)[i as int], qty),
            r.filled_amount == r.amount ==> final(self).side(is_buy) == old(self).side(is_buy).remove(i as int),
            r.filled_amount < r.amount ==> final(self).side(is_buy) == old(self).side(is_buy).update(i as int, r),
            final(self).side(!is_buy) == old(self).side(!is_buy),
            final(self).len() < old(self).len() || r.filled_amount < r.amount,
    {
        let mut o = if is_buy { self.buy_orders[i].snapshot() } else { self.sell_orders[i].snapshot() };
        o.fill(qty);
        let filled = o.is_filled();
        let r = o.snapshot();
        if is_buy {
            if filled {
                self.buy_orders.remove(i);
                proof { lemma_remove_keeps_unique(old(self).buys(), i as int); }
            } else {
                self.buy_orders.set(i, o);
                proof { lemma_update_keeps_ids(old(self).buys(), i as int, r); }
            }
        } else {
            if filled {
                self.sell_orders.remove(i);
                proof { lemma_remove_keeps_unique(old(self).sells(), i as int); }
            } else {
                self.sell_orders.set(i, o);
                proof { lemma_update_keeps_ids(old(self).sells(), i as int, r); }
            }
        }
        proof {
            let pre = old(self).side(is_buy);
            let post = self.side(is_buy);
            if filled {
                assert forall|j: int| 0 <= j < post.len() implies pre.contains(#[trigger] post[j]) by {}
            }
        }
        r
    }

    /// Replaces the resting order that carries the same id, keeping its place in line;
    /// when none rests on that side the order is added as `add_order` would.
    pub fn update_order(&mut self, order: Order) -> (r: bool)
        requires
            old(self).wf(),
        ensures
            final(self).wf(),
            (exists|i: int| 0 <= i < old(self).side(order.side).len()
                && (#[trigger] old(self).side(order.side)[i]).id@ == order.id@
                && order.filled_amount < order.amount
                && final(self).side(order.side) == old(self).side(order.side).update(i, order)
                && final(self).side(!order.side) == old(self).side(!order.side)
                && r)
            || (!has_id(old(self).side(order.side), order.id@)
                && r == (!old(self).contains_id(order.id@) && order.filled_amount < order.amount)
                && (r ==> final(self).side(order.side) == old(self).side(order.side).push(order)
                    && final(self).side(!order.side) == old(self).side(!order.side))
                && (!r ==> final(self).buys() == old(self).buys() && final(self).sells() == old(self).sells()))
            || (order.filled_amount >= order.amount && !r
                && final(self).buys() == old(self).buys() && final(self).sells() == old(self).sells()),
    {
        if order.filled_amount >= order.amount {
            return false;
        }
        let found = if order.side {
            find_index(&self.buy_orders, &order.id)
        } else {
            find_index(&self.sell_orders, &order.id)
        };
        match found {
            Some(i) => {
                let ghost o = order;
                if order.side {
                    self.buy_orders.set(i, order);
                    proof { lemma_update_keeps_ids(old(self).buys(), i as int, o); }
                } else {
                    self.sell_orders.set(i, order);
                    proof { lemma_update_keeps_ids(old(self).sells(), i as int, o); }
                }
                assert(old(self).side(o.side)[i as int].id@ == o.id@);
                true
            },
            None => self.add_order(order),
        }
    }
}

impl OrdersMempool {
    /// Copies of every resting order: the buys, then the sells, each in arrival order.
    pub fn get_all_orders(&self) -> (r: (Vec<Order>, Vec<Order>))
        ensures
            r.0@ == self.buys(),
            r.1@ == self.sells(),
    {
        (copy_orders(&self.buy_orders), copy_orders(&self.sell_orders))
    }

    /// The resting order with the given id.
    pub fn get_order_by_id(&self, order_id: &str) -> (r: Option<&Order>)
        ensures
            match r {
                Some(o) => o.id@ == order_id@ && (self.buys().contains(*o) || self.sells().contains(*o)),
                None => !self.contains_id(order_id@),
            },
    {
        let id = order_id.to_owned();
        match find_index(&self.buy_orders, &id) {
            Some(i) => {
                assert(self.buys()[i as int] == self.buy_orders@[i as int]);
                return Some(&self.buy_orders[i]);
            },
            None => {},
        }
        match find_index(&self.sell_orders, &id) {
            Some(i) => {
                assert(self.sells()[i as int] == self.sell_orders@[i as int]);
                Some(&self.sell_orders[i])
            },
            None => None,
        }
    }

    /// Copies of the resting orders of one user: the buys, then the sells, in arrival order.
    pub fn get_orders_by_user_id(&self, user_id: &str) -> (r: Vec<Order>)
        ensures
            r@ == self.buys().filter(|o: Order| o.user_id@ == user_id@) + self.sells().filter(
                |o: Order| o.user_id@ == user_id@,
            ),
    {
        let user = user_id.to_owned();
        let mut r = orders_of_user(&self.buy_orders, &user);
        let mut sells = orders_of_user(&self.sell_orders, &user);
        r.append(&mut sells);
        r
    }
}

fn copy_orders(s: &Vec<Order>) -> (r: Vec<Order>)
    ensures
        r@ == s@,
{
    let mut out: Vec<Order> = Vec::new();
    let mut k: usize = 0;
    while k < s.len()
        invariant
            k <= s@.len(),
            out@ == s@.take(k as int),
        decreases s@.len() - k,
    {
        out.push(s[k].snapshot());
        assert(out@ =~= s@.take(k + 1));
        k = k + 1;
    }
    assert(s@.take(s@.len() as int) =~= s@);
    out
}

fn orders_of_user(s: &Vec<Order>, user: &String) -> (r: Vec<Order>)
    ensures
        r@ == s@.filter(|o: Order| o.user_id@ == user@),
{
    let ghost f = |o: Order| o.user_id@ == user@;
    proof {
        reveal(Seq::filter);
    }
    let mut out: Vec<Order> = Vec::new();
    let mut k: usize = 0;
    while k < s.len()
        invariant
            k <= s@.len(),
            f == (|o: Order| o.user_id@ == user@),
            out@ == s@.take(k as int).filter(f),
        decreases s@.len() - k,
    {
        proof {
            reveal(Seq::filter);
            assert(s@.take(k + 1).drop_last() =~= s@.take(k as int));
            assert(s@.take(k + 1).last() == s@[k as int]);
        }
        if s[k].user_id == *user {
            out.push(s[k].snapshot());
        }
        k = k + 1;
    }
    assert(s@.take(s@.len() as int) =~= s@);
    out
}

proof fn lemma_update_keeps_ids(s: Seq<Order>, i: int, o: Order)
    requires
        0 <= i < s.len(),
        unique_ids(s),
        o.id@ == s[i].id@,
    ensures
        unique_ids(s.update(i, o)),
        forall|j: int| 0 <= j < s.len() ==> (#[trigger] s.update(i, o)[j]).id@ == s[j].id@,
{
    assert forall|j: int| 0 <= j < s.len() implies (#[trigger] s.update(i, o)[j]).id@ == s[j].id@ by {}
}

/// `post` is `pre` without the one order that carries `id`, the rest in their order.
pub open spec fn removed_one(pre: Seq<Order>, post: Seq<Order>, id: Seq<char>) -> bool {
    exists|i: int| 0 <= i < pre.len() && (#[trigger] pre[i]).id@ == id && post == pre.remove(i)
}

proof fn lemma_remove_keeps_unique(s: Seq<Order>, i: int)
    requires
        0 <= i < s.len(),
        unique_ids(s),
    ensures
        unique_ids(s.remove(i)),
        !has_id(s.remove(i), s[i].id@),
        forall|j: int| 0 <= j < s.remove(i).len() ==> s.contains(#[trigger] s.remove(i)[j]),
{
    let t = s.remove(i);
    assert forall|a: int, b: int| 0 <= a < t.len() && 0 <= b < t.len() && a != b implies (#[trigger] t[a]).id@ != (#[trigger] t[b]).id@ by {
        let a2 = if a < i { a } else { a + 1 };
        let b2 = if b < i { b } else { b + 1 };
        assert(t[a] == s[a2] && t[b] == s[b2]);
    }
    assert forall|j: int| 0 <= j < t.len() implies (#[trigger] t[j]).id@ != s[i].id@ && s.contains(t[j]) by {
        let j2 = if j < i { j } else { j + 1 };
        assert(t[j] == s[j2]);
    }
}

/// Position of the order that carries `id`, if one does.
fn find_index(orders: &Vec<Order>, id: &String) -> (r: Option<usize>)
    ensures
        match r {
            Some(i) => i < orders@.len() && orders@[i as int].id@ == id@,
            None => !has_id(orders@, id@),
        },
{
    let mut k: usize = 0;
    while k < orders.len()
        invariant
            k <= orders.len(),
            forall|j: int| 0 <= j < k ==> (#[trigger] orders@[j]).id@ != id@,
        decreases orders.len() - k,
    {
        if orders[k].id == *id {
            return Some(k);
        }
        k = k + 1;
    }
    None
}

pub open spec fn unique_ids(s: Seq<Order>) -> bool {
    forall|i: int, j: int| 0 <= i < s.len() && 0 <= j < s.len() && i != j ==> (#[trigger] s[i]).id@ != (#[trigger] s[j]).id@
}

} // verus!
