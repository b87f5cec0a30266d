use vstd::prelude::*;

use crate::mempool::OrdersMempool;
use crate::order::{Order, OrderStatus};
use crate::user::{User, token_balance, set_token};

verus! {

/// A new order as a client submits it; `side` is `true` for a buy.
pub struct PlaceOrderRequest {
    pub user_id: String,
    pub pair_id: String,
    pub amount: u64,
    pub price: u64,
    pub side: bool,
}

impl PlaceOrderRequest {
    /// The pending order this request asks for, under the id the server assigned.
    pub fn into_order(self, id: String) -> (r: Order)
        ensures
            r.id == id,
            r.user_id == self.user_id,
            r.pair_id == self.pair_id,
            r.amount == self.amount,
            r.price == self.price,
            r.side == self.side,
            r.filled_amount == 0,
            r.status == OrderStatus::Pending,
    {
        Order::new(id, self.user_id, self.pair_id, self.amount, self.price, self.side)
    }
}

/// An order as reported to clients, with its status by name.
pub struct OrderResponse {
    pub id: String,
    pub user_id: String,
    pub pair_id: String,
    pub amount: u64,
    pub filled_amount: u64,
    pub price: u64,
    pub side: bool,
    pub status: String,
    pub created_at: u64,
    pub updated_at: u64,
}

pub open spec fn status_name(s: OrderStatus) -> Seq<char> {
    match s {
        OrderStatus::Pending => "Pending"@,
        OrderStatus::PartiallyFilled => "PartiallyFilled"@,
        OrderStatus::Filled => "Filled"@,
        OrderStatus::Cancelled => "Cancelled"@,
        OrderStatus::Batched => "Batched"@,
        OrderStatus::Settled => "Settled"@,
    }
}

/// The name of a status, as clients see it.
pub fn status_to_string(s: OrderStatus) -> (r: String)
    ensures
        r@ == status_name(s),
{
    match s {
        OrderStatus::Pending => "Pending".to_owned(),
        OrderStatus::PartiallyFilled => "PartiallyFilled".to_owned(),
        OrderStatus::Filled => "Filled".to_owned(),
        OrderStatus::Cancelled => "Cancelled".to_owned(),
        OrderStatus::Batched => "Batched".to_owned(),
        OrderStatus::Settled => "Settled".to_owned(),
    }
}

/// `r` reports order `o`.
pub open spec fn reports(r: OrderResponse, o: Order) -> bool {
    &&& r.id@ == o.id@
    &&& r.user_id@ == o.user_id@
    &&& r.pair_id@ == o.pair_id@
    &&& r.amount == o.amount
    &&& r.filled_amount == o.filled_amount
    &&& r.price == o.price
    &&& r.side == o.side
    &&& r.status@ == status_name(o.status)
    &&& r.created_at == o.created_at
    &&& r.updated_at == o.updated_at
}

impl OrderResponse {
    pub fn from_order(order: &Order) -> (r: OrderResponse)
        ensures
            reports(r, *order),
    {
        OrderResponse {
            id: order.id.clone(),
            user_id: order.user_id.clone(),
            pair_id: order.pair_id.clone(),
            amount: order.amount,
            filled_amount: order.filled_amount,
            price: order.price,
            side: order.side,
            status: status_to_string(order.status),
            created_at: order.created_at,
            updated_at: order.updated_at,
        }
    }
}

/// A listing request: optional pair and side filters, and a page (from 1) of a size.
pub struct GetOrdersQuery {
    pub pair_id: Option<String>,
    pub side: Option<bool>,
    pub page: Option<usize>,
    pub limit: Option<usize>,
}

/// One page of resting orders, with the number that matched the filters.
pub struct GetOrdersResponse {
    pub orders: Vec<OrderResponse>,
    pub total: usize,
    pub page: usize,
    pub limit: usize,
}

pub const DEFAULT_PAGE_SIZE: usize = 10;

pub const MAX_PAGE_SIZE: usize = 100;

/// Page asked for: 1 when absent or zero.
pub open spec fn page_of(q: Option<usize>) -> usize {
    match q {
        Some(p) => if p < 1 { 1 } else { p },
        None => 1,
    }
}

/// Page size asked for: 10 when absent, at most 100.
pub open spec fn limit_of(q: Option<usize>) -> usize {
    match q {
        Some(l) => if l > MAX_PAGE_SIZE { MAX_PAGE_SIZE } else { l },
        None => DEFAULT_PAGE_SIZE,
    }
}

/// Whether a resting order passes the pair filter (an empty or absent pair passes all).
pub open spec fn pair_matches(o: Order, pair: Option<String>) -> bool {
    match pair {
        Some(p) => p@.len() == 0 || o.pair_id@ == p@,
        None => true,
    }
}

/// The resting orders that pass both filters: buys, then sells, each in arrival order.
pub open spec fn listed(m: OrdersMempool, q: GetOrdersQuery) -> Seq<Order> {
    let buys = if q.side != Some(false) { m.buys().filter(|o: Order| pair_matches(o, q.pair_id)) } else { Seq::empty() };
    let sells = if q.side != Some(true) { m.sells().filter(|o: Order| pair_matches(o, q.pair_id)) } else { Seq::empty() };
    buys + sells
}

fn keep_matching(s: &Vec<Order>, pair: &Option<String>, out: &mut Vec<Order>)
    ensures
        final(out)@ == old(out)@ + s@.filter(|o: Order| pair_matches(o, *pair)),
{
    let ghost f = |o: Order| pair_matches(o, *pair);
    let ghost base = out@;
    let mut k: usize = 0;
    proof {
        reveal(Seq::filter);
        assert(s@.take(0).filter(f) =~= Seq::<Order>::empty());
        assert(out@ =~= base + s@.take(0).filter(f));
    }
    while k < s.len()
        invariant
            k <= s@.len(),
            f == (|o: Order| pair_matches(o, *pair)),
            out@ == base + s@.take(k as int).filter(f),
        decreases s@.len() - k,
    {
        proof {
            reveal(Seq::filter);
            assert(s@.take(k + 1).drop_last() =~= s@.take(k as int));
            assert(s@.take(k + 1).last() == s@[k as int]);
        }
        let keep = match pair {
            Some(p) => *p == String::new() || s[k].pair_id == *p,
            None => true,
        };
        proof {
            match pair {
                Some(p) => {
                    assert(p@.len() == 0 <==> p@ =~= Seq::<char>::empty());
                },
                None => {},
            }
        }
        if keep {
            out.push(s[k].snapshot());
            assert(out@ =~= base + s@.take(k + 1).filter(f));
        } else {
            assert(out@ =~= base + s@.take(k + 1).filter(f));
        }
        k = k + 1;
    }
    assert(s@.take(s@.len() as int) =~= s@);
}

/// One page of the resting orders that pass the query's filters. Page and size are
/// normalised first: page at least 1, size 10 when absent and at most 100.
pub fn get_orders(mempool: &OrdersMempool, query: &GetOrdersQuery) -> (r: GetOrdersResponse)
    ensures
        r.page == page_of(query.page),
        r.limit == limit_of(query.limit),
        r.total == listed(*mempool, *query).len(),
        ({
            let start = (r.page - 1) * r.limit;
            let end = if start + r.limit < r.total { start + r.limit } else { r.total as int };
            &&& start >= r.total ==> r.orders@.len() == 0
            &&& start < r.total ==> r.orders@.len() == end - start
                && forall|k: int| 0 <= k < r.orders@.len()
                    ==> reports(#[trigger] r.orders@[k], listed(*mempool, *query)[start + k])
        }),
{
    let page = match query.page {
        Some(p) => if p < 1 { 1 } else { p },
        None => 1,
    };
    let limit = match query.limit {
        Some(l) => if l > MAX_PAGE_SIZE { MAX_PAGE_SIZE } else { l },
        None => DEFAULT_PAGE_SIZE,
    };
    let (buys, sells) = mempool.get_all_orders();
    let mut filtered: Vec<Order> = Vec::new();
    if query.side != Some(false) {
        keep_matching(&buys, &query.pair_id, &mut filtered);
    }
    let ghost after_buys = filtered@;
    if query.side != Some(true) {
        keep_matching(&sells, &query.pair_id, &mut filtered);
    }
    proof {
        assert(filtered@ =~= listed(*mempool, *query));
    }
    let total = filtered.len();
    proof {
        let a = (page - 1) as u128;
        let b = limit as u128;
        assert(a * b <= (usize::MAX as u128) * 100) by (nonlinear_arith)
            requires a <= usize::MAX as u128, b <= 100;
    }
    let start_wide = ((page - 1) as u128) * (limit as u128);
    let mut orders: Vec<OrderResponse> = Vec::new();
    if start_wide < total as u128 {
        let start = start_wide as usize;
        let end = if limit < total - start { start + limit } else { total };
        let mut k: usize = start;
        while k < end
            invariant
                start <= k <= end,
                end <= filtered@.len(),
                orders@.len() == k - start,
                forall|j: int| 0 <= j < orders@.len() ==> reports(#[trigger] orders@[j], filtered@[start + j]),
            decreases end - k,
        {
            orders.push(OrderResponse::from_order(&filtered[k]));
            k = k + 1;
        }
    }
    GetOrdersResponse { orders, total, page, limit }
}

/// A new account as a client asks for it, optionally with starting balances.
pub struct CreateUserRequest {
    pub address: String,
    pub initial_balances: Option<Vec<(String, u64)>>,
}

/// The balance of `t` a list of (token, balance) pairs sets, the later pair winning.
pub open spec fn last_value(s: Seq<(String, u64)>, t: Seq<char>) -> u64
    decreases s.len(),
{
    if s.len() == 0 {
        0
    } else if s.last().0@ == t {
        s.last().1
    } else {
        last_value(s.drop_last(), t)
    }
}

impl CreateUserRequest {
    /// The account this request describes, created now: each listed token at its
    /// balance (a token listed twice takes the later balance), every other at zero.
    pub fn into_user(self) -> (r: User)
        ensures
            r.wf(),
            r.address == self.address,
            forall|t: Seq<char>| #[trigger] r.balance(t) == match self.initial_balances {
                Some(b) => last_value(b@, t),
                None => 0,
            },
    {
        let mut user = User::new(self.address);
        match self.initial_balances {
            Some(b) => {
                let mut k: usize = 0;
                while k < b.len()
                    invariant
                        k <= b@.len(),
                        user.wf(),
                        user.address == self.address,
                        forall|t: Seq<char>| #[trigger] user.balance(t) == last_value(b@.take(k as int), t),
                    decreases b@.len() - k,
                {
                    let ghost pre = user.balances@;
                    let ghost before = user;
                    user.set_balance(b[k].0.clone(), b[k].1);
                    proof {
                        assert(b@.take(k + 1).drop_last() =~= b@.take(k as int));
                        assert(b@.take(k + 1).last() == b@[k as int]);
                        assert forall|t: Seq<char>| #[trigger] user.balance(t) == last_value(b@.take(k + 1), t) by {
                            assert(before.balance(t) == last_value(b@.take(k as int), t));
                            if t != b@[k as int].0@ {
                                assert(token_balance(user.balances@, t) == token_balance(pre, t));
                            }
                        }
                    }
                    k = k + 1;
                }
                assert(b@.take(b@.len() as int) =~= b@);
            },
            None => {},
        }
        user
    }
}

/// A user as reported to clients.
pub struct UserResponse {
    pub address: String,
    pub balances: Vec<(String, u64)>,
    pub created_at: u64,
    pub updated_at: u64,
}

impl UserResponse {
    pub fn from_user(user: &User) -> (r: UserResponse)
        ensures
            r.address == user.address,
            r.balances@ == user.balances@,
            r.created_at == user.created_at,
            r.updated_at == user.updated_at,
    {
        UserResponse {
            address: user.address.clone(),
            balances: user.get_balances(),
            created_at: user.created_at,
            updated_at: user.updated_at,
        }
    }
}

/// A requested change of one balance.
pub struct UpdateBalanceRequest {
    pub token_id: String,
    pub amount: u64,
    pub is_addition: bool,
}

/// The resting orders of one user.
pub struct UserOrdersResponse {
    pub orders: Vec<Order>,
}

impl UserOrdersResponse {
    pub fn from_orders(orders: Vec<Order>) -> (r: UserOrdersResponse)
        ensures
            r.orders == orders,
    {
        UserOrdersResponse { orders }
    }
}

} // verus!
