use vstd::prelude::*;

use crate::clock::unix_now_secs;

verus! {

/// Lifecycle of an order.
#[derive(Clone, Copy, Debug, PartialEq, Eq, Structural)]
pub enum OrderStatus {
    Pending,
    PartiallyFilled,
    Filled,
    Cancelled,
    Batched,
    Settled,
}

/// A limit order. `side` is `true` for a buy and `false` for a sell.
#[derive(Clone, Debug)]
pub struct Order {
    pub id: String,
    pub user_id: String,
    pub pair_id: String,
    pub amount: u64,
    pub filled_amount: u64,
    pub price: u64,
    pub side: bool,
    pub status: OrderStatus,
    pub created_at: u64,
    pub updated_at: u64,
}

/// Status after a fill: `Filled` exactly when nothing remains, else `PartiallyFilled`.
pub open spec fn status_after_fill(filled: nat, amount: nat) -> OrderStatus {
    if filled >= amount {
        OrderStatus::Filled
    } else {
        OrderStatus::PartiallyFilled
    }
}

/// The order after `qty` more units of it have been matched.
pub open spec fn fill_spec(o: Order, qty: u64) -> Order {
    Order {
        filled_amount: (o.filled_amount + qty) as u64,
        status: status_after_fill((o.filled_amount + qty) as nat, o.amount as nat),
        ..o
    }
}

impl Order {
    /// Fill never exceeds the amount.
    pub open spec fn wf(&self) -> bool {
        self.filled_amount <= self.amount
    }

    pub open spec fn remaining(&self) -> int {
        self.amount - self.filled_amount
    }

    /// A new pending order, created now.
    pub fn new(id: String, user_id: String, pair_id: String, amount: u64, price: u64, side: bool) -> (r: Order)
        ensures
            r.id == id,
            r.user_id == user_id,
            r.pair_id == pair_id,
            r.amount == amount,
            r.price == price,
            r.side == side,
            r.filled_amount == 0,
            r.status == OrderStatus::Pending,
            r.created_at == r.updated_at,
    {
        let now = unix_now_secs();
        Order::new_at(id, user_id, pair_id, amount, price, side, now)
    }

    /// A new pending order created at the given time (seconds since the epoch).
    pub fn new_at(
        id: String,
        user_id: String,
        pair_id: String,
        amount: u64,
        price: u64,
        side: bool,
        now: u64,
    ) -> (r: Order)
        ensures
            r.id == id,
            r.user_id == user_id,
            r.pair_id == pair_id,
            r.amount == amount,
            r.price == price,
            r.side == side,
            r.filled_amount == 0,
            r.status == OrderStatus::Pending,
            r.created_at == now,
            r.updated_at == now,
    {
        Order {
            id,
            user_id,
            pair_id,
            amount,
            filled_amount: 0,
            price,
            side,
            status: OrderStatus::Pending,
            created_at: now,
            updated_at: now,
        }
    }

    /// An exact copy of this order, as stored in a trade record.
    pub fn snapshot(&self) -> (r: Order)
        ensures
            r == *self,
    {
        Order {
            id: self.id.clone(),
            user_id: self.user_id.clone(),
            pair_id: self.pair_id.clone(),
            amount: self.amount,
            filled_amount: self.filled_amount,
            price: self.price,
            side: self.side,
            status: self.status,
            created_at: self.created_at,
            updated_at: self.updated_at,
        }
    }

    /// Sets the status and stamps the update time.
    pub fn set_status(&mut self, status: OrderStatus)
        ensures
            *final(self) == (Order { status, updated_at: final(self).updated_at, ..*old(self) }),
    {
        self.status = status;
        self.updated_at = unix_now_secs();
    }

    pub fn get_status(&self) -> (r: OrderStatus)
        ensures
            r == self.status,
    {
        self.status
    }

    pub fn remaining_amount(&self) -> (r: u64)
        requires
            self.wf(),
        ensures
            r == self.remaining(),
    {
        self.amount - self.filled_amount
    }

    pub fn is_filled(&self) -> (r: bool)
        ensures
            r == (self.filled_amount >= self.amount),
    {
        self.filled_amount >= self.amount
    }

    /// Records `qty` more matched units; the status follows the fill.
    pub fn fill(&mut self, qty: u64)
        requires
            old(self).wf(),
            qty <= old(self).remaining(),
        ensures
            *final(self) == fill_spec(*old(self), qty),
            final(self).wf(),
    {
        self.filled_amount = self.filled_amount + qty;
        if self.filled_amount >= self.amount {
            self.status = OrderStatus::Filled;
        } else {
            self.status = OrderStatus::PartiallyFilled;
        }
    }
}

} // verus!
