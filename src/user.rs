use vstd::prelude::*;

use crate::clock::unix_now_secs;

verus! {

/// Token balances keyed by token id, each token listed once.
pub open spec fn unique_tokens(s: Seq<(String, u64)>) -> bool {
    forall|i: int, j: int|
        0 <= i < s.len() && 0 <= j < s.len() && i != j ==> (#[trigger] s[i]).0@ != (#[trigger] s[j]).0@
}

pub open spec fn lists_token(s: Seq<(String, u64)>, t: Seq<char>, i: int) -> bool {
    0 <= i < s.len() && s[i].0@ == t
}

/// The balance held of token `t`; zero for a token not listed.
pub open spec fn token_balance(s: Seq<(String, u64)>, t: Seq<char>) -> u64 {
    if exists|i: int| lists_token(s, t, i) {
        s[choose|i: int| lists_token(s, t, i)].1
    } else {
        0
    }
}

/// Position of token `t` in the list, if listed.
fn find_token(s: &Vec<(String, u64)>, t: &String) -> (r: Option<usize>)
    requires
        unique_tokens(s@),
    ensures
        match r {
            Some(i) => lists_token(s@, t@, i as int) && token_balance(s@, t@) == s@[i as int].1,
            None => !(exists|i: int| lists_token(s@, t@, i)) && token_balance(s@, t@) == 0,
        },
{
    let mut k: usize = 0;
    while k < s.len()
        invariant
            k <= s@.len(),
            unique_tokens(s@),
            forall|j: int| 0 <= j < k ==> (#[trigger] s@[j]).0@ != t@,
        decreases s@.len() - k,
    {
        if s[k].0 == *t {
            proof {
                assert(lists_token(s@, t@, k as int));
                let c = choose|i: int| lists_token(s@, t@, i);
                assert(lists_token(s@, t@, c));
                assert(s@[c].0@ == s@[k as int].0@);
                assert(c == k);
            }
            return Some(k);
        }
        k = k + 1;
    }
    None
}

/// After setting token `t` to `v`, every balance is as before but that of `t`.
pub open spec fn set_token(pre: Seq<(String, u64)>, post: Seq<(String, u64)>, t: Seq<char>, v: u64) -> bool {
    &&& unique_tokens(post)
    &&& token_balance(post, t) == v
    &&& forall|u: Seq<char>| u != t ==> #[trigger] token_balance(post, u) == token_balance(pre, u)
}

/// Rewriting the balance of token `t` in place, or listing it at the end, leaves the
/// balance of every other token as it was.
proof fn lemma_other_tokens_kept(pre: Seq<(String, u64)>, post: Seq<(String, u64)>, t: Seq<char>)
    requires
        pre.len() <= post.len(),
        forall|j: int| 0 <= j < pre.len() ==> (#[trigger] post[j]).0@ == pre[j].0@ && (pre[j].0@ != t ==> post[j] == pre[j]),
        forall|j: int| pre.len() <= j < post.len() ==> (#[trigger] post[j]).0@ == t,
        unique_tokens(pre),
        unique_tokens(post),
    ensures
        forall|u: Seq<char>| u != t ==> #[trigger] token_balance(post, u) == token_balance(pre, u),
{
    assert forall|u: Seq<char>| u != t implies #[trigger] token_balance(post, u) == token_balance(pre, u) by {
        if exists|j: int| lists_token(pre, u, j) {
            let j = choose|j: int| lists_token(pre, u, j);
            assert(lists_token(post, u, j));
            let c2 = choose|j2: int| lists_token(post, u, j2);
            assert(post[c2].0@ == post[j].0@);
            assert(c2 == j);
        } else {
            assert forall|j: int| !lists_token(post, u, j) by {
                if lists_token(post, u, j) && j < pre.len() {
                    assert(lists_token(pre, u, j));
                }
            }
        }
    }
}

/// Sets the balance of token `t` in place, listing the token if it was not.
fn put_token(s: &mut Vec<(String, u64)>, t: String, v: u64)
    requires
        unique_tokens(old(s)@),
    ensures
        set_token(old(s)@, final(s)@, t@, v),
{
    match find_token(s, &t) {
        Some(i) => {
            let ghost tv = t@;
            s.set(i, (t, v));
            proof {
                let pre = old(s)@;
                let post = s@;
                assert(unique_tokens(post)) by {
                    assert forall|a: int, b: int| 0 <= a < post.len() && 0 <= b < post.len() && a != b
                        implies (#[trigger] post[a]).0@ != (#[trigger] post[b]).0@ by {
                        assert(pre[a].0@ == post[a].0@ && pre[b].0@ == post[b].0@);
                    }
                }
                assert(lists_token(post, tv, i as int));
                let c = choose|j: int| lists_token(post, tv, j);
                assert(c == i);
                lemma_other_tokens_kept(pre, post, tv);
            }
        },
        None => {
            let ghost tv = t@;
            s.push((t, v));
            proof {
                let pre = old(s)@;
                let post = s@;
                let n = pre.len() as int;
                assert(unique_tokens(post)) by {
                    assert forall|a: int, b: int| 0 <= a < post.len() && 0 <= b < post.len() && a != b
                        implies (#[trigger] post[a]).0@ != (#[trigger] post[b]).0@ by {
                        if a < n && b < n {
                            assert(pre[a] == post[a] && pre[b] == post[b]);
                        } else if a < n {
                            assert(!lists_token(pre, tv, a));
                        } else if b < n {
                            assert(!lists_token(pre, tv, b));
                        }
                    }
                }
                assert(lists_token(post, tv, n));
                let c = choose|j: int| lists_token(post, tv, j);
                assert(c == n);
                lemma_other_tokens_kept(pre, post, tv);
            }
        },
    }
}

/// An account of the exchange with its balances of each token.
#[derive(Clone, Debug)]
pub struct User {
    pub address: String,
    pub balances: Vec<(String, u64)>,
    pub created_at: u64,
    pub updated_at: u64,
}

/// Why a requested balance change was refused.
#[derive(Clone, Copy, Debug, PartialEq, Eq, Structural)]
pub enum BalanceError {
    /// A debit larger than the balance.
    Insufficient,
    /// A credit past the largest representable balance.
    Overflow,
}

impl User {
    /// Each token is listed once.
    pub open spec fn wf(&self) -> bool {
        unique_tokens(self.balances@)
    }

    /// The token is listed among the balances.
    pub open spec fn holds(&self, t: Seq<char>) -> bool {
        exists|i: int| lists_token(self.balances@, t, i)
    }

    pub open spec fn balance(&self, t: Seq<char>) -> u64 {
        token_balance(self.balances@, t)
    }

    /// A new account with no balances, created now.
    pub fn new(address: String) -> (r: User)
        ensures
            r.wf(),
            r.address == address,
            r.balances@.len() == 0,
            forall|t: Seq<char>| #[trigger] r.balance(t) == 0,
            r.created_at == r.updated_at,
    {
        let now = unix_now_secs();
        User { address, balances: Vec::new(), created_at: now, updated_at: now }
    }

    /// A new account holding the given balances, created now.
    pub fn new_with_balances(address: String, balances: Vec<(String, u64)>) -> (r: User)
        requires
            unique_tokens(balances@),
        ensures
            r.wf(),
            r.address == address,
            r.balances == balances,
            r.created_at == r.updated_at,
    {
        let now = unix_now_secs();
        User { address, balances, created_at: now, updated_at: now }
    }

    /// The balance of a token; zero for one never held.
    pub fn get_balance(&self, token_id: &str) -> (r: u64)
        requires
            self.wf(),
        ensures
            r == self.balance(token_id@),
    {
        let t = token_id.to_owned();
        match find_token(&self.balances, &t) {
            Some(i) => self.balances[i].1,
            None => 0,
        }
    }

    /// Sets the balance of a token.
    pub fn set_balance(&mut self, token_id: String, balance: u64)
        requires
            old(self).wf(),
        ensures
            final(self).wf(),
            set_token(old(self).balances@, final(self).balances@, token_id@, balance),
            final(self).address == old(self).address,
            final(self).created_at == old(self).created_at,
    {
        put_token(&mut self.balances, token_id, balance);
        self.updated_at = unix_now_secs();
    }

    /// A copy of every balance.
    pub fn get_balances(&self) -> (r: Vec<(String, u64)>)
        ensures
            r@ == self.balances@,
    {
        let mut out: Vec<(String, u64)> = Vec::new();
        let mut k: usize = 0;
        while k < self.balances.len()
            invariant
                k <= self.balances@.len(),
                out@ == self.balances@.take(k as int),
            decreases self.balances@.len() - k,
        {
            out.push((self.balances[k].0.clone(), self.balances[k].1));
            assert(out@ =~= self.balances@.take(k + 1));
            k = k + 1;
        }
        assert(self.balances@.take(self.balances@.len() as int) =~= self.balances@);
        out
    }

    /// Replaces every balance.
    pub fn set_balances(&mut self, balances: Vec<(String, u64)>)
        requires
            unique_tokens(balances@),
        ensures
            final(self).wf(),
            final(self).balances == balances,
            final(self).address == old(self).address,
            final(self).created_at == old(self).created_at,
    {
        self.balances = balances;
        self.updated_at = unix_now_secs();
    }

    /// Credits a token.
    pub fn add_balance(&mut self, token_id: String, amount: u64)
        requires
            old(self).wf(),
            old(self).balance(token_id@) + amount <= u64::MAX,
        ensures
            final(self).wf(),
            set_token(old(self).balances@, final(self).balances@, token_id@,
                (old(self).balance(token_id@) + amount) as u64),
            final(self).address == old(self).address,
            final(self).created_at == old(self).created_at,
    {
        let cur = self.get_balance(token_id.as_str());
        put_token(&mut self.balances, token_id, cur + amount);
        self.updated_at = unix_now_secs();
    }

    /// Debits a token held, stopping at zero; a token not held is left unlisted.
    pub fn sub_balance(&mut self, token_id: String, amount: u64)
        requires
            old(self).wf(),
        ensures
            final(self).wf(),
            old(self).holds(token_id@) ==> set_token(old(self).balances@, final(self).balances@, token_id@,
                if old(self).balance(token_id@) >= amount { (old(self).balance(token_id@) - amount) as u64 } else { 0 }),
            !old(self).holds(token_id@) ==> final(self).balances@ == old(self).balances@,
            final(self).address == old(self).address,
            final(self).created_at == old(self).created_at,
    {
        match find_token(&self.balances, &token_id) {
            Some(i) => {
                let cur = self.balances[i].1;
                let next = if cur >= amount { cur - amount } else { 0 };
                put_token(&mut self.balances, token_id, next);
            },
            None => {},
        }
        self.updated_at = unix_now_secs();
    }

    /// A requested change of one balance: a credit, or a debit that must be covered.
    /// Refused changes leave the account as it was.
    pub fn update_balance(&mut self, token_id: String, amount: u64, is_addition: bool) -> (r: Result<(), BalanceError>)
        requires
            old(self).wf(),
        ensures
            final(self).wf(),
            is_addition && old(self).balance(token_id@) + amount > u64::MAX ==> r == Err::<(), BalanceError>(BalanceError::Overflow),
            !is_addition && old(self).balance(token_id@) < amount ==> r == Err::<(), BalanceError>(BalanceError::Insufficient),
            (is_addition && old(self).balance(token_id@) + amount <= u64::MAX)
                || (!is_addition && old(self).balance(token_id@) >= amount) ==> r is Ok,
            r is Err ==> *final(self) == *old(self),
            r is Ok ==> set_token(old(self).balances@, final(self).balances@, token_id@,
                if is_addition { (old(self).balance(token_id@) + amount) as u64 } else { (old(self).balance(token_id@) - amount) as u64 }),
            r is Ok ==> final(self).address == old(self).address,
    {
        let cur = self.get_balance(token_id.as_str());
        if is_addition {
            if cur > u64::MAX - amount {
                return Err(BalanceError::Overflow);
            }
            self.add_balance(token_id, amount);
        } else {
            if cur < amount {
                return Err(BalanceError::Insufficient);
            }
            if amount > 0 {
                self.sub_balance(token_id, amount);
            }
        }
        Ok(())
    }

    /// Settles one trade between two distinct accounts on a token: credits the buyer and
    /// debits the seller by `amount`. Refused, with both accounts left as they were, when
    /// the credit would overflow or the seller holds less than `amount`.
    pub fn settle_trade(buyer: &mut User, seller: &mut User, token: &String, amount: u64) -> (r: Result<(), BalanceError>)
        requires
            old(buyer).wf(),
            old(seller).wf(),
        ensures
            final(buyer).wf(),
            final(seller).wf(),
            r is Ok <==> old(buyer).balance(token@) + amount <= u64::MAX && old(seller).balance(token@) >= amount,
            old(buyer).balance(token@) + amount > u64::MAX ==> r == Err::<(), BalanceError>(BalanceError::Overflow),
            old(buyer).balance(token@) + amount <= u64::MAX && old(seller).balance(token@) < amount
                ==> r == Err::<(), BalanceError>(BalanceError::Insufficient),
            r is Err ==> *final(buyer) == *old(buyer) && *final(seller) == *old(seller),
            r is Ok ==> set_token(old(buyer).balances@, final(buyer).balances@, token@, (old(buyer).balance(token@) + amount) as u64),
            r is Ok ==> set_token(old(seller).balances@, final(seller).balances@, token@, (old(seller).balance(token@) - amount) as u64),
            final(buyer).address == old(buyer).address,
            final(seller).address == old(seller).address,
    {
        let b = buyer.get_balance(token.as_str());
        let s = seller.get_balance(token.as_str());
        if b > u64::MAX - amount {
            return Err(BalanceError::Overflow);
        }
        if s < amount {
            return Err(BalanceError::Insufficient);
        }
        buyer.add_balance(token.clone(), amount);
        seller.set_balance(token.clone(), s - amount);
        Ok(())
    }
}

} // verus!
