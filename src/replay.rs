use vstd::prelude::*;

use crate::block::{Block, block_hash};
use crate::canonical::{canonical, canonical_order, lemma_filter_shrinks, lex_less, lex_lt};
use crate::codec::{push_str, push_u64, str_enc, u64_be};
use crate::digest::{md5_hex, md5_hex_digest};
use crate::matched_logs::MatchedEntry;

verus! {

/// An account in a balance snapshot: one balance per address.
#[derive(Clone, Debug)]
pub struct User {
    pub address: String,
    pub balances: u64,
}

impl User {
    pub fn snapshot(&self) -> (r: User)
        ensures
            r == *self,
    {
        User { address: self.address.clone(), balances: self.balances }
    }
}

/// Balances of every known account, in a fixed order.
#[derive(Clone, Debug)]
pub struct UserBalanceState {
    pub users: Vec<User>,
}

/// What the replayer is handed: a sealed block, the claimed digests, and the balance
/// snapshots before and after it.
#[derive(Clone, Debug)]
pub struct BlockProofInput {
    pub block: Block,
    pub hash: String,
    pub user_balance_hash: String,
    pub previous_user_balance_hash: String,
    pub previous_user_balance_state: UserBalanceState,
    pub user_balance_state: UserBalanceState,
}

/// The public values a proof of one block commits to.
pub struct BlockProof {
    pub length: u32,
    pub hash: String,
    pub previous_hash: String,
    pub user_balance_hash: String,
    pub previous_user_balance_hash: String,
}

pub open spec fn user_enc(u: User) -> Seq<u8> {
    str_enc(u.address@) + u64_be(u.balances)
}

pub open spec fn users_body(s: Seq<User>) -> Seq<u8>
    decreases s.len(),
{
    if s.len() == 0 {
        Seq::empty()
    } else {
        users_body(s.drop_last()) + user_enc(s.last())
    }
}

/// Canonical bytes of a balance snapshot: the account count, then each account.
pub open spec fn users_enc(s: Seq<User>) -> Seq<u8> {
    u64_be(s.len() as u64) + users_body(s)
}

/// Digest of a balance snapshot: the canonical bytes of its accounts in address order.
pub open spec fn state_hash(s: Seq<User>) -> Seq<char> {
    md5_hex(users_enc(by_address(s)))
}

/// The smallest address among the accounts (meaningful for a non-empty sequence).
pub open spec fn min_address(s: Seq<User>) -> Seq<char>
    decreases s.len(),
{
    if s.len() <= 1 {
        s[0].address@
    } else {
        let m = min_address(s.drop_last());
        if lex_lt(s.last().address@, m) {
            s.last().address@
        } else {
            m
        }
    }
}

pub proof fn lemma_min_address_present(s: Seq<User>)
    requires
        s.len() > 0,
    ensures
        exists|i: int| 0 <= i < s.len() && (#[trigger] s[i]).address@ == min_address(s),
    decreases s.len(),
{
    if s.len() == 1 {
        assert(s[0].address@ == min_address(s));
    } else {
        lemma_min_address_present(s.drop_last());
        let i = choose|i: int| 0 <= i < s.drop_last().len() && (#[trigger] s.drop_last()[i]).address@ == min_address(s.drop_last());
        assert(s[i] == s.drop_last()[i]);
        assert(s[s.len() - 1] == s.last());
    }
}

/// The accounts in address order: those with the smallest address (in their order), then
/// the rest in address order.
pub open spec fn by_address(s: Seq<User>) -> Seq<User>
    decreases s.len(),
    via lemma_by_address_decreases
{
    if s.len() == 0 {
        s
    } else {
        let a = min_address(s);
        s.filter(|u: User| u.address@ == a) + by_address(s.filter(|u: User| u.address@ != a))
    }
}

#[via_fn]
proof fn lemma_by_address_decreases(s: Seq<User>) {
    if s.len() > 0 {
        let a = min_address(s);
        lemma_min_address_present(s);
        let i = choose|i: int| 0 <= i < s.len() && (#[trigger] s[i]).address@ == a;
        lemma_filter_shrinks(s, |u: User| u.address@ != a, i);
    }
}

/// Canonical bytes of the accounts as stored.
fn encode_users(users: &Vec<User>) -> (r: Vec<u8>)
    ensures
        r@ == users_enc(users@),
{
    let mut out: Vec<u8> = Vec::new();
    push_u64(&mut out, users.len() as u64);
    let ghost head = out@;
    let mut k: usize = 0;
    while k < users.len()
        invariant
            k <= users@.len(),
            head == u64_be(users@.len() as u64),
            out@ == head + users_body(users@.take(k as int)),
        decreases users@.len() - k,
    {
        push_str(&mut out, &users[k].address);
        push_u64(&mut out, users[k].balances);
        assert(users@.take(k + 1).drop_last() =~= users@.take(k as int));
        assert(out@ =~= head + users_body(users@.take(k + 1)));
        k = k + 1;
    }
    assert(users@.take(users@.len() as int) =~= users@);
    out
}

fn smallest_address(s: &Vec<User>) -> (r: String)
    requires
        s@.len() > 0,
    ensures
        r@ == min_address(s@),
{
    let mut m = s[0].address.clone();
    assert(s@.take(1).len() == 1);
    let mut k: usize = 1;
    while k < s.len()
        invariant
            1 <= k <= s@.len(),
            m@ == min_address(s@.take(k as int)),
        decreases s@.len() - k,
    {
        let ghost t = s@.take(k + 1);
        assert(t.drop_last() =~= s@.take(k as int));
        assert(t.last() == s@[k as int]);
        if lex_less(&s[k].address, &m) {
            m = s[k].address.clone();
        }
        k = k + 1;
    }
    assert(s@.take(s@.len() as int) =~= s@);
    m
}

fn split_by_address(s: &Vec<User>, a: &String) -> (r: (Vec<User>, Vec<User>))
    ensures
        r.0@ == s@.filter(|u: User| u.address@ == a@),
        r.1@ == s@.filter(|u: User| u.address@ != a@),
{
    let ghost fs = |u: User| u.address@ == a@;
    let ghost fo = |u: User| u.address@ != a@;
    let mut same: Vec<User> = Vec::new();
    let mut others: Vec<User> = Vec::new();
    let mut k: usize = 0;
    proof {
        reveal(Seq::filter);
    }
    while k < s.len()
        invariant
            k <= s@.len(),
            fs == (|u: User| u.address@ == a@),
            fo == (|u: User| u.address@ != a@),
            same@ == s@.take(k as int).filter(fs),
            others@ == s@.take(k as int).filter(fo),
        decreases s@.len() - k,
    {
        proof {
            reveal(Seq::filter);
            assert(s@.take(k + 1).drop_last() =~= s@.take(k as int));
            assert(s@.take(k + 1).last() == s@[k as int]);
        }
        if s[k].address == *a {
            same.push(s[k].snapshot());
        } else {
            others.push(s[k].snapshot());
        }
        k = k + 1;
    }
    assert(s@.take(s@.len() as int) =~= s@);
    (same, others)
}

/// Copies of the accounts in address order.
pub fn sorted_users(users: &Vec<User>) -> (r: Vec<User>)
    ensures
        r@ == by_address(users@),
{
    let mut out: Vec<User> = Vec::new();
    let mut rest: Vec<User> = Vec::new();
    let mut k: usize = 0;
    while k < users.len()
        invariant
            k <= users@.len(),
            rest@ == users@.take(k as int),
        decreases users@.len() - k,
    {
        rest.push(users[k].snapshot());
        assert(rest@ =~= users@.take(k + 1));
        k = k + 1;
    }
    assert(users@.take(users@.len() as int) =~= users@);
    assert(out@ + by_address(rest@) =~= by_address(users@));
    while rest.len() > 0
        invariant
            out@ + by_address(rest@) == by_address(users@),
        decreases rest@.len(),
    {
        let a = smallest_address(&rest);
        let (same, others) = split_by_address(&rest, &a);
        proof {
            let q = min_address(rest@);
            lemma_min_address_present(rest@);
            let i = choose|i: int| 0 <= i < rest@.len() && (#[trigger] rest@[i]).address@ == q;
            lemma_filter_shrinks(rest@, |u: User| u.address@ != q, i);
            assert((|u: User| u.address@ == a@) =~= (|u: User| u.address@ == q));
            assert((|u: User| u.address@ != a@) =~= (|u: User| u.address@ != q));
            assert(by_address(rest@) == same@ + by_address(others@));
        }
        let ghost before = out@;
        let mut same = same;
        out.append(&mut same);
        assert(out@ + by_address(others@) =~= before + by_address(rest@));
        rest = others;
    }
    assert(by_address(rest@) =~= Seq::<User>::empty());
    assert(out@ =~= by_address(users@));
    out
}

/// `i` is the first account of `s` with address `a`.
pub open spec fn is_first(s: Seq<User>, a: Seq<char>, i: int) -> bool {
    &&& 0 <= i < s.len()
    &&& s[i].address@ == a
    &&& forall|j: int| 0 <= j < i ==> (#[trigger] s[j]).address@ != a
}

/// Position of the first account with address `a`, or -1.
pub open spec fn user_pos(s: Seq<User>, a: Seq<char>) -> int {
    if exists|i: int| is_first(s, a, i) {
        choose|i: int| is_first(s, a, i)
    } else {
        -1
    }
}

/// Credits the buyer and then debits the seller by the matched amount; `None` when an
/// account is missing, a credit would overflow, or a debit would go below zero.
#[verifier::opaque]
pub open spec fn apply_trade(s: Seq<User>, e: MatchedEntry) -> Option<Seq<User>> {
    let b = user_pos(s, e.buy_order.user_id@);
    if b < 0 || s[b].balances + e.matched_amount > u64::MAX {
        None
    } else {
        let s1 = s.update(b, User { balances: (s[b].balances + e.matched_amount) as u64, ..s[b] });
        let k = user_pos(s1, e.sell_order.user_id@);
        if k < 0 || s1[k].balances < e.matched_amount {
            None
        } else {
            Some(s1.update(k, User { balances: (s1[k].balances - e.matched_amount) as u64, ..s1[k] }))
        }
    }
}

/// The trades applied one after another.
pub open spec fn apply_all(s: Seq<User>, es: Seq<MatchedEntry>) -> Option<Seq<User>>
    decreases es.len(),
{
    if es.len() == 0 {
        Some(s)
    } else {
        match apply_all(s, es.drop_last()) {
            Some(t) => apply_trade(t, es.last()),
            None => None,
        }
    }
}

/// Whether a replay succeeds: the digests of the block, of the prior snapshot, and of
/// the snapshot reached by applying the block's trades in canonical order (pairs in
/// lexicographic order, each pair oldest first) equal the claimed ones.
pub open spec fn replay_accepts(input: BlockProofInput) -> bool {
    &&& block_hash(input.block.logs@) == input.hash@
    &&& state_hash(input.previous_user_balance_state.users@) == input.previous_user_balance_hash@
    &&& match apply_all(input.previous_user_balance_state.users@, canonical(input.block.logs@)) {
        Some(t) => state_hash(t) == input.user_balance_hash@,
        None => false,
    }
}

proof fn lemma_first_unique(s: Seq<User>, a: Seq<char>, i: int, k: int)
    requires
        is_first(s, a, i),
        is_first(s, a, k),
    ensures
        i == k,
{
    if i < k {
        assert(s[i].address@ != a);
    } else if k < i {
        assert(s[k].address@ != a);
    }
}

/// An address held by some account has a first holder.
pub proof fn lemma_first_exists(s: Seq<User>, a: Seq<char>, i: int)
    requires
        0 <= i < s.len(),
        s[i].address@ == a,
    ensures
        0 <= user_pos(s, a) < s.len(),
        is_first(s, a, user_pos(s, a)),
    decreases i,
{
    if exists|j: int| 0 <= j < i && (#[trigger] s[j]).address@ == a {
        let j = choose|j: int| 0 <= j < i && (#[trigger] s[j]).address@ == a;
        lemma_first_exists(s, a, j);
    } else {
        assert(is_first(s, a, i));
    }
}

/// A trade whose buyer is also its seller leaves a snapshot unchanged, provided the
/// account exists and the credit fits.
pub proof fn lemma_self_trade_noop(s: Seq<User>, e: MatchedEntry, i: int)
    requires
        0 <= i < s.len(),
        s[i].address@ == e.buy_order.user_id@,
        e.sell_order.user_id@ == e.buy_order.user_id@,
        forall|j: int| 0 <= j < s.len() ==> #[trigger] s[j].balances + e.matched_amount <= u64::MAX,
    ensures
        apply_trade(s, e) == Some(s),
{
    reveal(apply_trade);
    let a = e.buy_order.user_id@;
    lemma_first_exists(s, a, i);
    let b = user_pos(s, a);
    let s1 = s.update(b, User { balances: (s[b].balances + e.matched_amount) as u64, ..s[b] });
    assert(is_first(s1, a, b));
    let k = choose|k: int| is_first(s1, a, k);
    lemma_first_unique(s1, a, k, b);
    assert(user_pos(s1, a) == b);
    assert(s1.update(b, User { balances: (s1[b].balances - e.matched_amount) as u64, ..s1[b] }) =~= s);
}

/// Replaying only self-trades of existing accounts, each credit fitting, changes nothing.
pub proof fn lemma_self_trades_noop(s: Seq<User>, es: Seq<MatchedEntry>)
    requires
        forall|k: int| 0 <= k < es.len() ==> {
            &&& (#[trigger] es[k]).sell_order.user_id@ == es[k].buy_order.user_id@
            &&& exists|i: int| 0 <= i < s.len() && s[i].address@ == es[k].buy_order.user_id@
            &&& forall|j: int| 0 <= j < s.len() ==> #[trigger] s[j].balances + es[k].matched_amount <= u64::MAX
        },
    ensures
        apply_all(s, es) == Some(s),
    decreases es.len(),
{
    if es.len() > 0 {
        let init = es.drop_last();
        assert forall|k: int| 0 <= k < init.len() implies {
            &&& (#[trigger] init[k]).sell_order.user_id@ == init[k].buy_order.user_id@
            &&& exists|i: int| 0 <= i < s.len() && s[i].address@ == init[k].buy_order.user_id@
            &&& forall|j: int| 0 <= j < s.len() ==> #[trigger] s[j].balances + init[k].matched_amount <= u64::MAX
        } by {
            assert(init[k] == es[k]);
        }
        lemma_self_trades_noop(s, init);
        let e = es.last();
        assert(e == es[es.len() - 1]);
        let i = choose|i: int| 0 <= i < s.len() && s[i].address@ == e.buy_order.user_id@;
        lemma_self_trade_noop(s, e, i);
    }
}

/// Position of the first account with the given address.
fn find_user(users: &Vec<User>, address: &String) -> (r: Option<usize>)
    ensures
        match r {
            Some(i) => user_pos(users@, address@) == i,
            None => user_pos(users@, address@) == -1,
        },
{
    let mut k: usize = 0;
    while k < users.len()
        invariant
            k <= users@.len(),
            forall|j: int| 0 <= j < k ==> (#[trigger] users@[j]).address@ != address@,
        decreases users@.len() - k,
    {
        if users[k].address == *address {
            proof {
                assert(is_first(users@, address@, k as int));
                let c = choose|i: int| is_first(users@, address@, i);
                lemma_first_unique(users@, address@, c, k as int);
            }
            return Some(k);
        }
        k = k + 1;
    }
    None
}

impl UserBalanceState {
    /// Digest of the snapshot.
    pub fn hash(&self) -> (r: String)
        ensures
            r@ == state_hash(self.users@),
    {
        md5_hex_digest(&encode_users(&sorted_users(&self.users)))
    }

    pub fn snapshot(&self) -> (r: UserBalanceState)
        ensures
            r.users@ == self.users@,
    {
        let mut users: Vec<User> = Vec::new();
        let mut k: usize = 0;
        while k < self.users.len()
            invariant
                k <= self.users@.len(),
                users@ == self.users@.take(k as int),
            decreases self.users@.len() - k,
        {
            users.push(self.users[k].snapshot());
            assert(users@ =~= self.users@.take(k + 1));
            k = k + 1;
        }
        assert(self.users@.take(self.users@.len() as int) =~= self.users@);
        UserBalanceState { users }
    }

    /// Applies one trade in place; `false` (and the snapshot unchanged in part or whole
    /// is of no further use) when `apply_trade` gives `None`.
    pub fn apply(&mut self, e: &MatchedEntry) -> (r: bool)
        ensures
            r == apply_trade(old(self).users@, *e) is Some,
            r ==> final(self).users@ == apply_trade(old(self).users@, *e)->Some_0,
    {
        reveal(apply_trade);
        let b = match find_user(&self.users, &e.buy_order.user_id) {
            Some(b) => b,
            None => return false,
        };
        let bal = self.users[b].balances;
        if bal > u64::MAX - e.matched_amount {
            return false;
        }
        let credited = User { address: self.users[b].address.clone(), balances: bal + e.matched_amount };
        self.users.set(b, credited);
        let k = match find_user(&self.users, &e.sell_order.user_id) {
            Some(k) => k,
            None => return false,
        };
        let bal2 = self.users[k].balances;
        if bal2 < e.matched_amount {
            return false;
        }
        let debited = User { address: self.users[k].address.clone(), balances: bal2 - e.matched_amount };
        self.users.set(k, debited);
        true
    }
}

/// Replays a block against the prior balance snapshot and checks every claimed digest.
pub fn block_proof(input: BlockProofInput) -> (r: bool)
    ensures
        r == replay_accepts(input),
{
    let computed_hash = input.block.hash();
    if computed_hash != input.hash {
        return false;
    }
    let computed_previous = input.previous_user_balance_state.hash();
    if computed_previous != input.previous_user_balance_hash {
        return false;
    }
    let mut state = input.previous_user_balance_state.snapshot();
    if !replay_trades(&mut state, &canonical_order(&input.block.logs)) {
        return false;
    }
    let computed_new = state.hash();
    computed_new == input.user_balance_hash
}

/// Applies the trades in order to the snapshot; `false` as soon as one fails.
pub fn replay_trades(state: &mut UserBalanceState, logs: &Vec<MatchedEntry>) -> (r: bool)
    ensures
        r == apply_all(old(state).users@, logs@) is Some,
        r ==> final(state).users@ == apply_all(old(state).users@, logs@)->Some_0,
{
    let ghost s0 = state.users@;
    let mut k: usize = 0;
    while k < logs.len()
        invariant
            k <= logs@.len(),
            s0 == old(state).users@,
            apply_all(s0, logs@.take(k as int)) == Some(state.users@),
        decreases logs@.len() - k,
    {
        let ghost before = state.users@;
        let ok = state.apply(&logs[k]);
        proof {
            let t = logs@.take(k + 1);
            assert(t.drop_last() =~= logs@.take(k as int));
            assert(t.last() == logs@[k as int]);
            assert(apply_all(s0, t) == apply_trade(before, logs@[k as int]));
        }
        if !ok {
            proof {
                lemma_apply_all_none_extends(s0, logs@, k + 1);
            }
            return false;
        }
        k = k + 1;
    }
    assert(logs@.take(logs@.len() as int) =~= logs@);
    true
}

/// Once a trade fails, the replay of any longer prefix fails too.
proof fn lemma_apply_all_none_extends(s: Seq<User>, es: Seq<MatchedEntry>, n: int)
    requires
        0 < n <= es.len(),
        apply_all(s, es.take(n)) is None,
    ensures
        apply_all(s, es) is None,
    decreases es.len() - n,
{
    if n < es.len() {
        assert(es.take(n + 1).drop_last() =~= es.take(n));
        lemma_apply_all_none_extends(s, es, n + 1);
    } else {
        assert(es.take(n) =~= es);
    }
}

} // verus!
