use vstd::prelude::*;

use vstd::utf8::encode_utf8;

use crate::matched_logs::MatchedEntry;
use crate::order::{Order, OrderStatus};

verus! {

/// Big-endian, fixed-width bytes of an integer.
pub open spec fn u64_be(x: u64) -> Seq<u8> {
    seq![
        (x >> 56u64) as u8,
        (x >> 48u64) as u8,
        (x >> 40u64) as u8,
        (x >> 32u64) as u8,
        (x >> 24u64) as u8,
        (x >> 16u64) as u8,
        (x >> 8u64) as u8,
        x as u8,
    ]
}

/// A string as its UTF-8 length followed by its UTF-8 bytes.
pub open spec fn str_enc(s: Seq<char>) -> Seq<u8> {
    u64_be(encode_utf8(s).len() as u64) + encode_utf8(s)
}

pub open spec fn status_tag(s: OrderStatus) -> u8 {
    match s {
        OrderStatus::Pending => 0,
        OrderStatus::PartiallyFilled => 1,
        OrderStatus::Filled => 2,
        OrderStatus::Cancelled => 3,
        OrderStatus::Batched => 4,
        OrderStatus::Settled => 5,
    }
}

/// Every field of an order, in declaration order.
pub open spec fn order_enc(o: Order) -> Seq<u8> {
    str_enc(o.id@) + str_enc(o.user_id@) + str_enc(o.pair_id@) + u64_be(o.amount) + u64_be(
        o.filled_amount,
    ) + u64_be(o.price) + seq![if o.side { 1u8 } else { 0u8 }, status_tag(o.status)] + u64_be(
        o.created_at,
    ) + u64_be(o.updated_at)
}

pub open spec fn entry_enc(e: MatchedEntry) -> Seq<u8> {
    u64_be(e.timestamp) + order_enc(e.buy_order) + order_enc(e.sell_order) + u64_be(e.matched_amount)
}

/// The trades one after another, in their stored order.
pub open spec fn entries_body(s: Seq<MatchedEntry>) -> Seq<u8>
    decreases s.len(),
{
    if s.len() == 0 {
        Seq::empty()
    } else {
        entries_body(s.drop_last()) + entry_enc(s.last())
    }
}

/// Canonical bytes of a trade sequence: its count, then each trade.
pub open spec fn entries_enc(s: Seq<MatchedEntry>) -> Seq<u8> {
    u64_be(s.len() as u64) + entries_body(s)
}

pub fn push_u64(out: &mut Vec<u8>, x: u64)
    ensures
        final(out)@ == old(out)@ + u64_be(x),
{
    out.push((x >> 56u64) as u8);
    out.push((x >> 48u64) as u8);
    out.push((x >> 40u64) as u8);
    out.push((x >> 32u64) as u8);
    out.push((x >> 24u64) as u8);
    out.push((x >> 16u64) as u8);
    out.push((x >> 8u64) as u8);
    out.push(x as u8);
    assert(out@ =~= old(out)@ + u64_be(x));
}

pub fn push_str(out: &mut Vec<u8>, s: &String)
    ensures
        final(out)@ == old(out)@ + str_enc(s@),
{
    let b = s.as_str().as_bytes();
    push_u64(out, b.len() as u64);
    let ghost mid = out@;
    let mut k: usize = 0;
    while k < b.len()
        invariant
            k <= b@.len(),
            b@ == encode_utf8(s@),
            out@ == mid + b@.take(k as int),
        decreases b@.len() - k,
    {
        out.push(b[k]);
        assert(b@.take(k + 1) =~= b@.take(k as int).push(b@[k as int]));
        k = k + 1;
    }
    assert(b@.take(b@.len() as int) =~= b@);
    assert(out@ =~= old(out)@ + str_enc(s@));
}

fn status_byte(s: OrderStatus) -> (r: u8)
    ensures
        r == status_tag(s),
{
    match s {
        OrderStatus::Pending => 0,
        OrderStatus::PartiallyFilled => 1,
        OrderStatus::Filled => 2,
        OrderStatus::Cancelled => 3,
        OrderStatus::Batched => 4,
        OrderStatus::Settled => 5,
    }
}

pub fn push_order(out: &mut Vec<u8>, o: &Order)
    ensures
        final(out)@ == old(out)@ + order_enc(*o),
{
    push_str(out, &o.id);
    push_str(out, &o.user_id);
    push_str(out, &o.pair_id);
    push_u64(out, o.amount);
    push_u64(out, o.filled_amount);
    push_u64(out, o.price);
    out.push(if o.side { 1u8 } else { 0u8 });
    out.push(status_byte(o.status));
    push_u64(out, o.created_at);
    push_u64(out, o.updated_at);
    assert(out@ =~= old(out)@ + order_enc(*o));
}

pub fn push_entry(out: &mut Vec<u8>, e: &MatchedEntry)
    ensures
        final(out)@ == old(out)@ + entry_enc(*e),
{
    push_u64(out, e.timestamp);
    push_order(out, &e.buy_order);
    push_order(out, &e.sell_order);
    push_u64(out, e.matched_amount);
    assert(out@ =~= old(out)@ + entry_enc(*e));
}

/// The canonical bytes of a trade sequence.
pub fn encode_entries(s: &Vec<MatchedEntry>) -> (r: Vec<u8>)
    ensures
        r@ == entries_enc(s@),
{
    let mut out: Vec<u8> = Vec::new();
    push_u64(&mut out, s.len() as u64);
    let ghost head = out@;
    let mut k: usize = 0;
    while k < s.len()
        invariant
            k <= s@.len(),
            head == u64_be(s@.len() as u64),
            out@ == head + entries_body(s@.take(k as int)),
        decreases s@.len() - k,
    {
        push_entry(&mut out, &s[k]);
        assert(s@.take(k + 1).drop_last() =~= s@.take(k as int));
        assert(out@ =~= head + entries_body(s@.take(k + 1)));
        k = k + 1;
    }
    assert(s@.take(s@.len() as int) =~= s@);
    out
}

} // verus!
