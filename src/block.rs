use vstd::prelude::*;

use crate::canonical::{canonical, canonical_order};
use crate::clock::unix_now_secs;
use crate::codec::{encode_entries, entries_enc};
use crate::digest::{md5_hex, md5_hex_digest};
use crate::matched_logs::{MatchedEntry, MatchedLogs, drain, lemma_take_pair_len, lemma_take_pair_saturates, pair_order, take_pair};
use crate::order::{Order, OrderStatus};

verus! {

/// The id of a block holding these trades: the digest of the canonical bytes of the
/// trades in canonical order (pairs in lexicographic order, each pair oldest first).
pub open spec fn block_hash(logs: Seq<MatchedEntry>) -> Seq<char> {
    md5_hex(entries_enc(canonical(logs)))
}

/// A trade with both of its orders marked as batched into a block.
pub open spec fn batch_entry(e: MatchedEntry) -> MatchedEntry {
    MatchedEntry {
        buy_order: Order { status: OrderStatus::Batched, ..e.buy_order },
        sell_order: Order { status: OrderStatus::Batched, ..e.sell_order },
        ..e
    }
}

pub open spec fn batch_all(s: Seq<MatchedEntry>) -> Seq<MatchedEntry> {
    Seq::new(s.len(), |i: int| batch_entry(s[i]))
}

/// A batch of trades, chained to the block before it by that block's id.
#[derive(Clone, Debug)]
pub struct Block {
    pub id: String,
    pub last_block_hash: String,
    pub timestamp: u64,
    pub length: u64,
    pub logs: Vec<MatchedEntry>,
}

impl Block {
    /// `length` counts the trades held.
    pub open spec fn wf(&self) -> bool {
        self.length == self.logs@.len()
    }

    /// An empty block after the one with id `last_block_hash`, stamped now.
    pub fn new(last_block_hash: String) -> (r: Block)
        ensures
            r.wf(),
            r.logs@.len() == 0,
            r.last_block_hash == last_block_hash,
            r.id@ == block_hash(r.logs@),
            r.id@.len() == 32,
    {
        let now = unix_now_secs();
        Block::new_with_entries_at(Vec::new(), last_block_hash, now)
    }

    /// A block holding the given trades, stamped now.
    pub fn new_with_entries(logs: Vec<MatchedEntry>, last_block_hash: String) -> (r: Block)
        ensures
            r.wf(),
            r.logs == logs,
            r.last_block_hash == last_block_hash,
            r.id@ == block_hash(logs@),
            r.id@.len() == 32,
    {
        let now = unix_now_secs();
        Block::new_with_entries_at(logs, last_block_hash, now)
    }

    /// A block holding the given trades, stamped with the given time.
    pub fn new_with_entries_at(logs: Vec<MatchedEntry>, last_block_hash: String, now: u64) -> (r: Block)
        ensures
            r.wf(),
            r.logs == logs,
            r.last_block_hash == last_block_hash,
            r.id@ == block_hash(logs@),
            r.id@.len() == 32,
            r.timestamp == now,
    {
        let id = md5_hex_digest(&encode_entries(&canonical_order(&logs)));
        let length = logs.len() as u64;
        Block { id, last_block_hash, timestamp: now, length, logs }
    }

    /// Digest of the trades held.
    pub fn hash(&self) -> (r: String)
        ensures
            r@ == block_hash(self.logs@),
            r@.len() == 32,
    {
        md5_hex_digest(&encode_entries(&canonical_order(&self.logs)))
    }

    /// Appends a trade.
    pub fn add_entry(&mut self, entry: MatchedEntry)
        requires
            old(self).wf(),
            old(self).length < u64::MAX,
        ensures
            final(self).wf(),
            final(self).logs@ == old(self).logs@.push(entry),
            final(self).id == old(self).id,
            final(self).last_block_hash == old(self).last_block_hash,
            final(self).timestamp == old(self).timestamp,
    {
        self.logs.push(entry);
        self.length = self.length + 1;
    }

    /// Seals the block now: see `finalize_block_at`.
    pub fn finalize_block(&mut self)
        requires
            old(self).wf(),
        ensures
            final(self).wf(),
            final(self).logs@ == batch_all(old(self).logs@),
            final(self).id@ == block_hash(final(self).logs@),
            final(self).last_block_hash == old(self).last_block_hash,
    {
        let now = unix_now_secs();
        self.finalize_block_at(now);
    }

    /// Seals the block: marks every order in it as batched, then sets the id to the
    /// digest of the trades as they now stand, and the timestamp to `now`.
    pub fn finalize_block_at(&mut self, now: u64)
        requires
            old(self).wf(),
        ensures
            final(self).wf(),
            final(self).logs@ == batch_all(old(self).logs@),
            final(self).id@ == block_hash(final(self).logs@),
            final(self).last_block_hash == old(self).last_block_hash,
            final(self).timestamp == now,
    {
        let mut batched: Vec<MatchedEntry> = Vec::new();
        let mut k: usize = 0;
        while k < self.logs.len()
            invariant
                k <= self.logs@.len(),
                self.logs@ == old(self).logs@,
                batched@ == batch_all(self.logs@.take(k as int)),
            decreases self.logs@.len() - k,
        {
            let mut e = self.logs[k].snapshot();
            e.buy_order.status = OrderStatus::Batched;
            e.sell_order.status = OrderStatus::Batched;
            batched.push(e);
            assert(batched@ =~= batch_all(self.logs@.take(k + 1)));
            k = k + 1;
        }
        assert(self.logs@.take(self.logs@.len() as int) =~= self.logs@);
        self.logs = batched;
        self.id = self.hash();
        self.timestamp = now;
    }
}

/// Drains pending trades into blocks bounded in size and in time, sealing each and
/// chaining it to the one before.
pub struct BlockBuilder {
    block_duration: u64,
    block_size: u64,
    block_height: u64,
    last_block_timestamp: u64,
    last_block_hash: String,
    block: Block,
}

impl BlockBuilder {
    pub closed spec fn duration(&self) -> u64 {
        self.block_duration
    }

    pub closed spec fn size(&self) -> u64 {
        self.block_size
    }

    pub closed spec fn height(&self) -> u64 {
        self.block_height
    }

    pub closed spec fn last_timestamp(&self) -> u64 {
        self.last_block_timestamp
    }

    /// The block being filled.
    pub closed spec fn staged(&self) -> Block {
        self.block
    }

    /// Id of the last sealed block: the chain head.
    pub closed spec fn head(&self) -> Seq<char> {
        self.last_block_hash@
    }

    /// The staged block is well formed, within the size bound, and links to the head.
    pub open spec fn wf(&self) -> bool {
        &&& self.staged().wf()
        &&& self.staged().length <= self.size()
        &&& self.staged().last_block_hash@ == self.head()
    }

    /// A builder whose epoch starts now. `block_duration` is in seconds.
    pub fn new(block_duration: u64, block_size: u64, block_height: u64, last_block_hash: String) -> (r: BlockBuilder)
        ensures
            r.wf(),
            r.duration() == block_duration,
            r.size() == block_size,
            r.height() == block_height,
            r.head() == last_block_hash@,
            r.staged().logs@.len() == 0,
    {
        let now = unix_now_secs();
        BlockBuilder::new_at(block_duration, block_size, block_height, last_block_hash, now)
    }

    /// A builder whose epoch starts at `now`.
    pub fn new_at(block_duration: u64, block_size: u64, block_height: u64, last_block_hash: String, now: u64) -> (r: BlockBuilder)
        ensures
            r.wf(),
            r.duration() == block_duration,
            r.size() == block_size,
            r.height() == block_height,
            r.head() == last_block_hash@,
            r.last_timestamp() == now,
            r.staged().logs@.len() == 0,
    {
        let block = Block::new_with_entries_at(Vec::new(), last_block_hash.clone(), now);
        BlockBuilder {
            block_duration,
            block_size,
            block_height,
            last_block_timestamp: now,
            last_block_hash,
            block,
        }
    }

    /// The block being filled.
    pub fn staged_block(&self) -> (r: &Block)
        ensures
            *r == self.staged(),
    {
        &self.block
    }

    pub fn get_block_height(&self) -> (r: u64)
        ensures
            r == self.height(),
    {
        self.block_height
    }

    pub fn get_last_block_hash(&self) -> (r: String)
        ensures
            r@ == self.head(),
    {
        self.last_block_hash.clone()
    }

    /// One build step at the current time: see `build_block_at`.
    pub fn build_block(&mut self, logs: &mut MatchedLogs) -> (r: Option<Block>)
        requires
            old(self).wf(),
            old(self).height() < u64::MAX,
        ensures
            final(self).wf(),
            final(self).size() == old(self).size(),
            final(self).duration() == old(self).duration(),
            exists|now: u64| build_step(*old(self), old(logs).entries(), *final(self), final(logs).entries(), r, now),
    {
        let now = unix_now_secs();
        let r = self.build_block_at(logs, now);
        r
    }

    /// One build step at time `now`. Drains pending trades into the staged block, round
    /// robin over the pairs in order of their oldest pending trade, each visit taking the
    /// oldest trades of that pair up to the room left, until the block is full or nothing
    /// waits. Then, if the epoch has run out (more
    /// than `block_duration` seconds since the last seal) or the block is full, seals
    /// it, hands it back, and stages an empty block after it; an epoch may so close an
    /// empty block. Otherwise the block keeps accumulating and `None` comes back.
    pub fn build_block_at(&mut self, logs: &mut MatchedLogs, now: u64) -> (r: Option<Block>)
        requires
            old(self).wf(),
            old(self).height() < u64::MAX,
        ensures
            final(self).wf(),
            final(self).size() == old(self).size(),
            final(self).duration() == old(self).duration(),
            build_step(*old(self), old(logs).entries(), *final(self), final(logs).entries(), r, now),
    {
        let room = self.block_size - self.block.length;
        let ghost pending = old(logs).entries();
        let ghost ps = pair_order(pending);
        let pairs = logs.get_all_pair_ids();
        let ghost mut taken: Seq<MatchedEntry> = Seq::empty();
        let mut j: usize = 0;
        assert(ps.take(0) =~= Seq::<Seq<char>>::empty());
        while j < pairs.len()
            invariant
                j <= pairs@.len(),
                pairs@.len() == ps.len(),
                forall|i: int| 0 <= i < pairs@.len() ==> (#[trigger] pairs@[i])@ == ps[i],
                (taken, logs.entries()) == drain(pending, ps.take(j as int), room as nat),
                old(self).wf(),
                self.block.length == old(self).block.length + taken.len(),
                self.block.wf(),
                self.block.logs@ == old(self).block.logs@ + taken,
                self.block.last_block_hash == old(self).block.last_block_hash,
                self.block.length <= self.block_size,
                room == self.block_size - old(self).block.length,
                *self == (BlockBuilder { block: self.block, ..*old(self) }),
            decreases pairs@.len() - j,
        {
            let ghost pre_taken = taken;
            let ghost pre_rest = logs.entries();
            proof {
                assert(ps.take(j + 1).drop_last() =~= ps.take(j as int));
                assert(ps.take(j + 1).last() == ps[j as int]);
            }
            let left = self.block_size - self.block.length;
            let ghost tp = take_pair(pre_rest, ps[j as int], left as nat);
            assert(drain(pending, ps.take(j + 1), room as nat) == (if pre_taken.len() >= room {
                (pre_taken, pre_rest)
            } else {
                (pre_taken + tp.0, tp.1)
            }));
            if left > 0 {
                let waiting = logs.num_entries();
                let n = if left as u128 <= waiting as u128 { left as usize } else { waiting };
                proof {
                    lemma_take_pair_saturates(pre_rest, ps[j as int], n as nat, left as nat);
                }
                match logs.pop_top_n_matched_logs(pairs[j].as_str(), n) {
                    Some(got) => {
                        let mut k: usize = 0;
                        proof {
                            lemma_take_pair_len(pre_rest, ps[j as int], n as nat);
                        }
                        while k < got.len()
                            invariant
                                k <= got@.len(),
                                got@.len() <= left,
                                left == self.block_size - old(self).block.length - pre_taken.len(),
                                self.block.wf(),
                                self.block.logs@ == old(self).block.logs@ + pre_taken + got@.take(k as int),
                                self.block.last_block_hash == old(self).block.last_block_hash,
                                self.block.length <= self.block_size,
                                self.block.length + got@.len() - k <= self.block_size,
                                *self == (BlockBuilder { block: self.block, ..*old(self) }),
                            decreases got@.len() - k,
                        {
                            self.block.add_entry(got[k].snapshot());
                            assert(got@.take(k + 1) =~= got@.take(k as int).push(got@[k as int]));
                            k = k + 1;
                        }
                        assert(got@.take(got@.len() as int) =~= got@);
                        proof {
                            taken = pre_taken + got@;
                        }
                    },
                    None => {
                        assert(pre_taken + tp.0 =~= pre_taken);
                    },
                }
            }
            assert(self.block.logs@ =~= old(self).block.logs@ + taken);
            j = j + 1;
        }
        assert(ps.take(ps.len() as int) =~= ps);
        let deadline = now > self.last_block_timestamp && now - self.last_block_timestamp > self.block_duration;
        if deadline || self.block.length == self.block_size {
            let mut sealed = Block::new_with_entries_at(Vec::new(), String::new(), now);
            core::mem::swap(&mut self.block, &mut sealed);
            sealed.finalize_block_at(now);
            self.block.last_block_hash = sealed.id.clone();
            self.last_block_hash = sealed.id.clone();
            self.last_block_timestamp = now;
            self.block_height = self.block_height + 1;
            Some(sealed)
        } else {
            None
        }
    }
}

/// Placeholder for an epoch-driven builder; it holds no state yet.
pub struct EpochBlockBuilder {}

impl EpochBlockBuilder {
    pub fn new() -> (r: EpochBlockBuilder)
        ensures
            r == (EpochBlockBuilder {}),
    {
        EpochBlockBuilder {}
    }
}

/// One build step at time `now`, from builder `pre` and pending trades `pending` to
/// builder `post` with `rest` still pending, handing back `out`.
pub open spec fn build_step(
    pre: BlockBuilder,
    pending: Seq<MatchedEntry>,
    post: BlockBuilder,
    rest: Seq<MatchedEntry>,
    out: Option<Block>,
    now: u64,
) -> bool {
    let drained = drain(pending, pair_order(pending), (pre.size() - pre.staged().length) as nat);
    let staged = pre.staged().logs@ + drained.0;
    let deadline = now > pre.last_timestamp() && now - pre.last_timestamp() > pre.duration();
    &&& rest == drained.1
    &&& post.size() == pre.size()
    &&& post.duration() == pre.duration()
    &&& (out is Some <==> deadline || staged.len() == pre.size())
    &&& match out {
        Some(b) => {
            &&& b.wf()
            &&& b.logs@ == batch_all(staged)
            &&& b.id@ == block_hash(b.logs@)
            &&& b.last_block_hash@ == pre.head()
            &&& b.timestamp == now
            &&& post.head() == b.id@
            &&& post.staged().logs@.len() == 0
            &&& post.height() == pre.height() + 1
            &&& post.last_timestamp() == now
        },
        None => {
            &&& post.staged().logs@ == staged
            &&& post.head() == pre.head()
            &&& post.height() == pre.height()
            &&& post.last_timestamp() == pre.last_timestamp()
        },
    }
}

} // verus!
