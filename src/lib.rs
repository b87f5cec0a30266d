//! Core of a limit-order exchange that settles in hash-chained blocks: the resting
//! order book, the matching engine, the trade log, the block builder and the replayer
//! that re-derives a block's digests and balances.

pub mod clock;
pub mod order;
pub mod mempool;
pub mod matched_logs;
pub mod engine;
pub mod digest;
pub mod codec;
pub mod canonical;
pub mod block;
pub mod replay;
pub mod user;
pub mod laws;
pub mod data;
pub mod api;
