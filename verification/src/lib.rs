//! Limit order books rebuilt from exchange event streams, with the
//! sequenced-stream reassembler and the replay driver that feed them.
pub mod collections;
pub mod itchy;
pub mod us;
pub mod taq;
pub mod coinbase;
pub mod nyse;
pub mod nasdaq;
pub mod text;
pub mod tick;
pub mod util;
pub mod store;
pub mod summary;
