//! Order-book aggregation across exchanges: exact decimal amounts, feed
//! message normalisation, combining per-exchange snapshots, and ranking the
//! combined book into top-of-book answers with the spread.

pub mod amount;
pub mod order;
pub mod combine_orderbook;
pub mod rank;
pub mod exchanges;
pub mod capture;
pub mod server;
