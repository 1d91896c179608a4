//! A central-limit order book for one trading pair, with machine-checked
//! contracts.
//!
//! * `math`: fixed-point prices with 18 fractional digits and floored
//!   products and quotients over 256-bit intermediates.
//! * `orderbook`: orders, the pair's configuration, reward accounts.
//! * `state`: the persistent tables (orders in ascending order of id, one
//!   tick table for each side in ascending order of price) and what keeps
//!   them well formed and the tick counters in step with the orders.
//! * `matching`: one pairwise fill: amounts, fees, swept remainders.
//! * `payment`: merging the payments of a call into one transfer for each
//!   address and asset, and paying out reward balances.
//! * `engine`: the matching pass over price levels and orders, stated
//!   step by step as a function of the book and the tally.
//! * `order`: the calls of the engine: submit, update, cancel, match, and
//!   the administrator's maintenance.
//! * `query`: paged listings and look-ups.
//! * `invariants`: what holds of every well-formed storage.
//! * `keys`: the keys under which the rows are kept in a key-value store.
//! * `collateral_oracle`: the messages of the collateral oracle.

pub mod error;
pub mod math;
pub mod orderbook;
pub mod matching;
pub mod state;
pub mod payment;
pub mod engine;
pub mod order;
pub mod query;
pub mod collateral_oracle;
pub mod invariants;
pub mod keys;
