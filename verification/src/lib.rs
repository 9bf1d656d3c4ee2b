//! Replays a ledger of deposits and withdrawals against a pool of spendable
//! coins, choosing inputs for every withdrawal and accounting for the fee,
//! the change and the waste of each choice.
//!
//! All amounts are integers: values in satoshi, weights in weight units and
//! fee rates in satoshi per 1000 virtual bytes (4000 weight units).

pub mod accounting;
pub mod lines;
pub mod models;
pub mod pool;
pub mod selection;
pub mod selectors;
pub mod simulator;
pub mod summary;
pub mod weights;
