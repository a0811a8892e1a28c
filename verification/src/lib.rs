//! Balance-watching core: a validated model of which addresses and tokens to
//! watch on which networks, the construction of that model from configuration,
//! the deterministic iteration over every (network, address, asset)
//! combination, and the numeric conversion used when balances are reported.

pub mod addr;
pub mod config;
pub mod conversion;
pub mod monitor;
pub mod collect;
