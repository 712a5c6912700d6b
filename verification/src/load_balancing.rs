//! Load-balancing strategies: selection policies over an ordered node set.

pub mod cycle;
pub mod round_robin_sync;
