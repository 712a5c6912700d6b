//! A pluggable node-selection strategy for spreading requests over a fixed
//! collection of backend targets. The one concrete policy is round-robin:
//! nodes are visited in a deterministic cyclic order, and the cursor is kept
//! safe against the node set shrinking underneath it.

pub mod load_balancing;
