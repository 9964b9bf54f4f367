//! Accounting core of a liquid staking vault: the exchange rate between the
//! pooled base asset and its receipt token, the weight-based delegation
//! planner, and the batched, time-windowed unlock queue. The staking agents'
//! own bookkeeping is modelled too. Every external effect (token transfers,
//! agent calls, the chain's clock) is left to the caller: operations take
//! what was observed and return what is to be done.

pub mod agent;
pub mod events;
pub mod laws;
pub mod math;
pub mod rebalance;
pub mod table;
pub mod types;
pub mod vault;
