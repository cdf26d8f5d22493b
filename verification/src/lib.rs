//! A TCP-level load balancer core: backend selection policies, admission
//! control, the per-connection forwarding state machine and metrics
//! rendering, with every function's behaviour stated as a contract.

pub mod algorithms;
pub mod balancer;
pub mod client;
pub mod generator;
pub mod names;
mod random;
pub mod server;
pub mod tally;
pub mod text;
