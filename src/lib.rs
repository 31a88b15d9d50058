//! A stateful, gas-guided fuzzing core for Move-style smart-contract targets.
pub mod abi;
pub mod aptos_args;
pub mod bytes;
pub mod chain;
pub mod crash;
pub mod mutator;
pub mod pass_log;
pub mod rng;
pub mod stats;
pub mod value;
pub mod worker;
