//! Validator-backed treasuries for launchpad tokens.

pub mod accumulator;
pub mod burn_laws;
pub mod checks;
pub mod compound;
pub mod event_laws;
pub mod exit_laws;
pub mod laws;
pub mod migrations;
pub mod queue_laws;
pub mod refusal_laws;
pub mod retire;
pub mod reward_laws;
pub mod sink;
pub mod staking;
pub mod state;
pub mod types;
