//! The exchange: constant-product pools, routed fees and a solver marketplace.

pub mod backing_laws;
pub mod escrow_laws;
pub mod event_laws;
pub mod fill_laws;
pub mod flows;
pub mod governance;
pub mod liquidity;
pub mod market;
pub mod market_laws;
pub mod migrations;
pub mod pool_laws;
pub mod pool_manager;
pub mod pricing;
pub mod refusal_laws;
pub mod seed;
pub mod setting_laws;
pub mod share_laws;
pub mod state;
pub mod swap;
pub mod swap_laws;
pub mod types;
