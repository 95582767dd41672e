//! Plans pipelines of agents over a capability catalog, and decides each step
//! of running them in a fuel-bounded sandbox.

pub mod capability;
pub mod config;
pub mod models;
pub mod orchestrator;
pub mod planner;
pub mod sandbox;
pub mod security;
pub mod view_models;
