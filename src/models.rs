use vstd::prelude::*;

use crate::capability::Capability;

verus! {

// Identifiers are UUIDs held as their 128-bit value; instants are Unix timestamps in seconds.

/// A registered account.
#[derive(Debug)]
pub struct User {
    pub id: u128,
    pub username: String,
    pub password_hash: String,
    pub created_at: i64,
}

/// An account about to be stored.
#[derive(Debug)]
pub struct NewUser {
    pub username: String,
    pub password_hash: String,
}

/// A file held in object storage.
pub struct AssetFile {
    pub id: u128,
    pub user_id: u128,
    pub file_name: String,
    pub s3_path: String,
    pub created_at: i64,
}

/// A registered computation unit and the capability it declares.
#[derive(Clone, Debug, PartialEq)]
pub struct Agent {
    pub id: u128,
    pub name: String,
    pub description: String,
    pub wasm_asset_id: u128,
    pub capabilities: Capability,
    pub created_at: i64,
}

/// A stored plan.
pub struct Pipeline {
    pub id: u128,
    pub name: String,
    pub description: String,
    pub created_at: i64,
}

/// One position of a stored plan.
pub struct PipelineStep {
    pub id: u128,
    pub pipeline_id: u128,
    pub agent_id: u128,
    pub step_order: i32,
}

/// One execution of a pipeline or of a single agent.
pub struct Run {
    pub id: u128,
    pub pipeline_id: Option<u128>,
    pub agent_id: Option<u128>,
    pub status: String,
    pub created_at: i64,
    pub finished_at: Option<i64>,
}

/// An asset produced by a run.
pub struct RunOutput {
    pub id: u128,
    pub run_id: u128,
    pub asset_id: u128,
    pub created_at: i64,
}

/// Structured data derived from a run, as JSON text.
pub struct RunDerivativeData {
    pub id: u128,
    pub run_id: u128,
    pub data: String,
    pub created_at: i64,
}

} // verus!
