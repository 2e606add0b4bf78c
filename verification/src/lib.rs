//! Engine for discovering and removing a person's data from data-broker
//! sites: connector selection, scan orchestration with idempotent record
//! upserts, deletion fan-out, and deletion-status reconciliation, all over an
//! in-memory storage model with verified invariants.

pub mod beenverified;
pub mod cli;
mod clock;
pub mod connector;
pub mod country;
pub mod delete;
pub mod dummy;
pub mod error;
pub mod html;
mod ids;
pub mod models;
pub mod registry_sync;
pub mod report;
pub mod scan;
pub mod status;
pub mod storage;
pub mod text;
