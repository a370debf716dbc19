//! Allocation targets, drift, rebalance planning and asset classification drafts
//! for a personal portfolio tracker, with their contracts proved by Verus.

pub mod dec;
pub mod errors;
pub mod text;
pub mod model;
pub mod validation;
pub mod dates;
pub mod sync_readiness;
pub mod allocation;
pub mod drift;
pub mod rebalance;
pub mod taxonomies;
pub mod target_service;
pub mod classification;
pub mod optimizer;
pub mod storage;
pub mod performance;
