//! Source acquisition for a stage-building orchestrator.
//!
//! A build profile declares the remote resources it needs in a plain-text
//! manifest. This crate parses such manifests into download descriptors,
//! decides for each descriptor whether it must be fetched or can be skipped,
//! models the life cycle of a single fetch (staging file, atomic promotion)
//! as a verified state machine, and aggregates the per-descriptor outcomes
//! into one verdict for the whole run. All network and filesystem work is
//! done by the caller, which drives the state machine with the events it
//! observes.

pub mod cmd;
pub mod config;
pub mod fetch;
pub mod logtrim;
pub mod manifest;
pub mod profile;
