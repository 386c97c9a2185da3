//! Consolidation of scattered git repository copies: the verified core.
pub mod choice_laws;
pub mod clock;
pub mod config;
pub mod consolidate;
pub mod digest;
pub mod discover;
pub mod fingerprint;
pub mod gitx;
pub mod group;
pub mod laws;
pub mod model;
pub mod order_laws;
pub mod pipeline;
pub mod report;
pub mod run_laws;
pub mod safety;
pub mod scan_laws;
pub mod strategy;
pub mod text;
pub mod treehash;
pub mod url_laws;
