//! Verified core of a batch translation workbench for JSON game text.
pub mod error;
pub mod json;
pub mod text;
pub mod paths;
pub mod models;
pub mod strategy;
pub mod pattern;
pub mod sorting;
pub mod terminology;
pub mod batching;
pub mod response;
pub mod deltas;
pub mod units;
pub mod config;
pub mod state;
pub mod task;
