//! Attack-path analysis over a tenant-isolated security knowledge graph,
//! with tamper-evident records of each analysis.
pub mod blast;
pub mod config;
pub mod discovery;
pub mod engine;
pub mod engram;
pub mod graph;
pub mod ids;
pub mod lateral;
pub mod model;
pub mod nmap;
pub mod paths;
pub mod schedule;
pub mod text;
