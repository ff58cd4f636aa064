//! Core engine of a host-based endpoint-detection agent.
//!
//! The library covers the scan pipeline: parsing OS process/region metadata,
//! content heuristics over raw region bytes (digest, entropy, signatures),
//! deterministic risk scoring and classification, the authenticated-encryption
//! carving protocol, the orchestrator's per-region decisions, a minimal
//! time-ordered job queue, and the permissive configuration parser.
//!
//! All I/O (process enumeration, raw memory reads, file writes, logging,
//! the scan loop itself) lives outside the library and hands it plain values.

pub mod analysis;
pub mod carving;
pub mod config;
pub mod hashing;
pub mod memory;
pub mod orchestrator;
pub mod process;
pub mod render;
pub mod scheduler;
pub mod text;
pub mod triage;
