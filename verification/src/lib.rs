//! Verified core of `dock`, a manager of lightweight, unprivileged
//! containers: named directories that each hold a captured filesystem root,
//! a Python script, and a JSON-encoded status record.
//!
//! The library holds everything that can be stated and proved: the dialect
//! classifier for Python scripts, the container store and its lifecycle
//! state machine, the on-disk paths, the table and message rendering, and
//! the codec for the persisted configuration record. The thin shell around
//! it performs the actual filesystem reads and writes and spawns processes,
//! handing this library plain values and persisting what it returns.

pub mod text;
pub mod errors;
pub mod python;
pub mod config;
pub mod storage;
pub mod manager;
pub mod codec;
