//! A local-first replicated task store.
//!
//! Tasks are string-keyed, string-valued property maps identified by UUID.
//! Each replica mutates its state only through validated operations
//! ([`types::Operation`]), keeps the operations it has not yet pushed in a
//! pending log, and reconciles with an append-only server version log by
//! operational transformation.

pub mod assoc;
pub mod display;
pub mod laws;
pub mod model;
pub mod server;
pub mod storage;
pub mod strings;
pub mod taskdb;
pub mod taskmap;
pub mod transform;
pub mod types;
