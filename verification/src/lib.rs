//! Core logic of a terminal process monitor: per-process records with an
//! alive/dead lifecycle and append-only metric histories, a registry that
//! applies periodic snapshots of the process table, a planner that fits
//! records into a fixed vertical budget, and the command handling of the
//! interactive loop.

pub(crate) mod clock;
pub mod control;
pub mod entry;
pub mod laws;
pub mod layout;
pub mod registry;
pub mod stats;

pub use control::{Application, Command};
pub use entry::{Entry, EntryLayout, EntryState, Sample};
pub use registry::Registry;
