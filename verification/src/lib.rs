//! Process lifecycle management for a host application on Windows.
//!
//! The crate reconstructs a process tree from a flat system snapshot,
//! expands a root pid into its full descendant set with a cycle-safe
//! traversal, and decides an escalating, children-before-root termination
//! policy per node.  All decision logic is verified; the surrounding
//! system calls live outside the library and feed it plain values.

pub mod elevation;
pub mod errors;
pub mod fallback;
pub mod hierarchy;
pub mod paths;
pub mod permissions;
pub mod process;
pub mod registry;
pub mod snapshot;
pub mod strutil;
pub mod termination;
