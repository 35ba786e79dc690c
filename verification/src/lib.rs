//! Session start-up support for a tiling window manager: a supervisor for the
//! child processes of a desktop session and a collision-free registry of key
//! bindings.

pub mod bindings;
pub mod chord;
pub mod command;
pub mod keys;
pub mod supervisor;
pub mod teardown;
pub mod text;

pub use crate::bindings::{Action, BindingError, BindingTable, KeyBindingRegistry};
pub use crate::supervisor::{ManagedProcess, ProcessId, SpawnError, SpawnHelper};
