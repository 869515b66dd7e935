//! A window-manager core: the registry of managed windows ("clients"), the
//! nine-workspace model with its two per-workspace orderings (z-order stack
//! and user-facing tasklist), the interactive drag-to-move/drag-to-resize
//! protocol, and the session snapshot used to survive a soft restart.
//!
//! The core is a pure state machine: every handler takes plain values that
//! the host queried from the display server and returns the commands the
//! host must issue.  The host loop, the display-server transport and all
//! pixel rendering live outside this crate.

pub mod command;
pub mod config;
pub mod client;
pub mod icon;
pub mod panel;
pub mod session;
pub mod spawner;
pub mod startup;
pub mod wm;
pub mod workspace;
mod util;

pub use util::cycle_next;
pub use util::cycle_next_spec;
pub use util::cycle_previous;
pub use util::cycle_previous_spec;
pub use util::lemma_cycle_round_trip;
