//! Core logic of a live-wallpaper host: one borderless, desktop-level window
//! per connected monitor.
//!
//! The library holds everything with real invariants: monitor geometry as
//! plain values, the identity scheme that derives a stable window label from a
//! monitor's geometry, the registry that maps labels to their assigned
//! monitors, the bootstrap plan that decides which monitors get windows
//! (deduplicating by origin), and the resync rule that re-applies a stored
//! monitor's placement to a window. The windowing framework itself (window
//! creation, event loop, native compositing levels) is an external
//! collaborator driven by a thin shell around this crate.

pub mod geometry;
pub mod identity;
pub mod placement;
pub mod registry;
