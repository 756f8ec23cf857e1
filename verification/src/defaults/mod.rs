//! Default "switched on" state values for game-state-bound widgets.
//!
//! [`registry::DefaultValueRegistry`] is the source of literal defaults for
//! runtime-bound UI widgets, keyed by DataCore binding path.
pub mod registry;
