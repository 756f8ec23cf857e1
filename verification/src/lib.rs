//! Static UI tooling for BuildingBlocks canvases: a JSON data model, the
//! static visibility filter for state-switching canvases, canvas record
//! parsing, SWF source selection and the default-value registry.
use vstd::prelude::*;

pub mod bb_scene;
pub mod bb_state_filter;
pub mod canvas;
pub mod compose;
pub mod defaults;
pub mod error;
pub mod json;
pub mod pipeline;
pub mod postprocess;
pub mod strs;
pub mod table;

verus! {
} // verus!
