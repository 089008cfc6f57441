//! Verified core of the BIF viewport: node-graph evaluation, scene-browser
//! state, prim-path handling, texture budgeting and project bookkeeping.

mod text;

pub use text::{chars_of, string_from_chars};
pub mod node_graph;
pub mod paths;
pub mod persistence;
pub mod prim_path;
pub mod property;
pub mod scene_browser;
pub mod scene_edit;
pub mod scene_merge;
pub mod scene_pipeline;
pub mod scene_rebuild;
pub mod texture;
pub mod texture_slots;
pub mod types;
