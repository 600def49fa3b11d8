//! A terminal project tracker's core: an ordered library of named projects,
//! each with a cyclic status, with wraparound selection, a plain-text document
//! codec for persistence, and a pure two-pane view of the current state.

pub mod status;
pub mod project;
pub mod library;
pub mod codec;
pub mod render;
pub mod project_list;
