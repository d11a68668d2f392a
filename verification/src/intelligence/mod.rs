//! Deterministic project intelligence: an evidence-backed graph of a project,
//! derived insights, and their resolution against operator responses.
pub mod error;
pub mod ids;
pub mod evidence;
pub mod status;
pub mod entity;
pub mod relationship;
pub mod insight;
pub mod model;
pub mod input;
pub mod rule;
pub mod analyzer;
pub mod authority;
pub mod resolution;
pub mod report;
