//! Evidence-backed knowledge claims and operator responses.
pub mod error;
pub mod operator;
pub mod model;
pub mod store;
pub mod claim;
pub mod key_order;
