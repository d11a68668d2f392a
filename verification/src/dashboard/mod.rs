//! The dashboard's formatting rules, its selection and refresh state, and its
//! error.
pub mod error;
pub mod format;
pub mod state;
