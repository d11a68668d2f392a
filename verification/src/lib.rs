//! Verified core of the AstraOS command center.
pub mod text;
pub mod order;
pub mod digest;
pub mod knowledge;
pub mod intelligence;
pub mod system;
pub mod projects;
pub mod workspaces;
pub mod dashboard;
pub mod execution;
pub mod terminal;
pub mod cli;
