//! Terminal workspaces: layouts, launch plans and the commands that realise
//! them, and the reading of the terminal's CLI output.
pub mod invocation;
pub mod launch;
pub mod layout;
pub mod plan;
pub mod wezterm;
