//! Host and developer-service status: the values the dashboard shows and
//! the rules that map probe outcomes to service states.
pub mod model;
pub mod services;
