//! Controlled execution: fingerprints of source state, the verdict of a
//! verification run, the reading of Git's output, and the capture of a
//! project's source state.
pub mod fingerprint;
pub mod verdict;
pub mod git;
pub mod capture;
pub mod plan;
