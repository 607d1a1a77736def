//! Sandboxing on Linux, with Bubblewrap.
pub mod diagnosis;
pub mod git;
pub mod launcher;
pub mod plan;
