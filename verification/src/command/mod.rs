//! Shell commands: recognising them, running them within bounds, and reporting what they did.
pub mod capture;
pub mod classify;
pub mod deadline;
pub mod diagnostics;
pub mod docker;
pub mod executor;
pub mod linux;
pub mod output;
pub mod policy;
pub mod request;
pub mod supervise;
