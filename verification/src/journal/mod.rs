//! The session journal: its records, reading, writing and projection.
pub mod id;
pub mod lifecycle;
pub mod order;
pub mod projector;
pub mod reader;
pub mod run;
pub mod schema;
pub mod view;
pub mod writer;
