//! Versioned configuration documents, and the files that hold them.
pub mod document;
pub mod json;
pub mod storage;
