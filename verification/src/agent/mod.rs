//! The agent: a conversation with the model, and the tool calls it asks for.
pub mod laws;
pub mod model;
pub mod rules;
pub mod session;
pub mod start;
pub mod state;
pub mod turns;
