//! What the library knows of a tool.
use vstd::prelude::*;

verus! {

/// A tool as it is advertised to the model.
#[derive(Debug, PartialEq, Eq)]
pub struct ToolDefinition {
    pub description: String,
    pub input_schema: serde_json::Value,
    pub name: String,
}

impl Clone for ToolDefinition {
    fn clone(&self) -> (copy: Self)
        ensures
            copy == *self,
    {
        ToolDefinition {
            description: self.description.clone(),
            input_schema: self.input_schema.clone(),
            name: self.name.clone(),
        }
    }
}

/// Why a tool that was started gave no result.
#[derive(Debug, PartialEq, Eq)]
pub enum ToolExecutionError {
    Cancelled,
    ToolError(String),
}

} // verus!
