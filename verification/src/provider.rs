//! What the library knows of a model provider.
use crate::message::{Message, StopReason};
use vstd::prelude::*;

verus! {

#[derive(Clone, Copy, Debug, PartialEq, Eq, Structural)]
pub enum ProviderAdapter {
    OpenAiCompatible,
}

/// The provider that a run talks to.
#[derive(Debug, PartialEq, Eq)]
pub struct ProviderDescriptor {
    pub adapter: ProviderAdapter,
    pub endpoint: String,
}

impl Clone for ProviderDescriptor {
    fn clone(&self) -> (copy: Self)
        ensures
            copy == *self,
    {
        ProviderDescriptor { adapter: self.adapter, endpoint: self.endpoint.clone() }
    }
}

/// The token counts that a provider reports.
#[derive(Clone, Copy, Debug, Default, PartialEq, Eq)]
pub struct ModelUsage {
    pub cached_input_tokens: Option<u64>,
    pub input_tokens: Option<u64>,
    pub output_tokens: Option<u64>,
    pub total_tokens: Option<u64>,
}

/// The cost that a provider reports.
#[derive(Debug, PartialEq, Eq)]
pub struct ReportedCost {
    pub amount: String,
    pub currency: String,
    pub source: String,
}

impl Clone for ReportedCost {
    fn clone(&self) -> (copy: Self)
        ensures
            copy == *self,
    {
        ReportedCost {
            amount: self.amount.clone(),
            currency: self.currency.clone(),
            source: self.source.clone(),
        }
    }
}

/// What kind of failure ended a provider round.
#[derive(Clone, Copy, Debug, PartialEq, Eq, Structural)]
pub enum ProviderErrorKind {
    Api,
    Cancelled,
    InvalidBaseUrl,
    Network,
    Parsing,
    Protocol,
}

/// A provider round that did not complete.
#[derive(Debug, PartialEq, Eq)]
pub struct ProviderError {
    pub kind: ProviderErrorKind,
    pub message: String,
}

/// One completed answer of the model.
#[derive(Debug, PartialEq, Eq)]
pub struct ModelTurn {
    pub message: Message,
    pub provider_cost: Option<ReportedCost>,
    pub request_id: Option<String>,
    pub stop_reason: StopReason,
    pub usage: Option<ModelUsage>,
}

} // verus!
