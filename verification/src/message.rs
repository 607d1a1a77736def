//! The messages of a conversation.
use crate::text::same_text;
use vstd::prelude::*;

verus! {

#[derive(Clone, Copy, Debug, PartialEq, Eq, Structural)]
pub enum Role {
    User,
    Assistant,
}

/// The arguments of a tool call: JSON, or the text that failed to parse as JSON.
#[derive(Debug, PartialEq, Eq)]
pub enum ToolInput {
    Valid(serde_json::Value),
    Invalid(String),
}

pub enum ToolInputView {
    Valid(serde_json::Value),
    Invalid(Seq<char>),
}

impl View for ToolInput {
    type V = ToolInputView;

    open spec fn view(&self) -> ToolInputView {
        match self {
            ToolInput::Valid(value) => ToolInputView::Valid(*value),
            ToolInput::Invalid(raw) => ToolInputView::Invalid(raw@),
        }
    }
}

impl Clone for ToolInput {
    fn clone(&self) -> (copy: Self)
        ensures
            copy@ == self@,
    {
        match self {
            ToolInput::Valid(value) => ToolInput::Valid(value.clone()),
            ToolInput::Invalid(raw) => ToolInput::Invalid(raw.clone()),
        }
    }
}

/// What a tool call gave back.
#[derive(Debug, PartialEq, Eq)]
pub struct ToolResultData {
    pub tool_use_id: String,
    pub is_error: bool,
    pub content: String,
}

pub struct ToolResultView {
    pub tool_use_id: Seq<char>,
    pub is_error: bool,
    pub content: Seq<char>,
}

impl View for ToolResultData {
    type V = ToolResultView;

    open spec fn view(&self) -> ToolResultView {
        ToolResultView {
            tool_use_id: self.tool_use_id@,
            is_error: self.is_error,
            content: self.content@,
        }
    }
}

impl Clone for ToolResultData {
    fn clone(&self) -> (copy: Self)
        ensures
            copy@ == self@,
    {
        ToolResultData {
            tool_use_id: self.tool_use_id.clone(),
            is_error: self.is_error,
            content: self.content.clone(),
        }
    }
}

#[derive(Debug, PartialEq, Eq)]
pub enum ContentBlock {
    Text { text: String },
    ToolUse { id: String, name: String, input: ToolInput },
    ToolResult(ToolResultData),
}

pub enum ContentBlockView {
    Text { text: Seq<char> },
    ToolUse { id: Seq<char>, name: Seq<char>, input: ToolInputView },
    ToolResult(ToolResultView),
}

impl View for ContentBlock {
    type V = ContentBlockView;

    open spec fn view(&self) -> ContentBlockView {
        match self {
            ContentBlock::Text { text } => ContentBlockView::Text { text: text@ },
            ContentBlock::ToolUse { id, name, input } =>
                ContentBlockView::ToolUse { id: id@, name: name@, input: input@ },
            ContentBlock::ToolResult(result) => ContentBlockView::ToolResult(result@),
        }
    }
}

impl Clone for ContentBlock {
    fn clone(&self) -> (copy: Self)
        ensures
            copy@ == self@,
    {
        match self {
            ContentBlock::Text { text } => ContentBlock::Text { text: text.clone() },
            ContentBlock::ToolUse { id, name, input } => ContentBlock::ToolUse {
                id: id.clone(),
                name: name.clone(),
                input: input.clone(),
            },
            ContentBlock::ToolResult(result) => ContentBlock::ToolResult(result.clone()),
        }
    }
}

impl From<ToolResultData> for ContentBlock {
    fn from(result: ToolResultData) -> (block: ContentBlock)
        ensures
            block == ContentBlock::ToolResult(result),
    {
        ContentBlock::ToolResult(result)
    }
}

impl vstd::std_specs::convert::FromSpecImpl<ToolResultData> for ContentBlock {
    open spec fn obeys_from_spec() -> bool {
        true
    }

    open spec fn from_spec(result: ToolResultData) -> ContentBlock {
        ContentBlock::ToolResult(result)
    }
}

#[derive(Debug, PartialEq, Eq)]
pub struct Message {
    pub role: Role,
    pub content: Vec<ContentBlock>,
}

pub struct MessageView {
    pub role: Role,
    pub content: Seq<ContentBlockView>,
}

/// The blocks of a message, by their views.
pub open spec fn block_views(blocks: Seq<ContentBlock>) -> Seq<ContentBlockView> {
    Seq::new(blocks.len(), |i: int| blocks[i]@)
}

impl View for Message {
    type V = MessageView;

    open spec fn view(&self) -> MessageView {
        MessageView { role: self.role, content: block_views(self.content@) }
    }
}

/// A copy of every block, in order.
pub fn clone_blocks(blocks: &Vec<ContentBlock>) -> (copy: Vec<ContentBlock>)
    ensures
        block_views(copy@) == block_views(blocks@),
{
    let mut copy: Vec<ContentBlock> = Vec::new();
    let mut index: usize = 0;
    while index < blocks.len()
        invariant
            index <= blocks.len(),
            copy@.len() == index,
            forall|i: int| 0 <= i < index ==> copy@[i]@ == blocks@[i]@,
        decreases blocks.len() - index,
    {
        copy.push(blocks[index].clone());
        index += 1;
    }
    assert(block_views(copy@) =~= block_views(blocks@));
    copy
}

impl Clone for Message {
    fn clone(&self) -> (copy: Self)
        ensures
            copy@ == self@,
    {
        Message { role: self.role, content: clone_blocks(&self.content) }
    }
}

/// The messages of a conversation, by their views.
pub open spec fn message_views(messages: Seq<Message>) -> Seq<MessageView> {
    Seq::new(messages.len(), |i: int| messages[i]@)
}

/// Why the model stopped.
#[derive(Debug, PartialEq, Eq)]
pub enum StopReason {
    EndTurn,
    ToolUse,
    MaxTokens,
    Other(String),
}

pub enum StopReasonView {
    EndTurn,
    ToolUse,
    MaxTokens,
    Other(Seq<char>),
}

impl View for StopReason {
    type V = StopReasonView;

    open spec fn view(&self) -> StopReasonView {
        match self {
            StopReason::EndTurn => StopReasonView::EndTurn,
            StopReason::ToolUse => StopReasonView::ToolUse,
            StopReason::MaxTokens => StopReasonView::MaxTokens,
            StopReason::Other(reason) => StopReasonView::Other(reason@),
        }
    }
}

impl Clone for StopReason {
    fn clone(&self) -> (copy: Self)
        ensures
            copy == *self,
    {
        match self {
            StopReason::EndTurn => StopReason::EndTurn,
            StopReason::ToolUse => StopReason::ToolUse,
            StopReason::MaxTokens => StopReason::MaxTokens,
            StopReason::Other(reason) => StopReason::Other(reason.clone()),
        }
    }
}

impl StopReason {
    pub fn same(&self, other: &StopReason) -> (same: bool)
        ensures
            same == (self@ == other@),
    {
        match (self, other) {
            (StopReason::EndTurn, StopReason::EndTurn) => true,
            (StopReason::ToolUse, StopReason::ToolUse) => true,
            (StopReason::MaxTokens, StopReason::MaxTokens) => true,
            (StopReason::Other(reason), StopReason::Other(other_reason)) => same_text(
                reason.as_str(),
                other_reason.as_str(),
            ),
            _ => false,
        }
    }

    pub fn is_tool_use(&self) -> (is_tool_use: bool)
        ensures
            is_tool_use == (self@ == StopReasonView::ToolUse),
    {
        match self {
            StopReason::ToolUse => true,
            _ => false,
        }
    }
}

} // verus!
