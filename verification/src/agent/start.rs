//! How a session begins: what stands at the head of its journal.
use crate::agent::laws::tracks;
use crate::agent::model::SessionView;
use crate::agent::state::AgentEffectView;
use crate::journal::id::RunId;
use crate::journal::lifecycle::{step, Progress};
use crate::journal::schema::{JournalEntry, RunStarted, SessionStarted};
use crate::journal::view::EntryView;
use crate::path::HostPath;
use crate::provider::ProviderDescriptor;
use crate::text::readable;
use crate::tools::ToolDefinition;
use vstd::prelude::*;
use vstd::string::StringExecFns;
use vstd::utf8::{decode_utf8, valid_utf8};

verus! {

/// Why a session cannot begin.
#[derive(Debug, PartialEq, Eq)]
pub enum AgentStartError {
    WorkspacePath { path: HostPath },
}

impl AgentStartError {
    /// The error in words.
    pub fn describe(&self) -> (words: String)
        ensures
            words@ == match self {
                AgentStartError::WorkspacePath { path } => "workspace path is not valid UTF-8: '"@
                    + readable(path@) + "'"@,
            },
    {
        match self {
            AgentStartError::WorkspacePath { path } =>
                "workspace path is not valid UTF-8: '".to_owned().concat(
                    path.display().as_str(),
                ).concat("'"),
        }
    }
}

/// The entry that opens a journal. The workspace has to be named by text.
pub fn session_started(
    workspace: &HostPath,
    cane_version: &str,
    instructions: &str,
) -> (opened: Result<JournalEntry, AgentStartError>)
    ensures
        match opened {
            Ok(JournalEntry::SessionStarted(started)) => valid_utf8(workspace@)
                && started.workspace@ == decode_utf8(workspace@) && started.cane_version@
                == cane_version@ && started.instructions@ == instructions@,
            Ok(_) => false,
            Err(AgentStartError::WorkspacePath { path }) => !valid_utf8(workspace@) && path@
                == workspace@,
        },
{
    match workspace.to_text() {
        None => Err(AgentStartError::WorkspacePath { path: workspace.clone() }),
        Some(text) => Ok(
            JournalEntry::SessionStarted(
                SessionStarted {
                    cane_version: cane_version.to_owned(),
                    instructions: instructions.to_owned(),
                    workspace: text,
                },
            ),
        ),
    }
}

/// The entry that opens a run. Nothing is granted yet, and there is no shell.
pub fn run_started(
    max_output_tokens: u32,
    model: &str,
    provider: &ProviderDescriptor,
    run_id: RunId,
    tool_catalog: Vec<ToolDefinition>,
) -> (opened: JournalEntry)
    ensures
        match opened {
            JournalEntry::RunStarted(started) => {
                &&& started.approval_grants@.len() == 0
                &&& started.git is None
                &&& started.max_output_tokens == max_output_tokens
                &&& started.model@ == model@
                &&& started.provider == *provider
                &&& started.run_id == run_id
                &&& started.shell_policy is None
                &&& started.tool_catalog == tool_catalog
            },
            _ => false,
        },
{
    JournalEntry::RunStarted(
        RunStarted {
            approval_grants: Vec::new(),
            git: None,
            max_output_tokens,
            model: model.to_owned(),
            provider: provider.clone(),
            run_id,
            shell_policy: None,
            tool_catalog,
        },
    )
}

/// The head of a journal leaves it in step with an agent that starts in that run.
pub proof fn openings_are_in_step(opened: RunStarted, session: SessionView)
    requires
        session.phase is Idle,
        session.history.len() == 0,
        session.retained.len() == 0,
        session.journal.run_id == opened.run_id,
    ensures
        ({
            let before = Progress { run: None, messages: Seq::empty() };
            let after = step(before, EntryView::RunStarted(opened@));
            after is Ok && tracks(session, AgentEffectView::AwaitInput, after->Ok_0)
        }),
{
    let before = Progress { run: None, messages: Seq::empty() };
    let after = step(before, EntryView::RunStarted(opened@))->Ok_0;
    assert(session.history =~= after.messages);
}

/// A session opens with the workspace, the version and the instructions that it is given, where
/// the workspace can be named by text.
pub proof fn openings_tell_what_was_given(
    workspace: &HostPath,
    cane_version: &str,
    instructions: &str,
    opened: Result<JournalEntry, AgentStartError>,
)
    requires
        call_ensures(session_started, (workspace, cane_version, instructions), opened),
    ensures
        opened is Ok <==> valid_utf8(workspace@),
        opened matches Ok(entry) ==> {
            &&& entry is SessionStarted
            &&& entry->SessionStarted_0.workspace@ == decode_utf8(workspace@)
            &&& entry->SessionStarted_0.cane_version@ == cane_version@
            &&& entry->SessionStarted_0.instructions@ == instructions@
        },
{
}

} // verus!
