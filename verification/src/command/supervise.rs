//! Supervising a running command: what is done when it is to end, fails or writes, and what it
//! comes to.
use crate::command::capture::{captured, chunk_views, CaptureView, TailCapture};
use crate::command::output::{CommandOutputChunk, CommandResult, CommandTermination};
use vstd::prelude::*;
use vstd::string::StringExecFns;

verus! {

/// Why a command came to no result.
#[derive(Debug, PartialEq, Eq)]
pub enum CommandExecutionError {
    Cancelled,
    Failed { message: String },
}

impl CommandExecutionError {
    /// The error in words.
    pub fn describe(&self) -> (words: String)
        ensures
            words@ == match self {
                CommandExecutionError::Cancelled => "command execution was cancelled"@,
                CommandExecutionError::Failed { message } => "command executor failed: "@
                    + message@,
            },
    {
        match self {
            CommandExecutionError::Cancelled => "command execution was cancelled".to_owned(),
            CommandExecutionError::Failed { message } => "command executor failed: ".to_owned().concat(
                message.as_str(),
            ),
        }
    }
}

/// An outcome that was asked for from outside.
#[derive(Clone, Copy, Debug, PartialEq, Eq, Structural)]
pub enum RequestedOutcome {
    Cancelled,
    TimedOut,
}

/// How the process itself ended: its exit code, or else the signal that ended it.
#[derive(Clone, Copy, Debug, PartialEq, Eq)]
pub struct ExitReport {
    pub code: Option<i32>,
    pub signal: Option<i32>,
}

/// Something that happens to a supervised command.
pub enum SupervisionEvent {
    CancelRequested,
    DeadlineElapsed,
    GraceElapsed,
    Exited(ExitReport),
    WaitFailed(String),
    OutputRead(CommandOutputChunk),
    PipeClosed,
    PipeFailed(String),
    PipesGone,
    TerminateFailed(String),
    KillFailed(String),
}

/// What is to be done to the process group.
#[derive(Clone, Copy, Debug, PartialEq, Eq, Structural)]
pub enum SupervisionAction {
    Nothing,
    /// Ask the process group to end, and wait for the grace period.
    Terminate,
    /// Kill the process group.
    Kill,
}

/// Where supervision stands.
pub struct SupervisionView {
    pub capture: CaptureView,
    pub failure: Option<Seq<char>>,
    pub grace_running: bool,
    pub open_pipes: nat,
    pub requested: Option<RequestedOutcome>,
    pub status: Option<ExitReport>,
}

impl SupervisionView {
    /// Supervision ends when the process has ended and nothing more can be read.
    pub open spec fn finished(self) -> bool {
        self.status is Some && self.open_pipes == 0
    }

    /// What can happen next.
    pub open spec fn awaits(self, event: SupervisionEvent) -> bool {
        match event {
            SupervisionEvent::CancelRequested => self.requested is None,
            SupervisionEvent::DeadlineElapsed => self.requested is None,
            SupervisionEvent::GraceElapsed => self.grace_running,
            SupervisionEvent::Exited(_) => self.status is None,
            SupervisionEvent::WaitFailed(_) => self.status is None,
            SupervisionEvent::OutputRead(_) => self.open_pipes > 0,
            SupervisionEvent::PipeClosed => self.open_pipes > 0,
            SupervisionEvent::PipeFailed(_) => self.open_pipes > 0,
            SupervisionEvent::PipesGone => self.open_pipes > 0,
            SupervisionEvent::TerminateFailed(_) => true,
            SupervisionEvent::KillFailed(_) => true,
        }
    }

    /// The first failure is the one that is reported.
    pub open spec fn failed(self, context: Seq<char>, error: Seq<char>) -> SupervisionView {
        if self.failure is Some {
            self
        } else {
            SupervisionView { failure: Some(context + ": "@ + error), ..self }
        }
    }

    /// Begins to end the process, unless that has begun already.
    pub open spec fn ending(self) -> (SupervisionView, SupervisionAction) {
        if self.grace_running {
            (self, SupervisionAction::Nothing)
        } else {
            (SupervisionView { grace_running: true, ..self }, SupervisionAction::Terminate)
        }
    }

    /// Supervision after an event, and what is to be done.
    pub open spec fn after(self, event: SupervisionEvent) -> (SupervisionView, SupervisionAction) {
        match event {
            SupervisionEvent::CancelRequested => SupervisionView {
                requested: Some(RequestedOutcome::Cancelled),
                ..self
            }.ending(),
            SupervisionEvent::DeadlineElapsed => SupervisionView {
                requested: Some(RequestedOutcome::TimedOut),
                ..self
            }.ending(),
            SupervisionEvent::GraceElapsed => (
                SupervisionView { grace_running: false, ..self },
                SupervisionAction::Kill,
            ),
            SupervisionEvent::Exited(report) => (
                SupervisionView { status: Some(report), ..self },
                SupervisionAction::Nothing,
            ),
            SupervisionEvent::WaitFailed(error) => self.failed(
                "could not wait for command"@,
                error@,
            ).ending(),
            SupervisionEvent::OutputRead(chunk) => (
                SupervisionView { capture: captured(self.capture, chunk@), ..self },
                SupervisionAction::Nothing,
            ),
            SupervisionEvent::PipeClosed => (
                SupervisionView { open_pipes: (self.open_pipes - 1) as nat, ..self },
                SupervisionAction::Nothing,
            ),
            SupervisionEvent::PipeFailed(error) => SupervisionView {
                open_pipes: (self.open_pipes - 1) as nat,
                ..self
            }.failed("could not read command output"@, error@).ending(),
            SupervisionEvent::PipesGone => (
                SupervisionView { open_pipes: 0, ..self },
                SupervisionAction::Nothing,
            ),
            SupervisionEvent::TerminateFailed(error) => (
                self.failed("could not terminate command process group"@, error@),
                SupervisionAction::Nothing,
            ),
            SupervisionEvent::KillFailed(error) => (
                self.failed("could not kill command process group"@, error@),
                SupervisionAction::Nothing,
            ),
        }
    }

    /// How the command ended, where it came to a result: an exit code comes before a signal, and
    /// a signal that is not known is reported as zero.
    pub open spec fn termination(self) -> CommandTermination {
        if self.requested == Some(RequestedOutcome::TimedOut) {
            CommandTermination::TimedOut
        } else {
            match self.status->0.code {
                Some(code) => CommandTermination::Exited { code },
                None => CommandTermination::Signaled {
                    signal: match self.status->0.signal {
                        Some(signal) => signal,
                        None => 0,
                    },
                },
            }
        }
    }
}

/// A command while it runs.
pub struct Supervision {
    capture: TailCapture,
    failure: Option<String>,
    grace_running: bool,
    open_pipes: u8,
    requested: Option<RequestedOutcome>,
    status: Option<ExitReport>,
}

impl View for Supervision {
    type V = SupervisionView;

    closed spec fn view(&self) -> SupervisionView {
        SupervisionView {
            capture: self.capture@,
            failure: match self.failure {
                None => None,
                Some(message) => Some(message@),
            },
            grace_running: self.grace_running,
            open_pipes: self.open_pipes as nat,
            requested: self.requested,
            status: self.status,
        }
    }
}

impl Supervision {
    pub closed spec fn wf(self) -> bool {
        self.capture.wf()
    }

    /// A command whose two pipes are open.
    pub fn new() -> (supervision: Self)
        ensures
            supervision.wf(),
            supervision@ == (SupervisionView {
                capture: CaptureView { chunks: Seq::empty(), stderr_bytes: 0, stdout_bytes: 0 },
                failure: None,
                grace_running: false,
                open_pipes: 2,
                requested: None,
                status: None,
            }),
    {
        Supervision {
            capture: TailCapture::default(),
            failure: None,
            grace_running: false,
            open_pipes: 2,
            requested: None,
            status: None,
        }
    }

    pub fn is_finished(&self) -> (finished: bool)
        ensures
            finished == self@.finished(),
    {
        self.status.is_some() && self.open_pipes == 0
    }

    /// Whether a cancellation or the deadline still matters.
    pub fn awaits_request(&self) -> (awaits: bool)
        ensures
            awaits == (self@.requested is None),
    {
        self.requested.is_none()
    }

    pub fn awaits_grace(&self) -> (awaits: bool)
        ensures
            awaits == self@.grace_running,
    {
        self.grace_running
    }

    pub fn awaits_exit(&self) -> (awaits: bool)
        ensures
            awaits == (self@.status is None),
    {
        self.status.is_none()
    }

    pub fn awaits_output(&self) -> (awaits: bool)
        ensures
            awaits == (self@.open_pipes > 0),
    {
        self.open_pipes > 0
    }

    fn record_failure(&mut self, context: &str, error: &str)
        requires
            old(self).wf(),
        ensures
            final(self).wf(),
            final(self)@ == old(self)@.failed(context@, error@),
    {
        if self.failure.is_none() {
            self.failure = Some(context.to_owned().concat(": ").concat(error));
        }
    }

    fn begin_termination(&mut self) -> (action: SupervisionAction)
        requires
            old(self).wf(),
        ensures
            final(self).wf(),
            (final(self)@, action) == old(self)@.ending(),
    {
        if self.grace_running {
            return SupervisionAction::Nothing;
        }
        self.grace_running = true;
        SupervisionAction::Terminate
    }

    /// Takes an event in and says what is to be done.
    pub fn step(&mut self, event: SupervisionEvent) -> (action: SupervisionAction)
        requires
            old(self).wf(),
            old(self)@.awaits(event),
        ensures
            final(self).wf(),
            (final(self)@, action) == old(self)@.after(event),
    {
        match event {
            SupervisionEvent::CancelRequested => {
                self.requested = Some(RequestedOutcome::Cancelled);
                self.begin_termination()
            },
            SupervisionEvent::DeadlineElapsed => {
                self.requested = Some(RequestedOutcome::TimedOut);
                self.begin_termination()
            },
            SupervisionEvent::GraceElapsed => {
                self.grace_running = false;
                SupervisionAction::Kill
            },
            SupervisionEvent::Exited(report) => {
                self.status = Some(report);
                SupervisionAction::Nothing
            },
            SupervisionEvent::WaitFailed(error) => {
                self.record_failure("could not wait for command", error.as_str());
                self.begin_termination()
            },
            SupervisionEvent::OutputRead(chunk) => {
                self.capture.push(chunk);
                SupervisionAction::Nothing
            },
            SupervisionEvent::PipeClosed => {
                self.open_pipes = self.open_pipes - 1;
                SupervisionAction::Nothing
            },
            SupervisionEvent::PipeFailed(error) => {
                self.open_pipes = self.open_pipes - 1;
                self.record_failure("could not read command output", error.as_str());
                self.begin_termination()
            },
            SupervisionEvent::PipesGone => {
                self.open_pipes = 0;
                SupervisionAction::Nothing
            },
            SupervisionEvent::TerminateFailed(error) => {
                self.record_failure("could not terminate command process group", error.as_str());
                SupervisionAction::Nothing
            },
            SupervisionEvent::KillFailed(error) => {
                self.record_failure("could not kill command process group", error.as_str());
                SupervisionAction::Nothing
            },
        }
    }

    /// What the command comes to: nothing where it was cancelled, its first failure where there
    /// was one, and else its output and how it ended.
    pub fn finish(self) -> (outcome: Result<CommandResult, CommandExecutionError>)
        requires
            self.wf(),
            self@.finished(),
        ensures
            match outcome {
                Err(CommandExecutionError::Cancelled) => self@.requested == Some(
                    RequestedOutcome::Cancelled,
                ),
                Err(CommandExecutionError::Failed { message }) => self@.requested != Some(
                    RequestedOutcome::Cancelled,
                ) && self@.failure == Some(message@),
                Ok(result) => self@.requested != Some(RequestedOutcome::Cancelled)
                    && self@.failure is None && result.termination == self@.termination()
                    && chunk_views(result.output.chunks@) == self@.capture.chunks
                    && result.output.stderr_bytes == self@.capture.stderr_bytes
                    && result.output.stdout_bytes == self@.capture.stdout_bytes,
            },
    {
        let timed_out = match self.requested {
            Some(RequestedOutcome::Cancelled) => {
                return Err(CommandExecutionError::Cancelled);
            },
            Some(RequestedOutcome::TimedOut) => true,
            None => false,
        };
        if let Some(message) = self.failure {
            return Err(CommandExecutionError::Failed { message });
        }
        let status = self.status;
        let output = self.capture.finish();
        if timed_out {
            return Ok(CommandResult { output, termination: CommandTermination::TimedOut });
        }
        let report = match status {
            Some(report) => report,
            None => ExitReport { code: None, signal: None },
        };
        let termination = match report.code {
            Some(code) => CommandTermination::Exited { code },
            None => CommandTermination::Signaled {
                signal: match report.signal {
                    Some(signal) => signal,
                    None => 0,
                },
            },
        };
        Ok(CommandResult { output, termination })
    }
}

/// What was asked for first stands: no later event changes a cancellation into a timeout or back.
pub proof fn requests_stand(supervision: SupervisionView, event: SupervisionEvent)
    requires
        supervision.awaits(event),
        supervision.requested is Some,
    ensures
        supervision.after(event).0.requested == supervision.requested,
{
}

/// The first failure stands.
pub proof fn first_failure_stands(supervision: SupervisionView, event: SupervisionEvent)
    requires
        supervision.awaits(event),
        supervision.failure is Some,
    ensures
        supervision.after(event).0.failure == supervision.failure,
{
}

/// The process is asked to end only while no grace period runs, and is killed only when one has
/// run out.
pub proof fn termination_is_graceful(supervision: SupervisionView, event: SupervisionEvent)
    requires
        supervision.awaits(event),
    ensures
        supervision.after(event).1 == SupervisionAction::Terminate
            ==> !supervision.grace_running && supervision.after(event).0.grace_running,
        supervision.after(event).1 == SupervisionAction::Kill ==> supervision.grace_running
            && event is GraceElapsed && !supervision.after(event).0.grace_running,
        supervision.after(event).0.requested != supervision.requested ==> supervision.after(
            event,
        ).0.grace_running,
{
}

/// A cancellation or the deadline ends the command: it is noted, and the process group is asked to
/// end, unless it has been asked already. Nothing that was captured or found out is lost.
pub proof fn commands_are_ended_when_asked(supervision: SupervisionView, event: SupervisionEvent)
    requires
        event is CancelRequested || event is DeadlineElapsed,
    ensures
        ({
            let (after, action) = supervision.after(event);
            &&& event is CancelRequested ==> after.requested == Some(RequestedOutcome::Cancelled)
            &&& event is DeadlineElapsed ==> after.requested == Some(RequestedOutcome::TimedOut)
            &&& after.grace_running
            &&& supervision.grace_running ==> action == SupervisionAction::Nothing
            &&& !supervision.grace_running ==> action == SupervisionAction::Terminate
            &&& after.capture == supervision.capture
            &&& after.failure == supervision.failure
            &&& after.open_pipes == supervision.open_pipes
            &&& after.status == supervision.status
        }),
{
}

/// A process group that does not end within the grace period is killed, and nothing else changes.
pub proof fn lingering_commands_are_killed(supervision: SupervisionView)
    ensures
        ({
            let (after, action) = supervision.after(SupervisionEvent::GraceElapsed);
            &&& action == SupervisionAction::Kill
            &&& !after.grace_running
            &&& after.capture == supervision.capture
            &&& after.failure == supervision.failure
            &&& after.open_pipes == supervision.open_pipes
            &&& after.requested == supervision.requested
            &&& after.status == supervision.status
        }),
{
}

/// How the process ended is kept as it was reported, and the process is left alone.
pub proof fn exits_are_kept(supervision: SupervisionView, report: ExitReport)
    ensures
        ({
            let (after, action) = supervision.after(SupervisionEvent::Exited(report));
            &&& action == SupervisionAction::Nothing
            &&& after.status == Some(report)
            &&& after.capture == supervision.capture
            &&& after.failure == supervision.failure
            &&& after.grace_running == supervision.grace_running
            &&& after.open_pipes == supervision.open_pipes
            &&& after.requested == supervision.requested
        }),
{
}

/// What is read is captured, and nothing else changes.
pub proof fn output_is_captured(supervision: SupervisionView, chunk: CommandOutputChunk)
    ensures
        ({
            let (after, action) = supervision.after(SupervisionEvent::OutputRead(chunk));
            &&& action == SupervisionAction::Nothing
            &&& after.capture == captured(supervision.capture, chunk@)
            &&& after.failure == supervision.failure
            &&& after.grace_running == supervision.grace_running
            &&& after.open_pipes == supervision.open_pipes
            &&& after.requested == supervision.requested
            &&& after.status == supervision.status
        }),
{
}

/// Each pipe that is closed or fails is one less to wait for; where the pipes are gone, there is
/// none. No other event changes how many are open.
pub proof fn pipes_are_waited_for(supervision: SupervisionView, event: SupervisionEvent)
    requires
        supervision.awaits(event),
    ensures
        ({
            let after = supervision.after(event).0;
            &&& event is PipeClosed || event is PipeFailed ==> after.open_pipes + 1
                == supervision.open_pipes
            &&& event is PipesGone ==> after.open_pipes == 0
            &&& !(event is PipeClosed || event is PipeFailed || event is PipesGone)
                ==> after.open_pipes == supervision.open_pipes
        }),
{
}

/// A failure says what could not be done and why. Where waiting or reading failed, the command is
/// ended; where ending it failed, there is nothing more to do.
pub proof fn failures_say_what_failed(supervision: SupervisionView, event: SupervisionEvent)
    requires
        supervision.awaits(event),
        supervision.failure is None,
    ensures
        ({
            let (after, action) = supervision.after(event);
            &&& after.failure == match event {
                SupervisionEvent::WaitFailed(error) => Some(
                    "could not wait for command"@ + ": "@ + error@,
                ),
                SupervisionEvent::PipeFailed(error) => Some(
                    "could not read command output"@ + ": "@ + error@,
                ),
                SupervisionEvent::TerminateFailed(error) => Some(
                    "could not terminate command process group"@ + ": "@ + error@,
                ),
                SupervisionEvent::KillFailed(error) => Some(
                    "could not kill command process group"@ + ": "@ + error@,
                ),
                _ => None,
            }
            &&& event is WaitFailed || event is PipeFailed ==> after.grace_running && (
            supervision.grace_running || action == SupervisionAction::Terminate)
            &&& event is TerminateFailed || event is KillFailed ==> action
                == SupervisionAction::Nothing && after.grace_running == supervision.grace_running
            &&& after.capture == supervision.capture || event is OutputRead
            &&& after.status == supervision.status || event is Exited
        }),
{
}

/// A supervision that is over comes to a cancellation where one was asked for, and else to the
/// first failure where there was one. Otherwise it comes to what was captured and to how the
/// command ended: by the deadline where that was met, by its exit code where it has one, and else
/// by its signal.
pub proof fn supervision_comes_to_an_end(
    supervision: Supervision,
    outcome: Result<CommandResult, CommandExecutionError>,
)
    requires
        supervision.wf(),
        supervision@.finished(),
        call_ensures(Supervision::finish, (supervision,), outcome),
    ensures
        supervision@.requested == Some(RequestedOutcome::Cancelled) <==> outcome == Err::<
            CommandResult,
            CommandExecutionError,
        >(CommandExecutionError::Cancelled),
        supervision@.requested != Some(RequestedOutcome::Cancelled) && supervision@.failure is Some
            ==> (outcome matches Err(CommandExecutionError::Failed { message }) && message@
            == supervision@.failure->0),
        outcome is Ok <==> supervision@.requested != Some(RequestedOutcome::Cancelled)
            && supervision@.failure is None,
        outcome matches Ok(result) ==> {
            let report = supervision@.status->0;
            &&& supervision@.requested is Some ==> result.termination
                == CommandTermination::TimedOut
            &&& supervision@.requested is None && report.code is Some ==> result.termination == (
            CommandTermination::Exited { code: report.code->0 })
            &&& supervision@.requested is None && report.code is None && report.signal is Some
                ==> result.termination == (CommandTermination::Signaled {
                signal: report.signal->0,
            })
            &&& supervision@.requested is None && report.code is None && report.signal is None
                ==> result.termination == (CommandTermination::Signaled { signal: 0 })
            &&& chunk_views(result.output.chunks@) == supervision@.capture.chunks
            &&& result.output.stderr_bytes == supervision@.capture.stderr_bytes
            &&& result.output.stdout_bytes == supervision@.capture.stdout_bytes
        },
{
    match supervision@.requested {
        None => {},
        Some(RequestedOutcome::Cancelled) => {},
        Some(RequestedOutcome::TimedOut) => {},
    }
}

/// Supervision is over exactly where the process has ended and both pipes are closed.
pub proof fn supervision_waits_for_everything(supervision: &Supervision, finished: bool)
    requires
        call_ensures(Supervision::is_finished, (supervision,), finished),
    ensures
        finished <==> supervision@.status is Some && supervision@.open_pipes == 0,
{
}

} // verus!
