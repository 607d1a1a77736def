//! The conversation on a terminal: what is shown, what is sent to the agent, and what is waited
//! for.
use crate::approval::{offers, ApprovalDecisionView};
use crate::outside::{json_text, render_json};
use crate::protocol::{
    AgentEvent, ApprovalDecision, ApprovalGrantView, ApprovalLifetime, ApprovalSubject,
    ApprovalSubjectView, CapabilityKind, ShutdownReason, TurnOutcome,
};
use crate::text::{
    characters, decode_lossily, readable, same_text, trim, trim_end, trimmed_end, trimmed_text,
};
use vstd::prelude::*;
use vstd::string::StringExecFns;

verus! {

/// What to do next.
#[derive(Debug)]
pub enum ReplAction {
    /// Wait for a line, or for an event.
    AwaitInput,
    /// Hand the agent what the user said, and see whether it was taken.
    Say(String),
    /// Ask the agent to stop, whether it hears that or not, and leave.
    Quit(ShutdownReason),
    /// Wait for an event.
    AwaitEvent,
    /// Wait for a line, or for cancellation.
    AwaitAnswer,
    /// Answer the approval request, and see whether the agent took it.
    Respond(ApprovalDecision),
    Leave,
    /// Leave with an error.
    Fail(String),
    /// Leave with an error, because the agent said something while it was idle.
    Unexpected(AgentEvent),
}

/// What happened.
#[derive(Debug)]
pub enum ReplStimulus {
    /// A line was read, or there are no more.
    Line(Option<String>),
    /// The agent said something, or is gone.
    Event(Option<AgentEvent>),
    /// The agent took the command or the answer.
    Taken,
    /// The agent is gone and took nothing.
    NotTaken,
    Cancelled,
}

/// What the terminal is waiting for.
#[derive(Debug)]
pub enum ReplPhase {
    Idle,
    Sending,
    Turn,
    Deciding { available_lifetimes: Vec<ApprovalLifetime>, subject: ApprovalSubject },
    Explaining,
    Responding,
    Over,
}

pub enum ReplPhaseView {
    Idle,
    Sending,
    Turn,
    Deciding { available_lifetimes: Seq<ApprovalLifetime>, subject: ApprovalSubjectView },
    Explaining,
    Responding,
    Over,
}

impl View for ReplPhase {
    type V = ReplPhaseView;

    open spec fn view(&self) -> ReplPhaseView {
        match self {
            ReplPhase::Idle => ReplPhaseView::Idle,
            ReplPhase::Sending => ReplPhaseView::Sending,
            ReplPhase::Turn => ReplPhaseView::Turn,
            ReplPhase::Deciding { available_lifetimes, subject } => ReplPhaseView::Deciding {
                available_lifetimes: available_lifetimes@,
                subject: subject@,
            },
            ReplPhase::Explaining => ReplPhaseView::Explaining,
            ReplPhase::Responding => ReplPhaseView::Responding,
            ReplPhase::Over => ReplPhaseView::Over,
        }
    }
}

pub enum ReplActionView {
    AwaitInput,
    Say(Seq<char>),
    Quit(ShutdownReason),
    AwaitEvent,
    AwaitAnswer,
    Respond(ApprovalDecisionView),
    Leave,
    Fail(Seq<char>),
    Unexpected(AgentEvent),
}

impl View for ReplAction {
    type V = ReplActionView;

    open spec fn view(&self) -> ReplActionView {
        match self {
            ReplAction::AwaitInput => ReplActionView::AwaitInput,
            ReplAction::Say(line) => ReplActionView::Say(line@),
            ReplAction::Quit(reason) => ReplActionView::Quit(*reason),
            ReplAction::AwaitEvent => ReplActionView::AwaitEvent,
            ReplAction::AwaitAnswer => ReplActionView::AwaitAnswer,
            ReplAction::Respond(decision) => ReplActionView::Respond(decision@),
            ReplAction::Leave => ReplActionView::Leave,
            ReplAction::Fail(words) => ReplActionView::Fail(words@),
            ReplAction::Unexpected(event) => ReplActionView::Unexpected(*event),
        }
    }
}

/// A step of the conversation: what is written, and what to do next.
#[derive(Debug)]
pub struct ReplStep {
    pub action: ReplAction,
    pub output: String,
}

/// What a step comes to.
pub struct ReplStepView {
    pub action: ReplActionView,
    pub output: Seq<char>,
    pub phase: ReplPhaseView,
}

/// What is read as a line: white space at its end does not count.
pub fn input_line(raw: &str) -> (line: String)
    ensures
        line@ == trimmed_end(raw@),
{
    trim_end(raw)
}

/// The letters that an approval may be answered with.
pub open spec fn options_text(available: Seq<ApprovalLifetime>) -> Seq<char> {
    let once = if available.contains(ApprovalLifetime::Invocation) {
        "[y,n"@
    } else {
        "[n"@
    };
    let run = if available.contains(ApprovalLifetime::Run) {
        once + ",a"@
    } else {
        once
    };
    let workspace = if available.contains(ApprovalLifetime::Workspace) {
        run + ",w"@
    } else {
        run
    };
    workspace + "]"@
}

pub fn approval_options(available_lifetimes: &[ApprovalLifetime]) -> (options: String)
    ensures
        options@ == options_text(available_lifetimes@),
{
    let once = if offers(available_lifetimes, ApprovalLifetime::Invocation) {
        "[y,n".to_owned()
    } else {
        "[n".to_owned()
    };
    let run = if offers(available_lifetimes, ApprovalLifetime::Run) {
        once.concat(",a")
    } else {
        once
    };
    let workspace = if offers(available_lifetimes, ApprovalLifetime::Workspace) {
        run.concat(",w")
    } else {
        run
    };
    workspace.concat("]")
}

/// What the user is warned of before a capability is granted.
pub open spec fn notice_text(subject: ApprovalSubjectView) -> Option<Seq<char>> {
    match subject {
        ApprovalSubjectView::Capability { capability, .. } => match capability.kind {
            CapabilityKind::DockerDaemon => Some(
                "WARNING: Docker daemon access can mount arbitrary host paths, use external networks, and create persistent host effects. The command sandbox does not make Docker safe, and containers may outlive this command or Cane. Endpoint: "@
                    + capability.resource,
            ),
        },
        ApprovalSubjectView::ToolCall { .. } => None,
    }
}

pub fn capability_notice(subject: &ApprovalSubject) -> (notice: Option<String>)
    ensures
        match notice_text(subject@) {
            None => notice is None,
            Some(words) => notice is Some && notice->0@ == words,
        },
{
    match subject {
        ApprovalSubject::ToolCall { .. } => None,
        ApprovalSubject::Capability { capability, .. } => match capability.kind() {
            CapabilityKind::DockerDaemon => Some(
                "WARNING: Docker daemon access can mount arbitrary host paths, use external networks, and create persistent host effects. The command sandbox does not make Docker safe, and containers may outlive this command or Cane. Endpoint: ".to_owned().concat(
                    capability.resource(),
                ),
            ),
        },
    }
}

/// What an answer to an approval request means.
#[derive(Clone, Copy, Debug, PartialEq, Eq, Structural)]
pub enum ApprovalAnswer {
    Deny,
    Grant(ApprovalLifetime),
    Unclear,
}

/// Whether a text is one letter, in either case.
pub open spec fn is_letter(text: Seq<char>, lower: char, upper: char) -> bool {
    text.len() == 1 && (text[0] == lower || text[0] == upper)
}

/// What a line means where `available` is on offer: nothing or `n` denies, and a letter grants
/// what it stands for where that is on offer.
pub open spec fn answer_of(line: Seq<char>, available: Seq<ApprovalLifetime>) -> ApprovalAnswer {
    let answer = trimmed_text(line);
    if answer.len() == 0 || is_letter(answer, 'n', 'N') {
        ApprovalAnswer::Deny
    } else if is_letter(answer, 'a', 'A') && available.contains(ApprovalLifetime::Run) {
        ApprovalAnswer::Grant(ApprovalLifetime::Run)
    } else if is_letter(answer, 'w', 'W') && available.contains(ApprovalLifetime::Workspace) {
        ApprovalAnswer::Grant(ApprovalLifetime::Workspace)
    } else if is_letter(answer, 'y', 'Y') && available.contains(ApprovalLifetime::Invocation) {
        ApprovalAnswer::Grant(ApprovalLifetime::Invocation)
    } else {
        ApprovalAnswer::Unclear
    }
}

pub fn read_answer(line: &str, available_lifetimes: &[ApprovalLifetime]) -> (answer: ApprovalAnswer)
    ensures
        answer == answer_of(line@, available_lifetimes@),
{
    let answer = trim(line);
    let letters = characters(answer.as_str());
    if letters.len() == 0 {
        return ApprovalAnswer::Deny;
    }
    if letters.len() > 1 {
        return ApprovalAnswer::Unclear;
    }
    let letter = letters[0];
    if letter == 'n' || letter == 'N' {
        return ApprovalAnswer::Deny;
    }
    if (letter == 'a' || letter == 'A') && offers(available_lifetimes, ApprovalLifetime::Run) {
        return ApprovalAnswer::Grant(ApprovalLifetime::Run);
    }
    if (letter == 'w' || letter == 'W') && offers(
        available_lifetimes,
        ApprovalLifetime::Workspace,
    ) {
        return ApprovalAnswer::Grant(ApprovalLifetime::Workspace);
    }
    if (letter == 'y' || letter == 'Y') && offers(
        available_lifetimes,
        ApprovalLifetime::Invocation,
    ) {
        return ApprovalAnswer::Grant(ApprovalLifetime::Invocation);
    }
    ApprovalAnswer::Unclear
}

/// What is shown of an event in the middle of a turn.
pub open spec fn shown(event: AgentEvent) -> Seq<char> {
    match event {
        AgentEvent::TextDelta(text) => text@,
        AgentEvent::CommandOutput(chunk) => readable(chunk.bytes@),
        AgentEvent::ToolStarted { input, name } => "\n[tool: "@ + name@ + " "@ + json_text(input)
            + "]\n"@,
        AgentEvent::ToolFinished { is_error, output, .. } => if is_error {
            "[tool error: "@ + output@ + "]\n"@
        } else {
            ""@
        },
        AgentEvent::ToolDenied { reason, .. } => "[tool denied: "@ + reason@ + "]\n"@,
        AgentEvent::ToolRejected { error, .. } => "[tool error: "@ + error@ + "]\n"@,
        AgentEvent::TurnComplete { outcome } => match outcome {
            TurnOutcome::Paused { reason } => "\npaused: "@ + reason@ + "\n"@,
            _ => "\n"@,
        },
        AgentEvent::Error(error) => "\nerror: "@ + error@ + "\n"@,
        AgentEvent::Warning(warning) => "\nwarning: "@ + warning@ + "\n"@,
        AgentEvent::ApprovalRequest { available_lifetimes, input, subject } => {
            let request = "\n[approval request: "@ + subject@.tool() + " "@ + json_text(input)
                + "] "@ + options_text(available_lifetimes@) + "\n"@;
            match notice_text(subject@) {
                None => request,
                Some(notice) => "\n"@ + notice + "\n"@ + request,
            }
        },
        AgentEvent::ChecklistUpdated(_) => ""@,
    }
}

pub fn show(event: &AgentEvent) -> (text: String)
    ensures
        text@ == shown(*event),
{
    match event {
        AgentEvent::TextDelta(text) => text.clone(),
        AgentEvent::CommandOutput(chunk) => decode_lossily(chunk.bytes.as_slice()),
        AgentEvent::ToolStarted { input, name } => "\n[tool: ".to_owned().concat(
            name.as_str(),
        ).concat(" ").concat(render_json(input).as_str()).concat("]\n"),
        AgentEvent::ToolFinished { is_error, output, .. } => if *is_error {
            "[tool error: ".to_owned().concat(output.as_str()).concat("]\n")
        } else {
            "".to_owned()
        },
        AgentEvent::ToolDenied { reason, .. } => "[tool denied: ".to_owned().concat(
            reason.as_str(),
        ).concat("]\n"),
        AgentEvent::ToolRejected { error, .. } => "[tool error: ".to_owned().concat(
            error.as_str(),
        ).concat("]\n"),
        AgentEvent::TurnComplete { outcome } => match outcome {
            TurnOutcome::Paused { reason } => "\npaused: ".to_owned().concat(
                reason.as_str(),
            ).concat("\n"),
            _ => "\n".to_owned(),
        },
        AgentEvent::Error(error) => "\nerror: ".to_owned().concat(error.as_str()).concat("\n"),
        AgentEvent::Warning(warning) => "\nwarning: ".to_owned().concat(
            warning.as_str(),
        ).concat("\n"),
        AgentEvent::ApprovalRequest { available_lifetimes, input, subject } => {
            let request = "\n[approval request: ".to_owned().concat(subject.tool_name()).concat(
                " ",
            ).concat(render_json(input).as_str()).concat("] ").concat(
                approval_options(available_lifetimes.as_slice()).as_str(),
            ).concat("\n");
            match capability_notice(subject) {
                None => request,
                Some(notice) => "\n".to_owned().concat(notice.as_str()).concat("\n").concat(
                    request.as_str(),
                ),
            }
        },
        AgentEvent::ChecklistUpdated(_) => "".to_owned(),
    }
}

pub open spec fn stepping(
    phase: ReplPhaseView,
    action: ReplActionView,
    output: Seq<char>,
) -> ReplStepView {
    ReplStepView { action, output, phase }
}

/// Back to the prompt, after `output`.
pub open spec fn prompting(output: Seq<char>) -> ReplStepView {
    stepping(ReplPhaseView::Idle, ReplActionView::AwaitInput, output + "> "@)
}

pub open spec fn leaving(output: Seq<char>) -> ReplStepView {
    stepping(ReplPhaseView::Over, ReplActionView::Leave, output)
}

pub open spec fn failing(words: Seq<char>) -> ReplStepView {
    stepping(ReplPhaseView::Over, ReplActionView::Fail(words), ""@)
}

pub open spec fn idle_step(stimulus: ReplStimulus) -> ReplStepView {
    match stimulus {
        ReplStimulus::Line(None) => stepping(
            ReplPhaseView::Over,
            ReplActionView::Quit(ShutdownReason::InputClosed),
            ""@,
        ),
        ReplStimulus::Line(Some(line)) => if line@ == "/quit"@ {
            stepping(
                ReplPhaseView::Over,
                ReplActionView::Quit(ShutdownReason::UserQuit),
                ""@,
            )
        } else {
            stepping(ReplPhaseView::Sending, ReplActionView::Say(line@), ""@)
        },
        ReplStimulus::Event(Some(event)) => match event {
            AgentEvent::Error(_) | AgentEvent::Warning(_) => prompting(shown(event)),
            _ => stepping(ReplPhaseView::Over, ReplActionView::Unexpected(event), ""@),
        },
        _ => leaving(""@),
    }
}

pub open spec fn turn_step(stimulus: ReplStimulus) -> ReplStepView {
    match stimulus {
        ReplStimulus::Event(Some(event)) => match event {
            AgentEvent::TurnComplete { outcome } => if outcome is Cancelled {
                leaving(shown(event))
            } else {
                prompting(shown(event))
            },
            AgentEvent::ApprovalRequest { available_lifetimes, subject, .. } => stepping(
                ReplPhaseView::Deciding {
                    available_lifetimes: available_lifetimes@,
                    subject: subject@,
                },
                ReplActionView::AwaitAnswer,
                shown(event) + "> "@,
            ),
            _ => stepping(ReplPhaseView::Turn, ReplActionView::AwaitEvent, shown(event)),
        },
        _ => failing("agent stopped before completing the turn"@),
    }
}

pub open spec fn deciding_step(
    available_lifetimes: Seq<ApprovalLifetime>,
    subject: ApprovalSubjectView,
    stimulus: ReplStimulus,
) -> ReplStepView {
    match stimulus {
        ReplStimulus::Cancelled => stepping(
            ReplPhaseView::Turn,
            ReplActionView::AwaitEvent,
            ""@,
        ),
        ReplStimulus::Line(Some(line)) => match answer_of(line@, available_lifetimes) {
            ApprovalAnswer::Deny => stepping(
                ReplPhaseView::Explaining,
                ReplActionView::AwaitAnswer,
                "\nreason:\n> "@,
            ),
            ApprovalAnswer::Grant(lifetime) => stepping(
                ReplPhaseView::Responding,
                ReplActionView::Respond(
                    ApprovalDecisionView::Grant(subject.granted_for(lifetime)),
                ),
                ""@,
            ),
            ApprovalAnswer::Unclear => stepping(
                ReplPhaseView::Deciding { available_lifetimes, subject },
                ReplActionView::AwaitAnswer,
                "> "@,
            ),
        },
        _ => failing("eof"@),
    }
}

pub open spec fn explaining_step(stimulus: ReplStimulus) -> ReplStepView {
    match stimulus {
        ReplStimulus::Cancelled => stepping(
            ReplPhaseView::Turn,
            ReplActionView::AwaitEvent,
            ""@,
        ),
        ReplStimulus::Line(Some(line)) => stepping(
            ReplPhaseView::Responding,
            ReplActionView::Respond(ApprovalDecisionView::Deny { reason: line@ }),
            ""@,
        ),
        _ => failing("eof"@),
    }
}

/// What the terminal does when it hears `stimulus`.
pub open spec fn repl_step(phase: ReplPhaseView, stimulus: ReplStimulus) -> ReplStepView {
    match phase {
        ReplPhaseView::Idle => idle_step(stimulus),
        ReplPhaseView::Sending => if stimulus is Taken {
            stepping(ReplPhaseView::Turn, ReplActionView::AwaitEvent, ""@)
        } else {
            leaving(""@)
        },
        ReplPhaseView::Turn => turn_step(stimulus),
        ReplPhaseView::Deciding { available_lifetimes, subject } => deciding_step(
            available_lifetimes,
            subject,
            stimulus,
        ),
        ReplPhaseView::Explaining => explaining_step(stimulus),
        ReplPhaseView::Responding => if stimulus is Taken {
            stepping(ReplPhaseView::Turn, ReplActionView::AwaitEvent, ""@)
        } else {
            prompting(""@)
        },
        ReplPhaseView::Over => leaving(""@),
    }
}

/// A conversation on a terminal.
pub struct Repl {
    phase: ReplPhase,
}

impl View for Repl {
    type V = ReplPhaseView;

    closed spec fn view(&self) -> ReplPhaseView {
        self.phase@
    }
}

impl Repl {
    /// A conversation at its first prompt.
    pub fn start() -> (started: (Repl, ReplStep))
        ensures
            stepping(started.0@, started.1.action@, started.1.output@) == prompting(""@),
    {
        let output = "".to_owned().concat("> ");
        (Repl { phase: ReplPhase::Idle }, ReplStep { action: ReplAction::AwaitInput, output })
    }

    fn take(&mut self, phase: ReplPhase, action: ReplAction, output: String) -> (step: ReplStep)
        ensures
            final(self)@ == phase@,
            step.action@ == action@,
            step.output@ == output@,
    {
        self.phase = phase;
        ReplStep { action, output }
    }

    fn prompt(&mut self, output: String) -> (step: ReplStep)
        ensures
            stepping(final(self)@, step.action@, step.output@) == prompting(output@),
    {
        self.take(ReplPhase::Idle, ReplAction::AwaitInput, output.concat("> "))
    }

    fn leave(&mut self, output: String) -> (step: ReplStep)
        ensures
            stepping(final(self)@, step.action@, step.output@) == leaving(output@),
    {
        self.take(ReplPhase::Over, ReplAction::Leave, output)
    }

    fn fail(&mut self, words: &str) -> (step: ReplStep)
        ensures
            stepping(final(self)@, step.action@, step.output@) == failing(words@),
    {
        self.take(ReplPhase::Over, ReplAction::Fail(words.to_owned()), "".to_owned())
    }

    fn hear_idle(&mut self, stimulus: ReplStimulus) -> (step: ReplStep)
        ensures
            stepping(final(self)@, step.action@, step.output@) == idle_step(stimulus),
    {
        match stimulus {
            ReplStimulus::Line(None) => self.take(
                ReplPhase::Over,
                ReplAction::Quit(ShutdownReason::InputClosed),
                "".to_owned(),
            ),
            ReplStimulus::Line(Some(line)) => if same_text(line.as_str(), "/quit") {
                self.take(
                    ReplPhase::Over,
                    ReplAction::Quit(ShutdownReason::UserQuit),
                    "".to_owned(),
                )
            } else {
                self.take(
                    ReplPhase::Sending,
                    ReplAction::Say(line),
                    "".to_owned(),
                )
            },
            ReplStimulus::Event(Some(event)) => {
                let text = show(&event);
                match event {
                    AgentEvent::Error(_) | AgentEvent::Warning(_) => self.prompt(text),
                    _ => self.take(
                        ReplPhase::Over,
                        ReplAction::Unexpected(event),
                        "".to_owned(),
                    ),
                }
            },
            _ => self.leave("".to_owned()),
        }
    }

    fn hear_turn(&mut self, stimulus: ReplStimulus) -> (step: ReplStep)
        ensures
            stepping(final(self)@, step.action@, step.output@) == turn_step(stimulus),
    {
        match stimulus {
            ReplStimulus::Event(Some(event)) => {
                let text = show(&event);
                match event {
                    AgentEvent::TurnComplete { outcome } => match outcome {
                        TurnOutcome::Cancelled => self.leave(text),
                        _ => self.prompt(text),
                    },
                    AgentEvent::ApprovalRequest { available_lifetimes, subject, .. } => self.take(
                        ReplPhase::Deciding { available_lifetimes, subject },
                        ReplAction::AwaitAnswer,
                        text.concat("> "),
                    ),
                    _ => self.take(ReplPhase::Turn, ReplAction::AwaitEvent, text),
                }
            },
            _ => self.fail("agent stopped before completing the turn"),
        }
    }

    fn hear_answer(
        &mut self,
        available_lifetimes: Vec<ApprovalLifetime>,
        subject: ApprovalSubject,
        stimulus: ReplStimulus,
    ) -> (step: ReplStep)
        ensures
            stepping(final(self)@, step.action@, step.output@) == deciding_step(
                available_lifetimes@,
                subject@,
                stimulus,
            ),
    {
        match stimulus {
            ReplStimulus::Cancelled => self.take(
                ReplPhase::Turn,
                ReplAction::AwaitEvent,
                "".to_owned(),
            ),
            ReplStimulus::Line(Some(line)) => match read_answer(
                line.as_str(),
                available_lifetimes.as_slice(),
            ) {
                ApprovalAnswer::Deny => self.take(
                    ReplPhase::Explaining,
                    ReplAction::AwaitAnswer,
                    "\nreason:\n> ".to_owned(),
                ),
                ApprovalAnswer::Grant(lifetime) => self.take(
                    ReplPhase::Responding,
                    ReplAction::Respond(ApprovalDecision::Grant(subject.grant(lifetime))),
                    "".to_owned(),
                ),
                ApprovalAnswer::Unclear => self.take(
                    ReplPhase::Deciding { available_lifetimes, subject },
                    ReplAction::AwaitAnswer,
                    "> ".to_owned(),
                ),
            },
            _ => self.fail("eof"),
        }
    }

    fn hear_reason(&mut self, stimulus: ReplStimulus) -> (step: ReplStep)
        ensures
            stepping(final(self)@, step.action@, step.output@) == explaining_step(stimulus),
    {
        match stimulus {
            ReplStimulus::Cancelled => self.take(
                ReplPhase::Turn,
                ReplAction::AwaitEvent,
                "".to_owned(),
            ),
            ReplStimulus::Line(Some(reason)) => self.take(
                ReplPhase::Responding,
                ReplAction::Respond(ApprovalDecision::Deny { reason }),
                "".to_owned(),
            ),
            _ => self.fail("eof"),
        }
    }

    /// Hears what happened and says what to write and do next.
    pub fn hear(&mut self, stimulus: ReplStimulus) -> (step: ReplStep)
        ensures
            stepping(final(self)@, step.action@, step.output@) == repl_step(
                old(self)@,
                stimulus,
            ),
    {
        let mut phase = ReplPhase::Over;
        std::mem::swap(&mut phase, &mut self.phase);
        match phase {
            ReplPhase::Idle => self.hear_idle(stimulus),
            ReplPhase::Sending => match stimulus {
                ReplStimulus::Taken => self.take(
                    ReplPhase::Turn,
                    ReplAction::AwaitEvent,
                    "".to_owned(),
                ),
                _ => self.leave("".to_owned()),
            },
            ReplPhase::Turn => self.hear_turn(stimulus),
            ReplPhase::Deciding { available_lifetimes, subject } => self.hear_answer(
                available_lifetimes,
                subject,
                stimulus,
            ),
            ReplPhase::Explaining => self.hear_reason(stimulus),
            ReplPhase::Responding => match stimulus {
                ReplStimulus::Taken => self.take(
                    ReplPhase::Turn,
                    ReplAction::AwaitEvent,
                    "".to_owned(),
                ),
                _ => self.prompt("".to_owned()),
            },
            ReplPhase::Over => self.leave("".to_owned()),
        }
    }
}

/// Whatever the user types, what is granted was on offer and covers what was asked for.
pub proof fn answers_grant_only_what_is_offered(
    available_lifetimes: Seq<ApprovalLifetime>,
    subject: ApprovalSubjectView,
    stimulus: ReplStimulus,
    grant: ApprovalGrantView,
)
    requires
        deciding_step(available_lifetimes, subject, stimulus).action == ReplActionView::Respond(
            ApprovalDecisionView::Grant(grant),
        ),
    ensures
        available_lifetimes.contains(grant.scope.lasts()),
        grant.covers(subject),
{
}

/// A tool that ran without an error shows nothing of its output.
pub proof fn successful_output_stays_hidden(event: AgentEvent)
    requires
        event is ToolFinished,
        !event->ToolFinished_is_error,
    ensures
        shown(event) == ""@,
{
}

/// At the prompt, what the user types is handed to the agent as it is; `/quit` and the end of the
/// input stop the conversation, each for its own reason.
pub proof fn lines_are_handed_to_the_agent(line: String)
    ensures
        ({
            let typed = repl_step(ReplPhaseView::Idle, ReplStimulus::Line(Some(line)));
            let ended = repl_step(ReplPhaseView::Idle, ReplStimulus::Line(None));
            &&& line@ != "/quit"@ ==> typed.action == ReplActionView::Say(line@) && typed.phase
                == ReplPhaseView::Sending && typed.output == ""@
            &&& line@ == "/quit"@ ==> typed.action == ReplActionView::Quit(
                ShutdownReason::UserQuit,
            ) && typed.phase == ReplPhaseView::Over
            &&& ended.action == ReplActionView::Quit(ShutdownReason::InputClosed) && ended.phase
                == ReplPhaseView::Over
        }),
{
}

/// During a turn every event is shown. The turn goes on until it is complete, and then the prompt
/// comes back, unless the turn was cancelled; an approval request waits for an answer to what it
/// offers.
pub proof fn turns_show_their_events(event: AgentEvent)
    ensures
        ({
            let step = repl_step(ReplPhaseView::Turn, ReplStimulus::Event(Some(event)));
            match event {
                AgentEvent::TurnComplete { outcome: TurnOutcome::Cancelled } => step.action
                    == ReplActionView::Leave && step.phase == ReplPhaseView::Over && step.output
                    == shown(event),
                AgentEvent::TurnComplete { .. } => step.action == ReplActionView::AwaitInput
                    && step.phase == ReplPhaseView::Idle && step.output == shown(event) + "> "@,
                AgentEvent::ApprovalRequest { available_lifetimes, subject, .. } => step.action
                    == ReplActionView::AwaitAnswer && step.output == shown(event) + "> "@
                    && step.phase == (ReplPhaseView::Deciding {
                    available_lifetimes: available_lifetimes@,
                    subject: subject@,
                }),
                _ => step.action == ReplActionView::AwaitEvent && step.phase == ReplPhaseView::Turn
                    && step.output == shown(event),
            }
        }),
{
}

/// What an agent says while it is idle is shown where it is an error or a warning, and ends the
/// conversation where it is anything else.
pub proof fn idle_agents_only_warn(event: AgentEvent)
    ensures
        ({
            let step = repl_step(ReplPhaseView::Idle, ReplStimulus::Event(Some(event)));
            &&& event is Error || event is Warning ==> step.action == ReplActionView::AwaitInput
                && step.phase == ReplPhaseView::Idle && step.output == shown(event) + "> "@
            &&& !(event is Error || event is Warning) ==> step.action
                == ReplActionView::Unexpected(event) && step.phase == ReplPhaseView::Over
        }),
{
}

/// An agent that goes away ends the conversation: in silence at the prompt, and with an error in
/// the middle of a turn. A command or an answer that is taken leads to the turn.
pub proof fn lost_agents_end_the_conversation()
    ensures
        repl_step(ReplPhaseView::Idle, ReplStimulus::Event(None)).action == ReplActionView::Leave,
        repl_step(ReplPhaseView::Turn, ReplStimulus::Event(None)).action == ReplActionView::Fail(
            "agent stopped before completing the turn"@,
        ),
        repl_step(ReplPhaseView::Sending, ReplStimulus::NotTaken).action == ReplActionView::Leave,
        repl_step(ReplPhaseView::Sending, ReplStimulus::Taken).phase == ReplPhaseView::Turn,
        repl_step(ReplPhaseView::Sending, ReplStimulus::Taken).action
            == ReplActionView::AwaitEvent,
        repl_step(ReplPhaseView::Responding, ReplStimulus::Taken).phase == ReplPhaseView::Turn,
        repl_step(ReplPhaseView::Responding, ReplStimulus::Taken).action
            == ReplActionView::AwaitEvent,
        repl_step(ReplPhaseView::Responding, ReplStimulus::NotTaken).action
            == ReplActionView::AwaitInput,
        repl_step(ReplPhaseView::Responding, ReplStimulus::NotTaken).phase == ReplPhaseView::Idle,
{
}

/// Whether a line says this one letter, small or large, with white space around it or not.
pub open spec fn says(line: Seq<char>, small: char, large: char) -> bool {
    trimmed_text(line) == seq![small] || trimmed_text(line) == seq![large]
}

/// An answer to an approval request grants what its letter stands for, where that is on offer;
/// `n` or nothing asks for a reason; and anything else asks again.
pub proof fn answers_are_taken_at_their_letter(
    line: String,
    available_lifetimes: Seq<ApprovalLifetime>,
    subject: ApprovalSubjectView,
)
    ensures
        ({
            let phase = ReplPhaseView::Deciding { available_lifetimes, subject };
            let step = repl_step(phase, ReplStimulus::Line(Some(line)));
            let once = says(line@, 'y', 'Y') && available_lifetimes.contains(
                ApprovalLifetime::Invocation,
            );
            let run = says(line@, 'a', 'A') && available_lifetimes.contains(ApprovalLifetime::Run);
            let workspace = says(line@, 'w', 'W') && available_lifetimes.contains(
                ApprovalLifetime::Workspace,
            );
            let denied = says(line@, 'n', 'N') || trimmed_text(line@).len() == 0;
            &&& once ==> step.action == ReplActionView::Respond(
                ApprovalDecisionView::Grant(subject.granted_for(ApprovalLifetime::Invocation)),
            ) && step.phase == ReplPhaseView::Responding
            &&& run ==> step.action == ReplActionView::Respond(
                ApprovalDecisionView::Grant(subject.granted_for(ApprovalLifetime::Run)),
            ) && step.phase == ReplPhaseView::Responding
            &&& workspace ==> step.action == ReplActionView::Respond(
                ApprovalDecisionView::Grant(subject.granted_for(ApprovalLifetime::Workspace)),
            ) && step.phase == ReplPhaseView::Responding
            &&& denied ==> step.action == ReplActionView::AwaitAnswer && step.phase
                == ReplPhaseView::Explaining && step.output == "\nreason:\n> "@
            &&& !once && !run && !workspace && !denied ==> step.action
                == ReplActionView::AwaitAnswer && step.phase == phase && step.output == "> "@
        }),
{
    let answer = trimmed_text(line@);
    assert(says(line@, 'y', 'Y') ==> answer[0] == 'y' || answer[0] == 'Y');
    assert(says(line@, 'a', 'A') ==> answer[0] == 'a' || answer[0] == 'A');
    assert(says(line@, 'w', 'W') ==> answer[0] == 'w' || answer[0] == 'W');
    assert(says(line@, 'n', 'N') ==> answer[0] == 'n' || answer[0] == 'N');
    if answer.len() == 1 {
        assert(answer =~= seq![answer[0]]);
    }
}

/// The reason for a denial is passed on as it was typed. A cancellation leads back to the turn,
/// and the end of the input is an error.
pub proof fn reasons_are_passed_on(
    line: String,
    available_lifetimes: Seq<ApprovalLifetime>,
    subject: ApprovalSubjectView,
)
    ensures
        ({
            let given = repl_step(ReplPhaseView::Explaining, ReplStimulus::Line(Some(line)));
            given.action == ReplActionView::Respond(ApprovalDecisionView::Deny { reason: line@ })
                && given.phase == ReplPhaseView::Responding
        }),
        ({
            let deciding = ReplPhaseView::Deciding { available_lifetimes, subject };
            &&& repl_step(deciding, ReplStimulus::Cancelled).phase == ReplPhaseView::Turn
            &&& repl_step(deciding, ReplStimulus::Cancelled).action == ReplActionView::AwaitEvent
            &&& repl_step(deciding, ReplStimulus::Line(None)).action == ReplActionView::Fail(
                "eof"@,
            )
        }),
        repl_step(ReplPhaseView::Explaining, ReplStimulus::Cancelled).phase == ReplPhaseView::Turn,
        repl_step(ReplPhaseView::Explaining, ReplStimulus::Line(None)).action
            == ReplActionView::Fail("eof"@),
{
}

/// The offer names `n` always, and `y`, `a` and `w` where one call, the run and the workspace are
/// on offer.
pub proof fn offers_name_their_letters(available: Seq<ApprovalLifetime>)
    ensures
        options_text(available) == (if available.contains(ApprovalLifetime::Invocation) {
            "[y,n"@
        } else {
            "[n"@
        }) + (if available.contains(ApprovalLifetime::Run) {
            ",a"@
        } else {
            Seq::empty()
        }) + (if available.contains(ApprovalLifetime::Workspace) {
            ",w"@
        } else {
            Seq::empty()
        }) + "]"@,
{
    let once = if available.contains(ApprovalLifetime::Invocation) {
        "[y,n"@
    } else {
        "[n"@
    };
    assert(once + Seq::empty() =~= once);
    assert(once + ",a"@ + Seq::empty() =~= once + ",a"@);
}

/// What the model says and what commands write is shown as it is; errors, warnings, denials and
/// failed tools are shown with what was said of them.
pub proof fn events_are_shown(event: AgentEvent)
    ensures
        match event {
            AgentEvent::TextDelta(text) => shown(event) == text@,
            AgentEvent::CommandOutput(chunk) => shown(event) == readable(chunk.bytes@),
            AgentEvent::ToolStarted { input, name } => shown(event) == "\n[tool: "@ + name@ + " "@
                + json_text(input) + "]\n"@,
            AgentEvent::ToolFinished { is_error, output, .. } => is_error ==> shown(event)
                == "[tool error: "@ + output@ + "]\n"@,
            AgentEvent::ToolDenied { reason, .. } => shown(event) == "[tool denied: "@ + reason@
                + "]\n"@,
            AgentEvent::ToolRejected { error, .. } => shown(event) == "[tool error: "@ + error@
                + "]\n"@,
            AgentEvent::TurnComplete { outcome: TurnOutcome::Paused { reason } } => shown(event)
                == "\npaused: "@ + reason@ + "\n"@,
            AgentEvent::TurnComplete { .. } => shown(event) == "\n"@,
            AgentEvent::Error(error) => shown(event) == "\nerror: "@ + error@ + "\n"@,
            AgentEvent::Warning(warning) => shown(event) == "\nwarning: "@ + warning@ + "\n"@,
            AgentEvent::ApprovalRequest { available_lifetimes, input, subject } => (
            "\n[approval request: "@ + subject@.tool() + " "@ + json_text(input) + "] "@
                + options_text(available_lifetimes@) + "\n"@).is_suffix_of(shown(event)),
            AgentEvent::ChecklistUpdated(_) => shown(event) == ""@,
        },
{
    if let AgentEvent::ApprovalRequest { available_lifetimes, input, subject } = event {
        let request = "\n[approval request: "@ + subject@.tool() + " "@ + json_text(input) + "] "@
            + options_text(available_lifetimes@) + "\n"@;
        let text = shown(event);
        assert(request =~= text.subrange(text.len() - request.len(), text.len() as int));
    }
}

/// Access to the Docker daemon is never asked for without a warning that names the endpoint.
pub proof fn docker_access_is_warned_of(event: AgentEvent)
    requires
        event is ApprovalRequest,
        event->ApprovalRequest_subject@ is Capability,
    ensures
        ("\n"@
            + "WARNING: Docker daemon access can mount arbitrary host paths, use external networks, and create persistent host effects. The command sandbox does not make Docker safe, and containers may outlive this command or Cane. Endpoint: "@
            + event->ApprovalRequest_subject@->Capability_capability.resource).is_prefix_of(
            shown(event),
        ),
{
    let capability = event->ApprovalRequest_subject@->Capability_capability;
    match capability.kind {
        CapabilityKind::DockerDaemon => {
            let notice = "\n"@
                + "WARNING: Docker daemon access can mount arbitrary host paths, use external networks, and create persistent host effects. The command sandbox does not make Docker safe, and containers may outlive this command or Cane. Endpoint: "@
                + capability.resource;
            assert(notice =~= shown(event).subrange(0, notice.len() as int));
        },
    }
}

} // verus!
