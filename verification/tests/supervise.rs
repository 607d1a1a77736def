use cane::command::output::{CommandOutputChunk, CommandTermination};
use cane::command::supervise::{
    CommandExecutionError, ExitReport, Supervision, SupervisionAction, SupervisionEvent,
};

fn exited(code: i32) -> SupervisionEvent {
    SupervisionEvent::Exited(ExitReport { code: Some(code), signal: None })
}

fn close(supervision: &mut Supervision) {
    while supervision.awaits_output() {
        supervision.step(SupervisionEvent::PipeClosed);
    }
}

#[test]
fn executor_drains_both_streams_and_returns_a_nonzero_exit_normally() {
    let mut supervision = Supervision::new();

    supervision.step(SupervisionEvent::OutputRead(CommandOutputChunk::stdout(b"out".to_vec())));
    supervision.step(exited(7));
    assert!(!supervision.is_finished());
    supervision.step(SupervisionEvent::OutputRead(CommandOutputChunk::stderr(b"err".to_vec())));
    close(&mut supervision);

    assert!(supervision.is_finished());
    let result = supervision.finish().unwrap();
    assert_eq!(result.termination, CommandTermination::Exited { code: 7 });
    assert_eq!(result.output.stdout_bytes, 3);
    assert_eq!(result.output.stderr_bytes, 3);
}

#[test]
fn executor_reports_signal_termination_without_a_synthetic_exit_code() {
    let mut supervision = Supervision::new();

    supervision.step(SupervisionEvent::Exited(ExitReport { code: None, signal: Some(15) }));
    close(&mut supervision);

    assert_eq!(
        supervision.finish().unwrap().termination,
        CommandTermination::Signaled { signal: 15 }
    );
}

#[test]
fn executor_returns_captured_output_with_a_timeout() {
    let mut supervision = Supervision::new();

    supervision.step(SupervisionEvent::OutputRead(CommandOutputChunk::stdout(b"part".to_vec())));
    assert_eq!(
        supervision.step(SupervisionEvent::DeadlineElapsed),
        SupervisionAction::Terminate
    );
    assert!(!supervision.awaits_request());
    assert!(supervision.awaits_grace());
    assert_eq!(supervision.step(SupervisionEvent::GraceElapsed), SupervisionAction::Kill);
    supervision.step(SupervisionEvent::Exited(ExitReport { code: None, signal: Some(9) }));
    supervision.step(SupervisionEvent::PipesGone);

    let result = supervision.finish().unwrap();
    assert_eq!(result.termination, CommandTermination::TimedOut);
    assert_eq!(result.output.stdout_bytes, 4);
}

#[test]
fn executor_cancellation_cleans_up_before_returning_cancelled() {
    let mut supervision = Supervision::new();

    assert_eq!(
        supervision.step(SupervisionEvent::CancelRequested),
        SupervisionAction::Terminate
    );
    supervision.step(exited(0));
    close(&mut supervision);

    assert!(!supervision.awaits_exit());
    assert_eq!(supervision.finish(), Err(CommandExecutionError::Cancelled));
}

#[test]
fn the_first_failure_is_the_one_that_is_reported() {
    let mut supervision = Supervision::new();

    assert_eq!(
        supervision.step(SupervisionEvent::PipeFailed("broken".to_string())),
        SupervisionAction::Terminate
    );
    supervision.step(SupervisionEvent::TerminateFailed("gone".to_string()));
    assert_eq!(
        supervision.step(SupervisionEvent::WaitFailed("lost".to_string())),
        SupervisionAction::Nothing
    );
    supervision.step(SupervisionEvent::KillFailed("late".to_string()));
    supervision.step(exited(0));
    close(&mut supervision);

    let error = supervision.finish().unwrap_err();
    assert_eq!(
        error.describe(),
        "command executor failed: could not read command output: broken"
    );
}

#[test]
fn cancellation_in_words() {
    assert_eq!(
        CommandExecutionError::Cancelled.describe(),
        "command execution was cancelled"
    );
}
