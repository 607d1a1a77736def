use cane::command::output::{
    format_command_result, CapturedOutput, CommandOutputChunk, CommandResult, CommandTermination,
    MAX_COMMAND_RESULT_BYTES,
};

fn result(output: CapturedOutput, termination: CommandTermination) -> CommandResult {
    CommandResult {
        output,
        termination,
    }
}

#[test]
fn captured_output_counts_each_stream_without_losing_chunk_order() {
    let chunks = vec![
        CommandOutputChunk::stdout(b"starting\n".to_vec()),
        CommandOutputChunk::stderr(b"warning\n".to_vec()),
        CommandOutputChunk::stdout(b"done\n".to_vec()),
    ];

    let output = CapturedOutput::complete(chunks.clone());

    assert_eq!(output.chunks, chunks);
    assert_eq!(output.stderr_bytes, 8);
    assert_eq!(output.stdout_bytes, 14);
    assert_eq!(output.total_bytes(), 22);
}

#[test]
fn format_command_result_preserves_interleaved_output_and_exit_status() {
    let output = CapturedOutput::complete(vec![
        CommandOutputChunk::stdout(b"compiled successfully\n".to_vec()),
        CommandOutputChunk::stderr(b"one warning\n".to_vec()),
        CommandOutputChunk::stdout(b"done\n".to_vec()),
    ]);
    let result = result(output, CommandTermination::Exited { code: 7 });

    let formatted = format_command_result(&result);

    assert_eq!(
        formatted,
        "process exited with code 7\n\
         output (39 bytes, complete):\n\
         compiled successfully\n\
         one warning\n\
         done\n"
    );
}

#[test]
fn format_command_result_decodes_invalid_utf8_lossily() {
    let result = result(
        CapturedOutput::complete(vec![CommandOutputChunk::stdout(vec![
            b'o', b'k', b':', 0xff,
        ])]),
        CommandTermination::Exited { code: 0 },
    );

    let formatted = format_command_result(&result);

    assert!(formatted.contains("ok:\u{fffd}"));
    assert!(formatted.contains("process exited with code 0"));
}

#[test]
fn format_command_result_decodes_utf8_split_across_observed_chunks() {
    let crab = "🦀".as_bytes();
    let result = result(
        CapturedOutput::complete(vec![
            CommandOutputChunk::stdout(crab[..2].to_vec()),
            CommandOutputChunk::stdout(crab[2..].to_vec()),
        ]),
        CommandTermination::Exited { code: 0 },
    );

    let formatted = format_command_result(&result);

    assert!(formatted.contains('🦀'));
    assert!(!formatted.contains('\u{fffd}'));
}

#[test]
fn format_command_result_favors_the_combined_output_tail() {
    let mut stdout = vec![b'a'; MAX_COMMAND_RESULT_BYTES];
    let result = result(
        CapturedOutput::complete(vec![
            CommandOutputChunk::stdout(std::mem::take(&mut stdout)),
            CommandOutputChunk::stderr(b"STDERR_MIDDLE".to_vec()),
            CommandOutputChunk::stdout(b"STDOUT_TAIL".to_vec()),
        ]),
        CommandTermination::Signaled { signal: 9 },
    );

    let formatted = format_command_result(&result);

    assert_eq!(formatted.len(), MAX_COMMAND_RESULT_BYTES);
    assert!(formatted.contains("process terminated by signal 9"));
    assert!(formatted.contains("output (32792 bytes, truncated; showing tail)"));
    assert!(formatted.contains("STDERR_MIDDLE"));
    assert!(formatted.contains("STDOUT_TAIL"));
    assert!(formatted.find("STDERR_MIDDLE").unwrap() < formatted.find("STDOUT_TAIL").unwrap());
}

#[test]
fn format_command_result_reports_bytes_discarded_during_capture() {
    let result = result(
        CapturedOutput {
            chunks: vec![
                CommandOutputChunk::stderr(b"retained stderr tail\n".to_vec()),
                CommandOutputChunk::stdout(b"retained stdout tail".to_vec()),
            ],
            stderr_bytes: 75_000,
            stdout_bytes: 50_000,
        },
        CommandTermination::TimedOut,
    );

    let formatted = format_command_result(&result);

    assert!(formatted.contains("process timed out"));
    assert!(formatted.contains("output (125000 bytes, truncated; showing tail)"));
    assert!(formatted.contains("retained stderr tail"));
    assert!(formatted.contains("retained stdout tail"));
    assert!(
        formatted.find("retained stderr tail").unwrap()
            < formatted.find("retained stdout tail").unwrap()
    );
    assert!(result.output.stderr_truncated());
    assert!(result.output.stdout_truncated());
}

#[test]
fn format_command_result_keeps_utf8_valid_when_truncating_output() {
    let repeated = "🦀".repeat(MAX_COMMAND_RESULT_BYTES);
    let result = result(
        CapturedOutput::complete(vec![CommandOutputChunk::stdout(repeated.into_bytes())]),
        CommandTermination::Exited { code: 0 },
    );

    let formatted = format_command_result(&result);

    assert!(formatted.len() <= MAX_COMMAND_RESULT_BYTES);
    assert!(formatted.contains('🦀'));
    assert!(formatted.is_char_boundary(formatted.len()));
}

#[test]
fn a_stream_that_lost_bytes_is_known_to_be_truncated() {
    let whole = CapturedOutput::complete(vec![
        CommandOutputChunk::stdout(b"one".to_vec()),
        CommandOutputChunk::stderr(b"two".to_vec()),
    ]);
    let mut kept = whole.clone();
    kept.chunks[0].bytes.pop();

    assert!(!whole.stdout_truncated());
    assert!(!whole.stderr_truncated());
    assert!(kept.stdout_truncated());
    assert!(!kept.stderr_truncated());
}
