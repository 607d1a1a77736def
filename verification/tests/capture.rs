use cane::command::capture::TailCapture;
use cane::command::output::{CommandOutputChunk, MAX_COMMAND_RESULT_BYTES};

#[test]
fn tail_capture_bounds_retained_bytes_but_counts_every_observed_stream_byte() {
    let mut capture = TailCapture::default();
    let stdout = vec![b'a'; MAX_COMMAND_RESULT_BYTES];
    let stderr = vec![b'b'; 17];

    capture.push(CommandOutputChunk::stdout(stdout));
    capture.push(CommandOutputChunk::stderr(stderr.clone()));
    let output = capture.finish();
    let retained = output
        .chunks
        .iter()
        .map(|chunk| chunk.bytes.len())
        .sum::<usize>();

    assert_eq!(retained, MAX_COMMAND_RESULT_BYTES);
    assert_eq!(output.stdout_bytes, MAX_COMMAND_RESULT_BYTES as u64);
    assert_eq!(output.stderr_bytes, 17);
    assert_eq!(output.chunks.last().unwrap().bytes, stderr);
}

#[test]
fn a_capture_within_its_bounds_keeps_every_chunk() {
    let mut capture = TailCapture::default();

    capture.push(CommandOutputChunk::stdout(b"one".to_vec()));
    capture.push(CommandOutputChunk::stderr(b"two".to_vec()));
    let output = capture.finish();

    assert_eq!(
        output.chunks,
        [
            CommandOutputChunk::stdout(b"one".to_vec()),
            CommandOutputChunk::stderr(b"two".to_vec()),
        ]
    );
    assert_eq!((output.stdout_bytes, output.stderr_bytes), (3, 3));
}

#[test]
fn a_chunk_larger_than_the_capture_keeps_its_tail() {
    let mut capture = TailCapture::default();
    let mut bytes = vec![b'a'; MAX_COMMAND_RESULT_BYTES];
    bytes.extend_from_slice(b"tail");

    capture.push(CommandOutputChunk::stdout(bytes));
    let output = capture.finish();

    assert_eq!(output.chunks.len(), 1);
    assert_eq!(output.chunks[0].bytes.len(), MAX_COMMAND_RESULT_BYTES);
    assert!(output.chunks[0].bytes.ends_with(b"tail"));
    assert_eq!(output.stdout_bytes, MAX_COMMAND_RESULT_BYTES as u64 + 4);
}
