//! What a command wrote, and how it is reported.
use crate::text::{
    byte_length, decimal, decode_lossily, lemma_decimal_u64, lemma_tail_fits, lemma_utf8_concat,
    push_decimal, push_signed_decimal, readable, signed_decimal, tail, text_tail, utf8_length,
};
use vstd::prelude::*;
use vstd::string::StringExecFns;
use vstd::utf8::{encode_scalar, is_ascii_chars};

verus! {

pub const MAX_COMMAND_RESULT_BYTES: usize = 32768;

#[derive(Clone, Copy, Debug, PartialEq, Eq, Structural)]
pub enum CommandOutputStream {
    Stderr,
    Stdout,
}

/// Bytes that a command wrote to one of its streams.
#[derive(Debug, PartialEq, Eq)]
pub struct CommandOutputChunk {
    pub bytes: Vec<u8>,
    pub stream: CommandOutputStream,
}

impl Clone for CommandOutputChunk {
    fn clone(&self) -> (copy: Self)
        ensures
            copy.bytes@ == self.bytes@,
            copy.stream == self.stream,
    {
        let mut bytes: Vec<u8> = Vec::new();
        bytes.extend_from_slice(self.bytes.as_slice());
        assert(bytes@ =~= self.bytes@);
        CommandOutputChunk { bytes, stream: self.stream }
    }
}

impl CommandOutputChunk {
    pub fn stderr(bytes: Vec<u8>) -> (chunk: Self)
        ensures
            chunk == (CommandOutputChunk { bytes, stream: CommandOutputStream::Stderr }),
    {
        CommandOutputChunk { bytes, stream: CommandOutputStream::Stderr }
    }

    pub fn stdout(bytes: Vec<u8>) -> (chunk: Self)
        ensures
            chunk == (CommandOutputChunk { bytes, stream: CommandOutputStream::Stdout }),
    {
        CommandOutputChunk { bytes, stream: CommandOutputStream::Stdout }
    }
}

/// The chunks that were kept, and how many bytes each stream wrote in all.
#[derive(Clone, Debug, PartialEq, Eq)]
pub struct CapturedOutput {
    pub chunks: Vec<CommandOutputChunk>,
    pub stderr_bytes: u64,
    pub stdout_bytes: u64,
}

/// How many bytes the chunks of one stream hold.
pub open spec fn stream_length(
    chunks: Seq<CommandOutputChunk>,
    stream: CommandOutputStream,
) -> nat
    decreases chunks.len(),
{
    if chunks.len() == 0 {
        0
    } else {
        stream_length(chunks.drop_last(), stream) + if chunks.last().stream == stream {
            chunks.last().bytes@.len()
        } else {
            0
        }
    }
}

/// The bytes of the chunks, one after the other.
pub open spec fn joined(chunks: Seq<CommandOutputChunk>) -> Seq<u8>
    decreases chunks.len(),
{
    if chunks.len() == 0 {
        Seq::empty()
    } else {
        joined(chunks.drop_last()) + chunks.last().bytes@
    }
}

/// A count as a `u64` holds it, at its largest where it is larger.
pub open spec fn saturated(count: nat) -> u64 {
    if count <= u64::MAX {
        count as u64
    } else {
        u64::MAX
    }
}

/// How many bytes a stream wrote: what was counted, and at least what was kept.
pub open spec fn observed(output: CapturedOutput, stream: CommandOutputStream) -> u64 {
    let counted = match stream {
        CommandOutputStream::Stderr => output.stderr_bytes,
        CommandOutputStream::Stdout => output.stdout_bytes,
    };
    let kept = saturated(stream_length(output.chunks@, stream));
    if counted < kept {
        kept
    } else {
        counted
    }
}

/// How many bytes both streams wrote.
pub open spec fn observed_total(output: CapturedOutput) -> u64 {
    saturated(
        observed(output, CommandOutputStream::Stderr) as nat + observed(
            output,
            CommandOutputStream::Stdout,
        ) as nat,
    )
}

/// Bytes that a stream wrote were not kept.
pub open spec fn lost_bytes(output: CapturedOutput, stream: CommandOutputStream) -> bool {
    observed(output, stream) > saturated(stream_length(output.chunks@, stream))
}

/// Every byte that was counted is there, and no other.
pub open spec fn is_complete(output: CapturedOutput) -> bool {
    &&& output.stderr_bytes == saturated(
        stream_length(output.chunks@, CommandOutputStream::Stderr),
    )
    &&& output.stdout_bytes == saturated(
        stream_length(output.chunks@, CommandOutputStream::Stdout),
    )
}

fn add_saturating(left: u64, right: usize) -> (sum: u64)
    ensures
        sum == saturated(left as nat + right as nat),
{
    let right: u64 = right as u64;
    if left <= u64::MAX - right {
        left + right
    } else {
        u64::MAX
    }
}

fn retained_stream_bytes(chunks: &Vec<CommandOutputChunk>, stream: CommandOutputStream) -> (bytes:
    u64)
    ensures
        bytes == saturated(stream_length(chunks@, stream)),
{
    let mut bytes: u64 = 0;
    let mut index: usize = 0;
    assert(chunks@.take(0) =~= Seq::empty());
    while index < chunks.len()
        invariant
            index <= chunks@.len(),
            bytes == saturated(stream_length(chunks@.take(index as int), stream)),
        decreases chunks.len() - index,
    {
        proof {
            assert(chunks@.take(index + 1).drop_last() =~= chunks@.take(index as int));
        }
        if chunks[index].stream == stream {
            bytes = add_saturating(bytes, chunks[index].bytes.len());
        }
        index += 1;
    }
    assert(chunks@.take(chunks@.len() as int) =~= chunks@);
    bytes
}

fn observed_stream_bytes(output: &CapturedOutput, stream: CommandOutputStream) -> (bytes: u64)
    ensures
        bytes == observed(*output, stream),
{
    let retained_bytes = retained_stream_bytes(&output.chunks, stream);
    let observed_bytes = match stream {
        CommandOutputStream::Stderr => output.stderr_bytes,
        CommandOutputStream::Stdout => output.stdout_bytes,
    };
    if observed_bytes < retained_bytes {
        retained_bytes
    } else {
        observed_bytes
    }
}

fn stream_was_truncated(output: &CapturedOutput, stream: CommandOutputStream) -> (truncated: bool)
    ensures
        truncated == lost_bytes(*output, stream),
{
    observed_stream_bytes(output, stream) > retained_stream_bytes(&output.chunks, stream)
}

impl CapturedOutput {
    /// Output of which every byte was kept.
    pub fn complete(chunks: Vec<CommandOutputChunk>) -> (output: Self)
        ensures
            output.chunks == chunks,
            is_complete(output),
    {
        let stderr_bytes = retained_stream_bytes(&chunks, CommandOutputStream::Stderr);
        let stdout_bytes = retained_stream_bytes(&chunks, CommandOutputStream::Stdout);
        CapturedOutput { chunks, stderr_bytes, stdout_bytes }
    }

    pub fn total_bytes(&self) -> (bytes: u64)
        ensures
            bytes == observed_total(*self),
    {
        let stderr_bytes = observed_stream_bytes(self, CommandOutputStream::Stderr);
        let stdout_bytes = observed_stream_bytes(self, CommandOutputStream::Stdout);
        if stderr_bytes <= u64::MAX - stdout_bytes {
            stderr_bytes + stdout_bytes
        } else {
            u64::MAX
        }
    }

    pub fn stderr_truncated(&self) -> (truncated: bool)
        ensures
            truncated == lost_bytes(*self, CommandOutputStream::Stderr),
    {
        stream_was_truncated(self, CommandOutputStream::Stderr)
    }

    pub fn stdout_truncated(&self) -> (truncated: bool)
        ensures
            truncated == lost_bytes(*self, CommandOutputStream::Stdout),
    {
        stream_was_truncated(self, CommandOutputStream::Stdout)
    }
}

/// How a command ended.
#[derive(Clone, Copy, Debug, PartialEq, Eq, Structural)]
pub enum CommandTermination {
    Exited { code: i32 },
    Signaled { signal: i32 },
    TimedOut,
}

#[derive(Clone, Debug, PartialEq, Eq)]
pub struct CommandResult {
    pub output: CapturedOutput,
    pub termination: CommandTermination,
}

pub open spec fn termination_text(termination: CommandTermination) -> Seq<char> {
    match termination {
        CommandTermination::Exited { code } => "process exited with code "@ + signed_decimal(
            code as int,
        ) + "\n"@,
        CommandTermination::Signaled { signal } => "process terminated by signal "@
            + signed_decimal(signal as int) + "\n"@,
        CommandTermination::TimedOut => "process timed out\n"@,
    }
}

pub open spec fn header_text(total_bytes: u64, truncated: bool) -> Seq<char> {
    "output ("@ + decimal(total_bytes as nat) + " bytes, "@ + (if truncated {
        "truncated; showing tail"@
    } else {
        "complete"@
    }) + "):\n"@
}

/// How many bytes are left for the output behind the termination line and a header.
pub open spec fn content_budget(termination: CommandTermination, header: Seq<char>) -> nat {
    let used = utf8_length(termination_text(termination)) + utf8_length(header);
    if used <= MAX_COMMAND_RESULT_BYTES {
        (MAX_COMMAND_RESULT_BYTES - used) as nat
    } else {
        0
    }
}

/// Output counts as truncated where bytes were dropped before, or where the text does not fit
/// behind the header that says that it is complete.
pub open spec fn is_truncated(
    text: Seq<char>,
    retained: nat,
    total_bytes: u64,
    termination: CommandTermination,
) -> bool {
    total_bytes > retained || utf8_length(text) > content_budget(
        termination,
        header_text(total_bytes, false),
    )
}

/// The report of a command: how it ended, how much it wrote, and the end of what it wrote.
pub open spec fn report_text(
    text: Seq<char>,
    retained: nat,
    total_bytes: u64,
    termination: CommandTermination,
) -> Seq<char> {
    let header = header_text(
        total_bytes,
        is_truncated(text, retained, total_bytes, termination),
    );
    termination_text(termination) + header + text_tail(text, content_budget(termination, header))
}

fn termination_line(termination: &CommandTermination) -> (line: String)
    ensures
        line@ == termination_text(*termination),
{
    match termination {
        CommandTermination::Exited { code } => {
            let mut line = "process exited with code ".to_owned();
            push_signed_decimal(&mut line, *code);
            line.append("\n");
            line
        },
        CommandTermination::Signaled { signal } => {
            let mut line = "process terminated by signal ".to_owned();
            push_signed_decimal(&mut line, *signal);
            line.append("\n");
            line
        },
        CommandTermination::TimedOut => "process timed out\n".to_owned(),
    }
}

fn output_header(total_bytes: u64, truncated: bool) -> (header: String)
    ensures
        header@ == header_text(total_bytes, truncated),
{
    let status = if truncated {
        "truncated; showing tail"
    } else {
        "complete"
    };
    let mut header = "output (".to_owned();
    push_decimal(&mut header, total_bytes);
    header.append(" bytes, ");
    header.append(status);
    header.append("):\n");
    header
}

fn remaining_budget(termination: &str, header: &str) -> (budget: usize)
    ensures
        budget == (if utf8_length(termination@) + utf8_length(header@)
            <= MAX_COMMAND_RESULT_BYTES {
            MAX_COMMAND_RESULT_BYTES - utf8_length(termination@) - utf8_length(header@)
        } else {
            0
        }),
{
    let termination_length = byte_length(termination);
    let header_length = byte_length(header);
    if termination_length <= MAX_COMMAND_RESULT_BYTES && header_length <= MAX_COMMAND_RESULT_BYTES
        - termination_length {
        MAX_COMMAND_RESULT_BYTES - termination_length - header_length
    } else {
        0
    }
}

fn combined_bytes(output: &CapturedOutput) -> (combined: Vec<u8>)
    ensures
        combined@ == joined(output.chunks@),
{
    let chunks = &output.chunks;
    let mut combined: Vec<u8> = Vec::new();
    let mut index: usize = 0;
    assert(chunks@.take(0) =~= Seq::empty());
    while index < chunks.len()
        invariant
            chunks@ == output.chunks@,
            index <= chunks@.len(),
            combined@ == joined(chunks@.take(index as int)),
        decreases chunks.len() - index,
    {
        let ghost before = combined@;
        combined.extend_from_slice(chunks[index].bytes.as_slice());
        proof {
            assert(chunks@.take(index + 1).drop_last() =~= chunks@.take(index as int));
            assert(combined@ =~= before + chunks@[index as int].bytes@);
        }
        index += 1;
    }
    assert(chunks@.take(chunks@.len() as int) =~= chunks@);
    combined
}

/// The report of a command whose output reads as `text`, `retained` bytes of which were kept.
pub fn render_command_result(
    text: &str,
    retained: usize,
    total_bytes: u64,
    termination: &CommandTermination,
) -> (report: String)
    ensures
        report@ == report_text(text@, retained as nat, total_bytes, *termination),
        utf8_length(report@) <= MAX_COMMAND_RESULT_BYTES,
{
    let termination_line = termination_line(termination);
    let complete_header = output_header(total_bytes, false);
    let complete_budget = remaining_budget(termination_line.as_str(), complete_header.as_str());
    let truncated = total_bytes > retained as u64 || byte_length(text) > complete_budget;
    let header = output_header(total_bytes, truncated);
    let budget = remaining_budget(termination_line.as_str(), header.as_str());
    let content = tail(text, budget);
    let report = termination_line.concat(header.as_str()).concat(content.as_str());
    proof {
        reports_fit(text@, retained as nat, total_bytes, *termination);
    }
    report
}

/// Reports a command to the model, within `MAX_COMMAND_RESULT_BYTES`: invalid UTF-8 is decoded
/// lossily, across the chunks, and of output that is too long the end is kept.
pub fn format_command_result(result: &CommandResult) -> (report: String)
    ensures
        report@ == report_text(
            readable(joined(result.output.chunks@)),
            joined(result.output.chunks@).len(),
            observed_total(result.output),
            result.termination,
        ),
        utf8_length(report@) <= MAX_COMMAND_RESULT_BYTES,
{
    let retained_bytes = combined_bytes(&result.output);
    let text = decode_lossily(retained_bytes.as_slice());
    render_command_result(
        text.as_str(),
        retained_bytes.len(),
        result.output.total_bytes(),
        &result.termination,
    )
}

proof fn lemma_ascii_length(text: Seq<char>)
    requires
        is_ascii_chars(text),
    ensures
        utf8_length(text) == text.len(),
{
    vstd::utf8::is_ascii_chars_encode_utf8(text);
}

proof fn lemma_signed_digits(number: i32)
    ensures
        1 <= signed_decimal(number as int).len() <= 21,
        is_ascii_chars(signed_decimal(number as int)),
{
    if number < 0 {
        lemma_decimal_u64((-number) as u64);
    } else {
        lemma_decimal_u64(number as u64);
    }
}

proof fn lemma_line_lengths(termination: CommandTermination, total_bytes: u64, truncated: bool)
    ensures
        utf8_length(termination_text(termination)) <= 60,
        utf8_length(header_text(total_bytes, truncated)) <= 70,
{
    reveal_strlit("process exited with code ");
    reveal_strlit("process terminated by signal ");
    reveal_strlit("process timed out\n");
    reveal_strlit("\n");
    reveal_strlit("output (");
    reveal_strlit(" bytes, ");
    reveal_strlit("truncated; showing tail");
    reveal_strlit("complete");
    reveal_strlit("):\n");
    match termination {
        CommandTermination::Exited { code } => {
            lemma_signed_digits(code);
        },
        CommandTermination::Signaled { signal } => {
            lemma_signed_digits(signal);
        },
        CommandTermination::TimedOut => {},
    }
    lemma_ascii_length(termination_text(termination));
    lemma_decimal_u64(total_bytes);
    lemma_ascii_length(header_text(total_bytes, truncated));
}

/// A report never takes more than `MAX_COMMAND_RESULT_BYTES`.
pub proof fn reports_fit(
    text: Seq<char>,
    retained: nat,
    total_bytes: u64,
    termination: CommandTermination,
)
    ensures
        utf8_length(report_text(text, retained, total_bytes, termination))
            <= MAX_COMMAND_RESULT_BYTES,
{
    let truncated = is_truncated(text, retained, total_bytes, termination);
    let header = header_text(total_bytes, truncated);
    let budget = content_budget(termination, header);
    lemma_line_lengths(termination, total_bytes, truncated);
    lemma_tail_fits(text, budget);
    lemma_utf8_concat(termination_text(termination), header);
    lemma_utf8_concat(termination_text(termination) + header, text_tail(text, budget));
}

/// Complete output lost nothing. Where bytes of one stream are taken out of it and the counts are
/// kept, that stream is known to have lost bytes, and the other is not.
pub proof fn lost_bytes_are_noticed(
    whole: CapturedOutput,
    kept: CapturedOutput,
    stream: CommandOutputStream,
    other: CommandOutputStream,
)
    requires
        is_complete(whole),
        stream != other,
        kept.stderr_bytes == whole.stderr_bytes,
        kept.stdout_bytes == whole.stdout_bytes,
        stream_length(kept.chunks@, stream) < stream_length(whole.chunks@, stream),
        stream_length(kept.chunks@, other) == stream_length(whole.chunks@, other),
        stream_length(kept.chunks@, stream) < u64::MAX,
    ensures
        !lost_bytes(whole, stream),
        !lost_bytes(whole, other),
        lost_bytes(kept, stream),
        !lost_bytes(kept, other),
{
}

/// A report that says that the output is complete holds all of it.
pub proof fn complete_reports_hold_everything(
    text: Seq<char>,
    retained: nat,
    total_bytes: u64,
    termination: CommandTermination,
)
    requires
        !is_truncated(text, retained, total_bytes, termination),
    ensures
        report_text(text, retained, total_bytes, termination) == termination_text(termination)
            + header_text(total_bytes, false) + text,
{
}

/// Whatever is cut, the report ends with the end of the output.
pub proof fn reports_favor_the_tail(
    text: Seq<char>,
    retained: nat,
    total_bytes: u64,
    termination: CommandTermination,
)
    ensures
        exists|kept: Seq<char>|
            kept.is_suffix_of(text) && #[trigger] kept.is_suffix_of(
                report_text(text, retained, total_bytes, termination),
            ) && (utf8_length(text) > 0 ==> utf8_length(kept) + 4 > content_budget(
                termination,
                header_text(
                    total_bytes,
                    is_truncated(text, retained, total_bytes, termination),
                ),
            ) || kept == text),
{
    let header = header_text(
        total_bytes,
        is_truncated(text, retained, total_bytes, termination),
    );
    let budget = content_budget(termination, header);
    let kept = text_tail(text, budget);
    let report = report_text(text, retained, total_bytes, termination);
    lemma_tail_fits(text, budget);
    lemma_tail_fills(text, budget);
    assert(kept =~= report.subrange(report.len() - kept.len(), report.len() as int));
    assert(kept.is_suffix_of(report));
}

/// The tail wastes less than one character of the budget.
proof fn lemma_tail_fills(text: Seq<char>, budget: nat)
    ensures
        text_tail(text, budget) == text || utf8_length(text_tail(text, budget)) + 4 > budget,
    decreases text.len(),
{
    if text.len() > 0 && utf8_length(text) > budget {
        let rest = text.skip(1);
        lemma_tail_fills(rest, budget);
        assert(rest =~= text.drop_first());
        assert(encode_scalar(text[0] as u32).len() <= 4);
    }
}

/// A report tells how the command ended, how many bytes it wrote and whether they are all there,
/// and then the end of what it wrote.
pub proof fn reports_tell_everything(
    text: Seq<char>,
    retained: nat,
    total_bytes: u64,
    termination: CommandTermination,
)
    ensures
        ({
            let ended = match termination {
                CommandTermination::Exited { code } => "process exited with code "@
                    + signed_decimal(code as int) + "\n"@,
                CommandTermination::Signaled { signal } => "process terminated by signal "@
                    + signed_decimal(signal as int) + "\n"@,
                CommandTermination::TimedOut => "process timed out\n"@,
            };
            let counted = "output ("@ + decimal(total_bytes as nat) + " bytes, "@;
            let whole = ended + (counted + "complete"@ + "):\n"@) + text;
            let report = report_text(text, retained, total_bytes, termination);
            if total_bytes <= retained && utf8_length(whole) <= 32768 {
                report == whole
            } else {
                let before = ended + (counted + "truncated; showing tail"@ + "):\n"@);
                &&& before.is_prefix_of(report)
                &&& report.skip(before.len() as int).is_suffix_of(text)
                &&& utf8_length(report) <= 32768
                &&& report.skip(before.len() as int) == text || utf8_length(report) + 4 > 32768
            }
        }),
{
    let truncated = is_truncated(text, retained, total_bytes, termination);
    let header = header_text(total_bytes, truncated);
    let budget = content_budget(termination, header);
    let kept = text_tail(text, budget);
    let report = report_text(text, retained, total_bytes, termination);
    let first = termination_text(termination) + header;
    lemma_line_lengths(termination, total_bytes, truncated);
    lemma_line_lengths(termination, total_bytes, false);
    lemma_utf8_concat(termination_text(termination), header_text(total_bytes, false));
    lemma_utf8_concat(termination_text(termination) + header_text(total_bytes, false), text);
    lemma_utf8_concat(termination_text(termination), header);
    lemma_utf8_concat(first, kept);
    lemma_tail_fits(text, budget);
    lemma_tail_fills(text, budget);
    assert(report =~= first + kept);
    assert(report.skip(first.len() as int) =~= kept);
    assert(report.take(first.len() as int) =~= first);
}

/// The chunks are read as one text, in the order in which they came, so that a character that two
/// chunks share is read whole.
pub proof fn chunks_are_read_as_one(
    result: &CommandResult,
    report: String,
)
    requires
        call_ensures(format_command_result, (result,), report),
    ensures
        report@ == report_text(
            readable(joined(result.output.chunks@)),
            joined(result.output.chunks@).len(),
            observed_total(result.output),
            result.termination,
        ),
        utf8_length(report@) <= 32768,
{
}

/// A chunk that comes later stands behind those before it, and its bytes count on its own stream.
pub proof fn chunks_follow_each_other(
    chunks: Seq<CommandOutputChunk>,
    chunk: CommandOutputChunk,
    stream: CommandOutputStream,
)
    ensures
        joined(chunks.push(chunk)) == joined(chunks) + chunk.bytes@,
        stream_length(chunks.push(chunk), stream) == stream_length(chunks, stream) + (if chunk.stream
            == stream {
            chunk.bytes@.len()
        } else {
            0
        }),
        joined(Seq::<CommandOutputChunk>::empty()).len() == 0,
{
    assert(chunks.push(chunk).drop_last() =~= chunks);
}

/// All that was written counts, on whichever stream, as far as the count goes.
pub proof fn both_streams_count(output: CapturedOutput)
    requires
        output.stderr_bytes + output.stdout_bytes <= u64::MAX,
        stream_length(output.chunks@, CommandOutputStream::Stderr) <= output.stderr_bytes,
        stream_length(output.chunks@, CommandOutputStream::Stdout) <= output.stdout_bytes,
    ensures
        observed_total(output) == output.stderr_bytes + output.stdout_bytes,
        lost_bytes(output, CommandOutputStream::Stderr) <==> stream_length(
            output.chunks@,
            CommandOutputStream::Stderr,
        ) < output.stderr_bytes,
        lost_bytes(output, CommandOutputStream::Stdout) <==> stream_length(
            output.chunks@,
            CommandOutputStream::Stdout,
        ) < output.stdout_bytes,
{
}

} // verus!
