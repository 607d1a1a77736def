//! Keeping the end of what a command writes while counting all of it.
use crate::command::output::{
    saturated, CapturedOutput, CommandOutputChunk, CommandOutputStream, MAX_COMMAND_RESULT_BYTES,
};
use std::collections::VecDeque;
use vstd::prelude::*;

verus! {

pub struct ChunkView {
    pub bytes: Seq<u8>,
    pub stream: CommandOutputStream,
}

impl View for CommandOutputChunk {
    type V = ChunkView;

    open spec fn view(&self) -> ChunkView {
        ChunkView { bytes: self.bytes@, stream: self.stream }
    }
}

pub open spec fn chunk_views(chunks: Seq<CommandOutputChunk>) -> Seq<ChunkView> {
    Seq::new(chunks.len(), |i: int| chunks[i]@)
}

/// How many bytes the chunks hold.
pub open spec fn chunks_length(chunks: Seq<ChunkView>) -> nat
    decreases chunks.len(),
{
    if chunks.len() == 0 {
        0
    } else {
        chunks[0].bytes.len() + chunks_length(chunks.skip(1))
    }
}

/// The chunks without their first `excess` bytes; chunks that are used up are dropped.
pub open spec fn without_first(chunks: Seq<ChunkView>, excess: nat) -> Seq<ChunkView>
    decreases chunks.len(),
{
    if excess == 0 || chunks.len() == 0 {
        chunks
    } else if excess >= chunks[0].bytes.len() {
        without_first(chunks.skip(1), (excess - chunks[0].bytes.len()) as nat)
    } else {
        seq![ChunkView { bytes: chunks[0].bytes.skip(excess as int), stream: chunks[0].stream }]
            + chunks.skip(1)
    }
}

/// The chunks, cut from the front to the bytes that are kept.
pub open spec fn kept(chunks: Seq<ChunkView>) -> Seq<ChunkView> {
    let length = chunks_length(chunks);
    without_first(
        chunks,
        if length > MAX_COMMAND_RESULT_BYTES {
            (length - MAX_COMMAND_RESULT_BYTES) as nat
        } else {
            0
        },
    )
}

/// What the capture knows: the chunks that it keeps, and how much each stream wrote.
pub struct CaptureView {
    pub chunks: Seq<ChunkView>,
    pub stderr_bytes: u64,
    pub stdout_bytes: u64,
}

/// The capture after one more chunk.
pub open spec fn captured(capture: CaptureView, chunk: ChunkView) -> CaptureView {
    CaptureView {
        chunks: kept(capture.chunks.push(chunk)),
        stderr_bytes: if chunk.stream == CommandOutputStream::Stderr {
            saturated(capture.stderr_bytes as nat + chunk.bytes.len())
        } else {
            capture.stderr_bytes
        },
        stdout_bytes: if chunk.stream == CommandOutputStream::Stdout {
            saturated(capture.stdout_bytes as nat + chunk.bytes.len())
        } else {
            capture.stdout_bytes
        },
    }
}

/// The end of a command's output, and how much each stream wrote in all.
pub struct TailCapture {
    chunks: VecDeque<CommandOutputChunk>,
    retained_bytes: usize,
    stderr_bytes: u64,
    stdout_bytes: u64,
}

impl View for TailCapture {
    type V = CaptureView;

    closed spec fn view(&self) -> CaptureView {
        CaptureView {
            chunks: chunk_views(self.chunks@),
            stderr_bytes: self.stderr_bytes,
            stdout_bytes: self.stdout_bytes,
        }
    }
}

fn add_bytes(total: u64, bytes: usize) -> (sum: u64)
    ensures
        sum == saturated(total as nat + bytes as nat),
{
    let bytes: u64 = bytes as u64;
    if total <= u64::MAX - bytes {
        total + bytes
    } else {
        u64::MAX
    }
}

impl Default for TailCapture {
    fn default() -> (capture: Self)
        ensures
            capture.wf(),
            capture@ == (CaptureView {
                chunks: Seq::empty(),
                stderr_bytes: 0,
                stdout_bytes: 0,
            }),
    {
        let capture = TailCapture {
            chunks: VecDeque::new(),
            retained_bytes: 0,
            stderr_bytes: 0,
            stdout_bytes: 0,
        };
        assert(chunk_views(capture.chunks@) =~= Seq::empty());
        capture
    }
}

impl TailCapture {
    /// The bytes that are kept are counted, and within bounds.
    pub closed spec fn wf(self) -> bool {
        &&& self.retained_bytes == chunks_length(chunk_views(self.chunks@))
        &&& self.retained_bytes <= MAX_COMMAND_RESULT_BYTES
    }

    /// Takes one more chunk: counts it, keeps it, and lets go of what is too much at the front.
    pub fn push(&mut self, chunk: CommandOutputChunk)
        requires
            old(self).wf(),
        ensures
            final(self).wf(),
            final(self)@ == captured(old(self)@, chunk@),
    {
        match chunk.stream {
            CommandOutputStream::Stderr => {
                self.stderr_bytes = add_bytes(self.stderr_bytes, chunk.bytes.len());
            },
            CommandOutputStream::Stdout => {
                self.stdout_bytes = add_bytes(self.stdout_bytes, chunk.bytes.len());
            },
        }
        let length = chunk.bytes.len();
        let excess = if length >= MAX_COMMAND_RESULT_BYTES {
            self.retained_bytes + (length - MAX_COMMAND_RESULT_BYTES)
        } else if self.retained_bytes > MAX_COMMAND_RESULT_BYTES - length {
            self.retained_bytes - (MAX_COMMAND_RESULT_BYTES - length)
        } else {
            0
        };
        let ghost before = chunk_views(self.chunks@);
        proof {
            lemma_length_push(before, chunk@);
        }
        self.chunks.push_back(chunk);
        assert(chunk_views(self.chunks@) =~= before.push(chunk@));
        self.retained_bytes = if excess > 0 {
            MAX_COMMAND_RESULT_BYTES
        } else {
            self.retained_bytes + length
        };
        self.truncate_front(excess);
        proof {
            lemma_without_first_length(before.push(chunk@), excess as nat);
        }
    }

    fn truncate_front(&mut self, excess: usize)
        requires
            excess <= chunks_length(chunk_views(old(self).chunks@)),
        ensures
            chunk_views(final(self).chunks@) == without_first(
                chunk_views(old(self).chunks@),
                excess as nat,
            ),
            final(self).retained_bytes == old(self).retained_bytes,
            final(self).stderr_bytes == old(self).stderr_bytes,
            final(self).stdout_bytes == old(self).stdout_bytes,
    {
        let mut remaining: usize = excess;
        while remaining > 0
            invariant
                remaining <= chunks_length(chunk_views(self.chunks@)),
                without_first(chunk_views(self.chunks@), remaining as nat) == without_first(
                    chunk_views(old(self).chunks@),
                    excess as nat,
                ),
                self.retained_bytes == old(self).retained_bytes,
                self.stderr_bytes == old(self).stderr_bytes,
                self.stdout_bytes == old(self).stdout_bytes,
            decreases self.chunks@.len(), remaining,
        {
            let ghost views = chunk_views(self.chunks@);
            match self.chunks.pop_front() {
                None => {
                    assert(false);
                    return ;
                },
                Some(front) => {
                    proof {
                        assert(views[0] == front@);
                        assert(chunk_views(self.chunks@) =~= views.skip(1));
                    }
                    let front_length = front.bytes.len();
                    if remaining >= front_length {
                        remaining -= front_length;
                    } else {
                        let stream = front.stream;
                        let mut bytes = front.bytes;
                        let end = bytes.split_off(remaining);
                        self.chunks.push_front(CommandOutputChunk { bytes: end, stream });
                        proof {
                            assert(end@ =~= front@.bytes.skip(remaining as int));
                            assert(chunk_views(self.chunks@) =~= without_first(
                                views,
                                remaining as nat,
                            ));
                        }
                        return ;
                    }
                },
            }
        }
    }

    /// The output as it is reported.
    pub fn finish(self) -> (output: CapturedOutput)
        ensures
            chunk_views(output.chunks@) == self@.chunks,
            output.stderr_bytes == self@.stderr_bytes,
            output.stdout_bytes == self@.stdout_bytes,
    {
        let mut remaining = self.chunks;
        let mut chunks: Vec<CommandOutputChunk> = Vec::new();
        while remaining.len() > 0
            invariant
                chunks@ + remaining@ == self.chunks@,
            decreases remaining@.len(),
        {
            let ghost before = remaining@;
            match remaining.pop_front() {
                None => {},
                Some(chunk) => {
                    let ghost taken = chunks@;
                    chunks.push(chunk);
                    assert(chunks@ + remaining@ =~= taken + before);
                },
            }
        }
        assert(chunks@ =~= self.chunks@);
        CapturedOutput {
            chunks,
            stderr_bytes: self.stderr_bytes,
            stdout_bytes: self.stdout_bytes,
        }
    }
}

proof fn lemma_length_push(chunks: Seq<ChunkView>, chunk: ChunkView)
    ensures
        chunks_length(chunks.push(chunk)) == chunks_length(chunks) + chunk.bytes.len(),
    decreases chunks.len(),
{
    if chunks.len() == 0 {
        assert(chunks.push(chunk).skip(1) =~= Seq::empty());
        reveal_with_fuel(chunks_length, 2);
    } else {
        lemma_length_push(chunks.skip(1), chunk);
        assert(chunks.push(chunk).skip(1) =~= chunks.skip(1).push(chunk));
    }
}

proof fn lemma_without_first_length(chunks: Seq<ChunkView>, excess: nat)
    requires
        excess <= chunks_length(chunks),
    ensures
        chunks_length(without_first(chunks, excess)) == chunks_length(chunks) - excess,
    decreases chunks.len(),
{
    if excess > 0 && chunks.len() > 0 {
        if excess >= chunks[0].bytes.len() {
            lemma_without_first_length(
                chunks.skip(1),
                (excess - chunks[0].bytes.len()) as nat,
            );
        } else {
            let cut = without_first(chunks, excess);
            assert(cut.skip(1) =~= chunks.skip(1));
        }
    }
}

/// The bytes of the chunks in the order in which they were written, each with its stream.
pub open spec fn written(chunks: Seq<ChunkView>) -> Seq<(u8, CommandOutputStream)>
    decreases chunks.len(),
{
    if chunks.len() == 0 {
        Seq::empty()
    } else {
        Seq::new(chunks[0].bytes.len(), |i: int| (chunks[0].bytes[i], chunks[0].stream))
            + written(chunks.skip(1))
    }
}

proof fn lemma_written_push(chunks: Seq<ChunkView>, chunk: ChunkView)
    ensures
        written(chunks.push(chunk)) == written(chunks) + Seq::new(
            chunk.bytes.len(),
            |i: int| (chunk.bytes[i], chunk.stream),
        ),
    decreases chunks.len(),
{
    let last = Seq::new(chunk.bytes.len(), |i: int| (chunk.bytes[i], chunk.stream));
    if chunks.len() == 0 {
        assert(chunks.push(chunk).skip(1) =~= Seq::empty());
        reveal_with_fuel(written, 2);
        assert(written(chunks.push(chunk)) =~= last);
        assert(written(chunks) + last =~= last);
    } else {
        lemma_written_push(chunks.skip(1), chunk);
        assert(chunks.push(chunk).skip(1) =~= chunks.skip(1).push(chunk));
        assert(written(chunks.push(chunk)) =~= written(chunks) + last);
    }
}

proof fn lemma_written_length(chunks: Seq<ChunkView>)
    ensures
        written(chunks).len() == chunks_length(chunks),
    decreases chunks.len(),
{
    if chunks.len() > 0 {
        lemma_written_length(chunks.skip(1));
    }
}

proof fn lemma_written_without_first(chunks: Seq<ChunkView>, excess: nat)
    requires
        excess <= chunks_length(chunks),
    ensures
        written(without_first(chunks, excess)) == written(chunks).skip(excess as int),
    decreases chunks.len(),
{
    lemma_written_length(chunks);
    if excess == 0 || chunks.len() == 0 {
        assert(written(chunks).skip(0) =~= written(chunks));
    } else if excess >= chunks[0].bytes.len() {
        lemma_written_without_first(chunks.skip(1), (excess - chunks[0].bytes.len()) as nat);
        assert(written(chunks).skip(excess as int) =~= written(chunks.skip(1)).skip(
            excess - chunks[0].bytes.len(),
        ));
    } else {
        let cut = without_first(chunks, excess);
        assert(cut.skip(1) =~= chunks.skip(1));
        assert(written(cut) =~= written(chunks).skip(excess as int));
    }
}

/// The last `count` elements, or all where there are fewer.
pub open spec fn ending<T>(items: Seq<T>, count: nat) -> Seq<T> {
    if items.len() <= count {
        items
    } else {
        items.skip(items.len() - count)
    }
}

/// The capture after all of the chunks.
pub open spec fn captured_all(capture: CaptureView, chunks: Seq<ChunkView>) -> CaptureView
    decreases chunks.len(),
{
    if chunks.len() == 0 {
        capture
    } else {
        captured(captured_all(capture, chunks.drop_last()), chunks.last())
    }
}

/// Whatever a command writes, the capture holds the last `MAX_COMMAND_RESULT_BYTES` bytes of it,
/// in the order in which the chunks came and with their streams.
pub proof fn capture_keeps_the_tail(chunks: Seq<ChunkView>)
    ensures
        written(
            captured_all(
                CaptureView { chunks: Seq::empty(), stderr_bytes: 0, stdout_bytes: 0 },
                chunks,
            ).chunks,
        ) == ending(written(chunks), MAX_COMMAND_RESULT_BYTES as nat),
    decreases chunks.len(),
{
    let start = CaptureView { chunks: Seq::empty(), stderr_bytes: 0, stdout_bytes: 0 };
    if chunks.len() > 0 {
        let before = captured_all(start, chunks.drop_last()).chunks;
        capture_keeps_the_tail(chunks.drop_last());
        assert(chunks =~= chunks.drop_last().push(chunks.last()));
        lemma_written_push(chunks.drop_last(), chunks.last());
        lemma_written_push(before, chunks.last());
        lemma_written_length(before.push(chunks.last()));
        let length = chunks_length(before.push(chunks.last()));
        let excess: nat = if length > MAX_COMMAND_RESULT_BYTES {
            (length - MAX_COMMAND_RESULT_BYTES) as nat
        } else {
            0
        };
        lemma_written_without_first(before.push(chunks.last()), excess);
        assert(written(kept(before.push(chunks.last()))) =~= ending(
            written(chunks),
            MAX_COMMAND_RESULT_BYTES as nat,
        ));
    }
}

/// How many bytes one stream wrote.
pub open spec fn written_by(chunks: Seq<ChunkView>, stream: CommandOutputStream) -> nat
    decreases chunks.len(),
{
    if chunks.len() == 0 {
        0
    } else {
        written_by(chunks.drop_last(), stream) + if chunks.last().stream == stream {
            chunks.last().bytes.len()
        } else {
            0
        }
    }
}

/// Whatever is let go, every byte is counted on its stream.
pub proof fn capture_counts_everything(chunks: Seq<ChunkView>)
    ensures
        ({
            let capture = captured_all(
                CaptureView { chunks: Seq::empty(), stderr_bytes: 0, stdout_bytes: 0 },
                chunks,
            );
            &&& capture.stderr_bytes == saturated(
                written_by(chunks, CommandOutputStream::Stderr),
            )
            &&& capture.stdout_bytes == saturated(
                written_by(chunks, CommandOutputStream::Stdout),
            )
        }),
    decreases chunks.len(),
{
    if chunks.len() > 0 {
        capture_counts_everything(chunks.drop_last());
    }
}

/// What one more chunk leaves of the capture: the last 32768 bytes of what was kept and of the
/// chunk behind it. The chunk counts whole on its own stream, and not on the other.
pub proof fn chunks_join_the_capture(capture: CaptureView, chunk: ChunkView)
    requires
        capture.stderr_bytes + chunk.bytes.len() <= u64::MAX,
        capture.stdout_bytes + chunk.bytes.len() <= u64::MAX,
    ensures
        ({
            let after = captured(capture, chunk);
            let all = written(capture.chunks) + Seq::new(
                chunk.bytes.len(),
                |i: int| (chunk.bytes[i], chunk.stream),
            );
            &&& all.len() <= 32768 ==> written(after.chunks) == all
            &&& all.len() > 32768 ==> written(after.chunks) == all.skip(all.len() - 32768)
            &&& chunk.stream == CommandOutputStream::Stderr ==> after.stderr_bytes
                == capture.stderr_bytes + chunk.bytes.len() && after.stdout_bytes
                == capture.stdout_bytes
            &&& chunk.stream == CommandOutputStream::Stdout ==> after.stdout_bytes
                == capture.stdout_bytes + chunk.bytes.len() && after.stderr_bytes
                == capture.stderr_bytes
        }),
{
    let chunks = capture.chunks.push(chunk);
    lemma_written_push(capture.chunks, chunk);
    lemma_written_length(chunks);
    let length = chunks_length(chunks);
    if length > MAX_COMMAND_RESULT_BYTES {
        lemma_written_without_first(chunks, (length - MAX_COMMAND_RESULT_BYTES) as nat);
    }
}

} // verus!
