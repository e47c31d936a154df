//! The payload of an entry: inflated in chunks, or copied where it is
//! stored as it is.
use vstd::prelude::*;
use crate::error::{EPubError, InflateStatus};
use crate::header::LocalFileHeader;
use crate::io::{short_read_error, BufReader, OutputFile};
use miniz_oxide::inflate::TINFLStatus;

verus! {

/// The number of bytes of a stored payload that are copied at once.
pub const STORE_CHUNK: usize = 256;

/// The number of bytes that the inflate pipeline reads, and writes, at once.
pub const INFLATE_CHUNK: usize = 32768;

/// The decompressor's flag for an input that goes on behind the chunk
/// that is handed over.
pub const FLAG_HAS_MORE_INPUT: u32 = 2;

/// Why a header with an uncompressed size has no payload to inflate.
pub const NO_COMPRESSED_DATA: &'static str = "deflated entry without compressed data";

/// Why a full output buffer is no progress.
pub const NO_PROGRESS: &'static str = "inflate makes no progress";

/// Why the data is more than was declared.
pub const MORE_THAN_DECLARED: &'static str = "more data than the header declares";

/// Why the data is less than was declared.
pub const LESS_THAN_DECLARED: &'static str = "less data than the header declares";

/// Why the decompressor cannot have used what it says.
pub const INPUT_OVERRUN: &'static str = "the decompressor used more than it was given";

/// Why a stream must not end inside the payload.
pub const EARLY_END: &'static str = "the stream ends before the payload does";

/// Why a payload must not end inside the stream.
pub const NO_END: &'static str = "the payload ends before the stream does";

/// The state of miniz_oxide's decompressor between two calls.
#[verifier::external_type_specification]
#[verifier::external_body]
pub struct ExDecompressorOxide(miniz_oxide::inflate::core::DecompressorOxide);

/// The calls that were made on a decompressor since it was made, in their
/// order: nothing for a call of `init`, and for a call of `decompress`
/// what it was called with: the input, the output buffer, the place in
/// the output buffer, and the flags.
pub uninterp spec fn calls_made(decomp: miniz_oxide::inflate::core::DecompressorOxide) -> Seq<
    Option<(Seq<u8>, Seq<u8>, usize, u32)>,
>;

/// What `decompress` answers to a call with the input `input`, the output
/// buffer `out`, the place `out_pos` in it and the flags `flags`, on a
/// decompressor on which the calls `calls` were made before: its status,
/// the number of bytes of the input that it has used, the number of bytes
/// that it has made, and the output buffer behind the call.
pub uninterp spec fn decompress_answer(
    calls: Seq<Option<(Seq<u8>, Seq<u8>, usize, u32)>>,
    input: Seq<u8>,
    out: Seq<u8>,
    out_pos: usize,
    flags: u32,
) -> (InflateStatus, usize, usize, Seq<u8>);

/// `DecompressorOxide::new`: a decompressor on which no call was made.
pub assume_specification[ miniz_oxide::inflate::core::DecompressorOxide::new ]() -> (decomp:
    miniz_oxide::inflate::core::DecompressorOxide)
    ensures
        calls_made(decomp) == Seq::<Option<(Seq<u8>, Seq<u8>, usize, u32)>>::empty(),
;

/// `DecompressorOxide::init`: sets a decompressor back to the start of a
/// stream. The call is one of the calls made.
pub assume_specification[ miniz_oxide::inflate::core::DecompressorOxide::init ](
    decomp: &mut miniz_oxide::inflate::core::DecompressorOxide,
)
    ensures
        calls_made(*final(decomp)) == calls_made(*old(decomp)).push(None),
;

/// `miniz_oxide::inflate::core::decompress`: goes on inflating `input` to
/// `out` from `out_pos` on, with `out` as a buffer that wraps around.
///
/// It returns its status, the number of bytes of `input` that it has
/// used, and the number of bytes that it has put into `out`. What these
/// are, and what `out` then holds, hangs on nothing but the calls made on
/// the decompressor before and on what this call hands over. It uses no
/// more than `input` holds and writes no further than `out` reaches,
/// whatever the input is.
#[verifier::external_body]
fn decompress(
    decomp: &mut miniz_oxide::inflate::core::DecompressorOxide,
    input: &[u8],
    out: &mut Vec<u8>,
    out_pos: usize,
    flags: u32,
) -> (r: (InflateStatus, usize, usize))
    requires
        out_pos <= old(out)@.len(),
    ensures
        (r.0, r.1, r.2, final(out)@) == decompress_answer(
            calls_made(*old(decomp)),
            input@,
            old(out)@,
            out_pos,
            flags,
        ),
        calls_made(*final(decomp)) == calls_made(*old(decomp)).push(
            Some((input@, old(out)@, out_pos, flags)),
        ),
        final(out)@.len() == old(out)@.len(),
        r.1 <= input@.len(),
        out_pos + r.2 <= old(out)@.len(),
{
    let (status, used, made) = miniz_oxide::inflate::core::decompress(decomp, input, out, out_pos, flags);
    let status = match status {
        TINFLStatus::FailedCannotMakeProgress => InflateStatus::FailedCannotMakeProgress,
        TINFLStatus::BadParam => InflateStatus::BadParam,
        TINFLStatus::Adler32Mismatch => InflateStatus::Adler32Mismatch,
        TINFLStatus::Failed => InflateStatus::Failed,
        TINFLStatus::Done => InflateStatus::Done,
        TINFLStatus::NeedsMoreInput => InflateStatus::NeedsMoreInput,
        TINFLStatus::HasMoreOutput => InflateStatus::HasMoreOutput,
        _ => InflateStatus::Other,
    };
    (status, used, made)
}

/// `miniz_oxide::inflate::core::inflate_flags::TINFL_FLAG_HAS_MORE_INPUT`:
/// the flag for an input that goes on behind the chunk that is handed over.
#[verifier::external_body]
fn has_more_input_flag() -> (flag: u32)
    ensures
        flag == FLAG_HAS_MORE_INPUT,
{
    miniz_oxide::inflate::core::inflate_flags::TINFL_FLAG_HAS_MORE_INPUT
}

/// What the pipeline does after a call of the decompressor with the given
/// status: go on with the same chunk (`true`) where the output buffer was
/// full, leave the chunk (`false`) where the input was used up or the
/// stream has ended, and fail on any other status.
pub open spec fn status_outcome(status: InflateStatus) -> Result<bool, EPubError> {
    match status {
        InflateStatus::HasMoreOutput => Ok(true),
        InflateStatus::NeedsMoreInput | InflateStatus::Done => Ok(false),
        _ => Err(EPubError::Decompress(status)),
    }
}

/// Decides from the decompressor's status how the pipeline goes on.
pub fn classify_status(status: InflateStatus) -> (r: Result<bool, EPubError>)
    ensures
        r == status_outcome(status),
{
    match status {
        InflateStatus::HasMoreOutput => Ok(true),
        InflateStatus::NeedsMoreInput | InflateStatus::Done => Ok(false),
        _ => Err(EPubError::Decompress(status)),
    }
}

/// How the pipeline goes on after a call of the decompressor.
#[derive(Debug, Clone, Copy, PartialEq, Eq, Structural)]
pub enum InflateStep {
    /// the output buffer was full: the decompressor is called again with
    /// the same chunk, from this place in the chunk on
    SameChunk(usize),
    /// the chunk is used up: the next chunk is fetched
    NextChunk,
    /// the stream has ended, with as many bytes as the header declares
    Done,
}

/// How the pipeline goes on after a call of the decompressor that was
/// handed the chunk of `n` bytes from `in_start` on, when `count` bytes of
/// the `limit` that the header declares were written before, and the
/// decompressor answers with `status`, `used` bytes used and `made` bytes made.
///
/// A status of failure is the error. A full output buffer must hold
/// something. What was made must fit into what is left of the declared
/// size. With a full output buffer the same chunk goes on behind what
/// was used of it, which cannot be more than was handed over. At the end
/// of the stream all that was declared must be there. Else the chunk is
/// used up.
pub open spec fn inflate_step_of(
    status: InflateStatus,
    used: usize,
    made: usize,
    in_start: usize,
    n: usize,
    count: usize,
    limit: usize,
) -> Result<InflateStep, EPubError> {
    match status_outcome(status) {
        Err(e) => Err(e),
        Ok(more) => if more && made == 0 {
            Err(EPubError::FormatError(NO_PROGRESS))
        } else if count > limit || made > limit - count {
            Err(EPubError::FormatError(MORE_THAN_DECLARED))
        } else if more {
            if in_start > n || used > n - in_start {
                Err(EPubError::FormatError(INPUT_OVERRUN))
            } else {
                Ok(InflateStep::SameChunk((in_start + used) as usize))
            }
        } else if status == InflateStatus::Done {
            if count + made == limit {
                Ok(InflateStep::Done)
            } else {
                Err(EPubError::FormatError(LESS_THAN_DECLARED))
            }
        } else {
            Ok(InflateStep::NextChunk)
        },
    }
}

/// Decides how the pipeline goes on after a call of the decompressor.
pub fn inflate_step(
    status: InflateStatus,
    used: usize,
    made: usize,
    in_start: usize,
    n: usize,
    count: usize,
    limit: usize,
) -> (r: Result<InflateStep, EPubError>)
    ensures
        r == inflate_step_of(status, used, made, in_start, n, count, limit),
{
    let more: bool = classify_status(status)?;
    if more && made == 0 {
        return Err(EPubError::FormatError(NO_PROGRESS));
    }
    if count > limit || made > limit - count {
        return Err(EPubError::FormatError(MORE_THAN_DECLARED));
    }
    if more {
        if in_start > n || used > n - in_start {
            return Err(EPubError::FormatError(INPUT_OVERRUN));
        }
        Ok(InflateStep::SameChunk(in_start + used))
    } else if status == InflateStatus::Done {
        if count + made == limit {
            Ok(InflateStep::Done)
        } else {
            Err(EPubError::FormatError(LESS_THAN_DECLARED))
        }
    } else {
        Ok(InflateStep::NextChunk)
    }
}

/// How far the inflating of a payload has come.
pub struct InflateProgress {
    /// the calls made on the decompressor
    pub calls: Seq<Option<(Seq<u8>, Seq<u8>, usize, u32)>>,
    /// the output buffer
    pub window: Seq<u8>,
    /// the place in the output buffer where the next bytes go
    pub out_pos: usize,
    /// the number of bytes written
    pub count: usize,
    /// the bytes written
    pub written: Seq<u8>,
}

/// How the inflating of a chunk ends.
pub enum ChunkEnd {
    /// with an error
    Failed(EPubError),
    /// with the chunk used up
    Next,
    /// with the end of the stream
    Done,
}

/// What the pipeline writes, and what it returns.
pub struct InflateOutcome {
    pub result: Result<usize, EPubError>,
    /// the bytes written, also where the result is an error
    pub written: Seq<u8>,
}

/// The progress before the first call of `decompress`: the decompressor
/// was made and set to the start of a stream, the output buffer holds
/// zeros, and nothing is written.
pub open spec fn inflate_start() -> InflateProgress {
    InflateProgress {
        calls: seq![None],
        window: Seq::new(INFLATE_CHUNK as nat, |i: int| 0u8),
        out_pos: 0,
        count: 0,
        written: Seq::empty(),
    }
}

/// The inflating of the chunk `chunk` from `in_start` on.
///
/// The decompressor is called with what is left of the chunk, and
/// [`inflate_step_of`] says what becomes of its answer. Unless that is an
/// error, the bytes that the decompressor has made are written, and the
/// place in the output buffer moves on behind them, back to the start at
/// the end of the buffer. With a full output buffer the same goes on for
/// the rest of the chunk.
pub open spec fn inflate_chunk(
    progress: InflateProgress,
    chunk: Seq<u8>,
    in_start: usize,
    flags: u32,
    limit: usize,
) -> (InflateProgress, ChunkEnd)
    decreases limit - progress.count,
{
    let input = chunk.subrange(in_start as int, chunk.len() as int);
    let answer = decompress_answer(progress.calls, input, progress.window, progress.out_pos, flags);
    let called = InflateProgress {
        calls: progress.calls.push(Some((input, progress.window, progress.out_pos, flags))),
        window: answer.3,
        ..progress
    };
    match inflate_step_of(
        answer.0,
        answer.1,
        answer.2,
        in_start,
        chunk.len() as usize,
        progress.count,
        limit,
    ) {
        Err(e) => (called, ChunkEnd::Failed(e)),
        Ok(step) => {
            let next = InflateProgress {
                out_pos: ((progress.out_pos + answer.2) % (INFLATE_CHUNK as int)) as usize,
                count: (progress.count + answer.2) as usize,
                written: progress.written + answer.3.subrange(
                    progress.out_pos as int,
                    progress.out_pos + answer.2,
                ),
                ..called
            };
            match step {
                InflateStep::SameChunk(at) => inflate_chunk(next, chunk, at, flags, limit),
                InflateStep::NextChunk => (next, ChunkEnd::Next),
                InflateStep::Done => (next, ChunkEnd::Done),
            }
        },
    }
}

/// The inflating of the `to_go` bytes at the start of `payload`, chunk by
/// chunk.
///
/// A chunk has [`INFLATE_CHUNK`] bytes, but for the last one, which has
/// what is left; all but the last one are handed over with the flag for
/// more input. A payload that is not all there is a short read. The
/// stream must end in the last chunk, and not before.
pub open spec fn inflate_chunks(
    progress: InflateProgress,
    payload: Seq<u8>,
    to_go: nat,
    limit: usize,
    faulty: bool,
) -> InflateOutcome
    decreases to_go,
{
    if to_go == 0 {
        InflateOutcome {
            result: Err(EPubError::FormatError(NO_END)),
            written: progress.written,
        }
    } else {
        let last = to_go <= INFLATE_CHUNK;
        let n = if last {
            to_go as int
        } else {
            INFLATE_CHUNK as int
        };
        let flags = if last {
            0u32
        } else {
            FLAG_HAS_MORE_INPUT
        };
        if payload.len() < n {
            InflateOutcome { result: Err(short_read_error(faulty)), written: progress.written }
        } else {
            let (next, end) = inflate_chunk(progress, payload.take(n), 0, flags, limit);
            match end {
                ChunkEnd::Failed(e) => InflateOutcome { result: Err(e), written: next.written },
                ChunkEnd::Done => InflateOutcome {
                    result: if last {
                        Ok(next.count)
                    } else {
                        Err(EPubError::FormatError(EARLY_END))
                    },
                    written: next.written,
                },
                ChunkEnd::Next => inflate_chunks(
                    next,
                    payload.skip(n),
                    (to_go - n) as nat,
                    limit,
                    faulty,
                ),
            }
        }
    }
}

/// What inflating a payload writes and returns: the payload is what
/// stands at the start of `bytes`, with the sizes `compressed` and
/// `uncompressed` that its header declares, on a medium that is `faulty`
/// or not.
///
/// Without compressed bytes nothing is read and nothing is written, and
/// that is an error unless nothing is declared. Else the payload is
/// inflated chunk by chunk, as [`inflate_chunks`] says.
pub open spec fn inflate_outcome(bytes: Seq<u8>, compressed: u32, uncompressed: u32, faulty: bool)
    -> InflateOutcome {
    if compressed == 0 {
        InflateOutcome {
            result: if uncompressed == 0 {
                Ok(0)
            } else {
                Err(EPubError::FormatError(NO_COMPRESSED_DATA))
            },
            written: Seq::empty(),
        }
    } else {
        inflate_chunks(inflate_start(), bytes, compressed as nat, uncompressed as usize, faulty)
    }
}

impl LocalFileHeader {
    /// Inflates the payload of this header from `rdr` into `output_file`,
    /// and returns the number of bytes written.
    ///
    /// The payload is read in chunks of at most [`INFLATE_CHUNK`] bytes; what
    /// the decompressor makes of a chunk is written and flushed before the
    /// next call. What is returned and what is written is what
    /// [`inflate_outcome`] says, over the answers of the decompressor. No
    /// more is ever written than the header declares. On success the
    /// reader stands behind the declared compressed size, and as many
    /// bytes were written as the header declares.
    pub fn inflate(&self, rdr: &mut BufReader, output_file: &mut OutputFile) -> (r: Result<
        usize,
        EPubError,
    >)
        requires
            old(rdr).wf(),
            old(output_file).wf(),
        ensures
            final(rdr).faulty() == old(rdr).faulty(),
            final(output_file).wf(),
            final(output_file).cluster_size() == old(output_file).cluster_size(),
            r == inflate_outcome(
                old(rdr).remaining(),
                self.compressed_size,
                self.uncompressed_size,
                old(rdr).faulty(),
            ).result,
            final(output_file)@ == old(output_file)@ + inflate_outcome(
                old(rdr).remaining(),
                self.compressed_size,
                self.uncompressed_size,
                old(rdr).faulty(),
            ).written,
            final(output_file)@.len() <= old(output_file)@.len() + self.uncompressed_size,
            self.compressed_size == 0 ==> *final(rdr) == *old(rdr) && *final(output_file) == *old(output_file),
            r matches Ok(count) ==> {
                &&& final(rdr).wf()
                &&& self.compressed_size <= old(rdr).remaining().len()
                &&& final(rdr).remaining() == old(rdr).remaining().skip(
                    self.compressed_size as int,
                )
                &&& count == self.uncompressed_size
                &&& final(output_file)@.len() == old(output_file)@.len() + count
                &&& self.compressed_size > 0 ==> final(output_file).flushed() == final(output_file)@.len()
            },
            r matches Err(e) ==> {
                ||| e == short_read_error(old(rdr).faulty()) && old(rdr).remaining().len()
                    < self.compressed_size
                ||| e is Decompress
                ||| e is FormatError
            },
    {
        if self.compressed_size == 0 {
            assert(output_file@ + Seq::<u8>::empty() =~= output_file@);
            if self.uncompressed_size != 0 {
                return Err(EPubError::FormatError(NO_COMPRESSED_DATA));
            }
            assert(rdr.remaining().skip(0) =~= rdr.remaining());
            return Ok(0);
        }
        let mut input: Vec<u8> = vec![0u8; INFLATE_CHUNK];
        let mut output: Vec<u8> = vec![0u8; INFLATE_CHUNK];
        let mut decomp = miniz_oxide::inflate::core::DecompressorOxide::new();
        decomp.init();
        let limit: usize = self.uncompressed_size as usize;
        let total: usize = self.compressed_size as usize;
        let mut count: usize = 0;
        let mut out_pos: usize = 0;
        let mut bytes_to_go: usize = total;
        let ghost all = rdr.remaining();
        let ghost faulty = rdr.faulty();
        let ghost base = output_file@;
        let ghost mut progress = inflate_start();
        proof {
            assert(all.skip(0) =~= all);
            assert(base + progress.written =~= base);
            assert(output@ =~= progress.window);
            assert(calls_made(decomp) =~= progress.calls);
        }
        while bytes_to_go > 0
            invariant
                rdr.wf(),
                rdr.faulty() == faulty,
                faulty == old(rdr).faulty(),
                all == old(rdr).remaining(),
                base == old(output_file)@,
                output_file.wf(),
                output_file.cluster_size() == old(output_file).cluster_size(),
                limit == self.uncompressed_size,
                total == self.compressed_size,
                total > 0,
                bytes_to_go <= total,
                total - bytes_to_go <= all.len(),
                rdr.remaining() == all.skip(total - bytes_to_go),
                input@.len() == INFLATE_CHUNK,
                output@.len() == INFLATE_CHUNK,
                out_pos < INFLATE_CHUNK,
                count <= limit,
                calls_made(decomp) == progress.calls,
                output@ == progress.window,
                out_pos == progress.out_pos,
                count == progress.count,
                progress.written.len() == count,
                output_file@ == base + progress.written,
                inflate_chunks(inflate_start(), all, total as nat, limit, faulty) == inflate_chunks(
                    progress,
                    rdr.remaining(),
                    bytes_to_go as nat,
                    limit,
                    faulty,
                ),
            decreases bytes_to_go,
        {
            let ghost before = rdr.remaining();
            let last: bool = bytes_to_go <= INFLATE_CHUNK;
            let n: usize = if last {
                bytes_to_go
            } else {
                INFLATE_CHUNK
            };
            let flags: u32 = if last {
                0
            } else {
                has_more_input_flag()
            };
            // only the last chunk is shorter than the buffer
            input.truncate(n);
            let _ = rdr.read_to_array(&mut input)?;
            proof {
                assert(before.skip(n as int) =~= all.skip(total - bytes_to_go + n));
            }
            let ghost chunk = input@;
            let ghost at_chunk = progress;
            let mut in_start: usize = 0;
            let mut done: bool = false;
            loop
                invariant_except_break
                    inflate_chunk(at_chunk, chunk, 0, flags, limit) == inflate_chunk(
                        progress,
                        chunk,
                        in_start,
                        flags,
                        limit,
                    ),
                    !done,
                invariant
                    rdr.wf(),
                    rdr.faulty() == faulty,
                    faulty == old(rdr).faulty(),
                    all == old(rdr).remaining(),
                    0 < bytes_to_go <= total,
                    total - bytes_to_go + n <= all.len(),
                    rdr.remaining() == all.skip(total - bytes_to_go + n),
                    last == (bytes_to_go <= INFLATE_CHUNK),
                    n == (if last {
                        bytes_to_go
                    } else {
                        INFLATE_CHUNK
                    }),
                    flags == (if last {
                        0u32
                    } else {
                        FLAG_HAS_MORE_INPUT
                    }),
                    before.len() >= n,
                    chunk == before.take(n as int),
                    inflate_chunks(inflate_start(), all, total as nat, limit, faulty)
                        == inflate_chunks(at_chunk, before, bytes_to_go as nat, limit, faulty),
                    base == old(output_file)@,
                    limit == self.uncompressed_size,
                    total == self.compressed_size,
                    total > 0,
                    output_file.wf(),
                    output_file.cluster_size() == old(output_file).cluster_size(),
                    input@ == chunk,
                    chunk.len() == n,
                    n <= INFLATE_CHUNK,
                    in_start <= n,
                    output@.len() == INFLATE_CHUNK,
                    out_pos < INFLATE_CHUNK,
                    count <= limit,
                    calls_made(decomp) == progress.calls,
                    output@ == progress.window,
                    out_pos == progress.out_pos,
                    count == progress.count,
                    progress.written.len() == count,
                    output_file@ == base + progress.written,
                ensures
                    inflate_chunk(at_chunk, chunk, 0, flags, limit) == (
                        progress,
                        if done {
                            ChunkEnd::Done
                        } else {
                            ChunkEnd::Next
                        },
                    ),
                    output_file.flushed() == output_file@.len(),
                    done ==> count == limit,
                decreases limit - count,
            {
                // goes round until the chunk is used up
                let part = vstd::slice::slice_subrange(input.as_slice(), in_start, n);
                let ghost window = output@;
                let (status, used, made) = decompress(&mut decomp, part, &mut output, out_pos, flags);
                let step: InflateStep = inflate_step(
                    status,
                    used,
                    made,
                    in_start,
                    n,
                    count,
                    limit,
                )?;
                let ghost written = output_file@;
                output_file.write_all(&output, out_pos, out_pos + made);
                output_file.flush();
                proof {
                    progress = InflateProgress {
                        calls: progress.calls.push(Some((part@, window, out_pos, flags))),
                        window: output@,
                        out_pos: ((out_pos + made) % (INFLATE_CHUNK as int)) as usize,
                        count: (count + made) as usize,
                        written: progress.written + output@.subrange(
                            out_pos as int,
                            out_pos + made,
                        ),
                    };
                    assert(output_file@ =~= base + progress.written);
                }
                count = count + made;
                out_pos = (out_pos + made) % INFLATE_CHUNK;
                match step {
                    InflateStep::SameChunk(at) => {
                        in_start = at;
                    },
                    InflateStep::NextChunk => {
                        break ;
                    },
                    InflateStep::Done => {
                        done = true;
                        break ;
                    },
                }
            }
            input.resize(INFLATE_CHUNK, 0);
            if done {
                if !last {
                    return Err(EPubError::FormatError(EARLY_END));
                }
                return Ok(count);
            }
            bytes_to_go = bytes_to_go - n;
        }
        Err(EPubError::FormatError(NO_END))
    }

    /// Copies the payload of this header, stored as it is, from `rdr` to
    /// `output_file`, and returns the number of bytes written.
    ///
    /// A stored payload has the same size compressed and uncompressed; a
    /// header that says otherwise is refused before anything is read.
    pub fn copy_stored(&self, rdr: &mut BufReader, output_file: &mut OutputFile) -> (r: Result<
        usize,
        EPubError,
    >)
        requires
            old(rdr).wf(),
            old(output_file).wf(),
        ensures
            final(rdr).faulty() == old(rdr).faulty(),
            final(output_file).wf(),
            final(output_file).cluster_size() == old(output_file).cluster_size(),
            r is Ok <==> self.compressed_size == self.uncompressed_size && self.uncompressed_size
                <= old(rdr).remaining().len(),
            r matches Err(e) ==> if self.compressed_size != self.uncompressed_size {
                e is FormatError
            } else {
                e == short_read_error(old(rdr).faulty())
            },
            r matches Ok(count) ==> {
                &&& final(rdr).wf()
                &&& count == self.uncompressed_size
                &&& final(rdr).remaining() == old(rdr).remaining().skip(count as int)
                &&& final(output_file)@ == old(output_file)@ + old(rdr).remaining().take(
                    count as int,
                )
                &&& final(output_file).flushed() == final(output_file)@.len()
            },
    {
        if self.compressed_size != self.uncompressed_size {
            return Err(EPubError::FormatError("stored entry with two sizes"));
        }
        let total: usize = self.uncompressed_size as usize;
        let ghost all = rdr.remaining();
        let mut bytes_to_go: usize = total;
        proof {
            assert(all.skip(0) =~= all);
            assert(output_file@ =~= old(output_file)@ + all.take(0));
        }
        while bytes_to_go > 0
            invariant
                rdr.wf(),
                rdr.faulty() == old(rdr).faulty(),
                output_file.wf(),
                output_file.cluster_size() == old(output_file).cluster_size(),
                all == old(rdr).remaining(),
                total == self.uncompressed_size,
                self.compressed_size == self.uncompressed_size,
                bytes_to_go <= total,
                total - bytes_to_go <= all.len(),
                rdr.remaining() == all.skip(total - bytes_to_go),
                output_file@ == old(output_file)@ + all.take(total - bytes_to_go),
            decreases bytes_to_go,
        {
            let n: usize = if bytes_to_go > STORE_CHUNK {
                STORE_CHUNK
            } else {
                bytes_to_go
            };
            let mut v: Vec<u8> = vec![0u8; n];
            let _ = rdr.read_to_array(&mut v)?;
            output_file.write_all(&v, 0, n);
            proof {
                let done = total - bytes_to_go;
                assert(v@.subrange(0, n as int) =~= all.skip(done).take(n as int));
                assert(all.take(done) + all.skip(done).take(n as int) =~= all.take(done + n));
                assert(all.skip(done).skip(n as int) =~= all.skip(done + n));
            }
            bytes_to_go = bytes_to_go - n;
        }
        output_file.flush();
        Ok(total)
    }
}

} // verus!
