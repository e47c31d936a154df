//! The error type shared by every fallible operation of the crate.
use vstd::prelude::*;

verus! {

/// What the decompressor says after a call.
#[derive(Debug, Clone, Copy, PartialEq, Eq, Structural)]
pub enum InflateStatus {
    /// more input was expected, and none is to come
    FailedCannotMakeProgress,
    /// the output buffer has a size that the decompressor cannot work with
    BadParam,
    /// the checksum of the data is not the one that the stream gives
    Adler32Mismatch,
    /// the stream is not valid
    Failed,
    /// the stream has ended
    Done,
    /// the input is used up before the end of the stream
    NeedsMoreInput,
    /// the output buffer is full
    HasMoreOutput,
    /// a status that is none of these
    Other,
}

/// Why an operation on a book failed.
#[derive(Debug, PartialEq, Eq)]
pub enum EPubError {
    /// An XML document lacks an element or an attribute that the format demands.
    InvalidXml,
    /// The four bytes at the start of a local file header are not its signature.
    InvalidLocalHeader,
    /// A local file header asks for a feature that is not supported.
    Unimplemented,
    /// The metadata of a book was asked for before the book was expanded.
    EPubFileNotExpanded,
    /// The archive holds no bytes at all.
    EmptyFile,
    /// A structure of the archive or of the disk is not the expected one.
    FormatError(&'static str),
    /// The partition index is not one of the four primary partitions.
    NoSuchVolume,
    /// The decompressor stopped with the given status.
    Decompress(InflateStatus),
    /// The storage below a file failed.
    IO,
    /// A length is above the accepted bound, or the data ended too early.
    TruncatedRead,
    /// Bytes that have to be text are not valid UTF-8.
    UTF8,
    /// A destination path is longer than the accepted bound.
    PathTooLong,
    /// An archive holds more entries than the accepted bound.
    TooManyEntries,
    /// The XML parser rejected a document at the given line and column.
    XmlParseErr(u32, u32),
}

} // verus!
