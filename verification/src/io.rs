//! Files as sequences of bytes, and the block reader over them.
//!
//! The library does no input or output of its own. A file comes to it as
//! the bytes that it holds, and what the library writes goes to a file
//! that keeps the bytes; to bring the bytes from a volume and to put them
//! onto one is the caller's part.
//!
//! The reader uses two block buffers: the cursor advances through the
//! active one, and the next block is brought into the other one when the
//! cursor runs off the end. The cursor never goes backwards.
use vstd::prelude::*;
use crate::error::EPubError;

pub use crate::path::{basename_and_ext, create_dirs, split_path};

verus! {

/// The number of bytes in one block of storage.
pub const BLOCK_SIZE: usize = 512;

/// The longest field of variable length that is read into memory at once.
pub const MAX_FIELD_LEN: usize = 4096;

/// A file opened for reading: its bytes, and how many of them were handed out.
///
/// A file may stand on a failing medium. Such a file hands out its bytes
/// as any other, and reports an error where another file would report its end.
#[derive(Debug)]
pub struct InputFile {
    data: Vec<u8>,
    pos: usize,
    faulty: bool,
}

impl InputFile {
    /// The read position lies inside the file.
    pub closed spec fn wf(&self) -> bool {
        self.pos <= self.data@.len()
    }

    /// The bytes that were not handed out yet.
    pub closed spec fn remaining(&self) -> Seq<u8> {
        self.data@.skip(self.pos as int)
    }

    /// Whether the medium fails behind the last byte.
    pub closed spec fn faulty(&self) -> bool {
        self.faulty
    }

    /// A file that holds `data` and ends behind it.
    pub fn new(data: Vec<u8>) -> (file: InputFile)
        ensures
            file.wf(),
            file.remaining() == data@,
            !file.faulty(),
    {
        InputFile { data, pos: 0, faulty: false }
    }

    /// A file that holds `data` on a medium that fails behind it.
    pub fn failing_after(data: Vec<u8>) -> (file: InputFile)
        ensures
            file.wf(),
            file.remaining() == data@,
            file.faulty(),
    {
        InputFile { data, pos: 0, faulty: true }
    }

    /// Whether all bytes of the file were handed out.
    pub fn at_end(&self) -> (b: bool)
        requires
            self.wf(),
        ensures
            b == (self.remaining().len() == 0),
    {
        self.pos == self.data.len()
    }

    /// Copies the next bytes of the file to the front of `buf`.
    ///
    /// As many bytes are copied as `buf` holds, or as the file has left if
    /// these are fewer; the rest of `buf` stays. On a failing medium a
    /// read behind the last byte is an error, unless `buf` is empty.
    pub fn read(&mut self, buf: &mut Vec<u8>) -> (r: Result<usize, EPubError>)
        requires
            old(self).wf(),
        ensures
            final(self).wf(),
            final(self).faulty() == old(self).faulty(),
            final(buf)@.len() == old(buf)@.len(),
            r is Err <==> old(self).faulty() && old(self).remaining().len() == 0 && old(buf)@.len() > 0,
            r is Err ==> r == Err::<usize, EPubError>(EPubError::IO)
                && final(self).remaining() == old(self).remaining()
                && final(buf)@ == old(buf)@,
            r matches Ok(n) ==> {
                &&& n as int == vstd::math::min(old(buf)@.len() as int, old(self).remaining().len() as int)
                &&& final(buf)@ == old(self).remaining().take(n as int) + old(buf)@.skip(n as int)
                &&& final(self).remaining() == old(self).remaining().skip(n as int)
            },
    {
        let left: usize = self.data.len() - self.pos;
        if left == 0 && self.faulty && buf.len() > 0 {
            return Err(EPubError::IO);
        }
        let n: usize = if buf.len() < left { buf.len() } else { left };
        let start: usize = self.pos;
        let mut i: usize = 0;
        while i < n
            invariant
                i <= n,
                n <= buf@.len(),
                start + n <= self.data.len(),
                buf@.len() == old(buf)@.len(),
                self.data@ == old(self).data@,
                self.pos == start,
                self.faulty == old(self).faulty,
                buf@ == self.data@.subrange(start as int, start + i) + old(buf)@.skip(i as int),
            decreases n - i,
        {
            buf[i] = self.data[start + i];
            i += 1;
            assert(buf@ =~= self.data@.subrange(start as int, start + i) + old(buf)@.skip(i as int));
        }
        self.pos = start + n;
        assert(old(self).remaining().take(n as int) =~= self.data@.subrange(start as int, start + n));
        assert(self.remaining() =~= old(self).remaining().skip(n as int));
        Ok(n)
    }
}


/// A file opened for writing: the bytes written to it so far.
///
/// The file lies in clusters of a fixed size, and one write never crosses
/// the end of a cluster: it takes the bytes that still fit into the
/// cluster it starts in and leaves the rest to the next write.
#[derive(Debug)]
pub struct OutputFile {
    data: Vec<u8>,
    cluster_size: usize,
    flushed: usize,
}

impl View for OutputFile {
    type V = Seq<u8>;

    closed spec fn view(&self) -> Seq<u8> {
        self.data@
    }
}

impl OutputFile {
    /// The clusters have a size, and what was flushed was written.
    pub closed spec fn wf(&self) -> bool {
        self.cluster_size > 0 && self.flushed <= self.data@.len()
    }

    /// The size of a cluster.
    pub closed spec fn cluster_size(&self) -> nat {
        self.cluster_size as nat
    }

    /// How many of the bytes written were flushed.
    pub closed spec fn flushed(&self) -> nat {
        self.flushed as nat
    }

    /// How many bytes the next write takes at most: what is left of the
    /// cluster that the end of the file lies in.
    pub open spec fn room(&self) -> int {
        self.cluster_size() - self@.len() % self.cluster_size()
    }

    /// An empty file in clusters of one block.
    pub fn new() -> (file: OutputFile)
        ensures
            file.wf(),
            file@ == Seq::<u8>::empty(),
            file.cluster_size() == BLOCK_SIZE,
            file.flushed() == 0,
    {
        OutputFile { data: Vec::new(), cluster_size: BLOCK_SIZE, flushed: 0 }
    }

    /// An empty file in clusters of `cluster_size` bytes.
    pub fn with_cluster_size(cluster_size: usize) -> (file: OutputFile)
        requires
            cluster_size > 0,
        ensures
            file.wf(),
            file@ == Seq::<u8>::empty(),
            file.cluster_size() == cluster_size,
            file.flushed() == 0,
    {
        OutputFile { data: Vec::new(), cluster_size, flushed: 0 }
    }

    /// Writes the first bytes of `buf` behind the end of the file, as many
    /// as the cluster has room for, and returns their count.
    pub fn write(&mut self, buf: &[u8]) -> (n: usize)
        requires
            old(self).wf(),
        ensures
            final(self).wf(),
            final(self).cluster_size() == old(self).cluster_size(),
            final(self).flushed() == old(self).flushed(),
            n as int == vstd::math::min(buf@.len() as int, old(self).room()),
            buf@.len() > 0 ==> n > 0,
            final(self)@ == old(self)@ + buf@.take(n as int),
    {
        let room: usize = self.cluster_size - self.data.len() % self.cluster_size;
        let n: usize = if buf.len() < room { buf.len() } else { room };
        let mut i: usize = 0;
        while i < n
            invariant
                i <= n <= buf@.len(),
                self.cluster_size == old(self).cluster_size,
                self.flushed == old(self).flushed,
                self.data@ == old(self).data@ + buf@.take(i as int),
            decreases n - i,
        {
            self.data.push(buf[i]);
            i += 1;
            assert(self.data@ =~= old(self).data@ + buf@.take(i as int));
        }
        n
    }

    /// Makes all that was written durable.
    pub fn flush(&mut self)
        requires
            old(self).wf(),
        ensures
            final(self).wf(),
            final(self).cluster_size() == old(self).cluster_size(),
            final(self)@ == old(self)@,
            final(self).flushed() == final(self)@.len(),
    {
        self.flushed = self.data.len();
    }

    /// Writes the bytes of `buf` from `from` up to `to`, in as many writes
    /// as it takes.
    pub fn write_all(&mut self, buf: &Vec<u8>, from: usize, to: usize)
        requires
            old(self).wf(),
            from <= to <= buf@.len(),
        ensures
            final(self).wf(),
            final(self).cluster_size() == old(self).cluster_size(),
            final(self).flushed() == old(self).flushed(),
            final(self)@ == old(self)@ + buf@.subrange(from as int, to as int),
    {
        let mut start: usize = from;
        assert(self@ =~= old(self)@ + buf@.subrange(from as int, start as int));
        while start < to
            invariant
                self.wf(),
                self.cluster_size() == old(self).cluster_size(),
                self.flushed() == old(self).flushed(),
                from <= start <= to <= buf@.len(),
                self@ == old(self)@ + buf@.subrange(from as int, start as int),
            decreases to - start,
        {
            let part = vstd::slice::slice_subrange(buf.as_slice(), start, to);
            let n: usize = self.write(part);
            assert(self@ =~= old(self)@ + buf@.subrange(from as int, start + n));
            start = start + n;
        }
    }

    /// The bytes written so far.
    pub fn data(&self) -> (data: &Vec<u8>)
        ensures
            data@ == self@,
    {
        &self.data
    }

    /// The bytes written, without the file.
    pub fn into_data(self) -> (data: Vec<u8>)
        ensures
            data@ == self@,
    {
        self.data
    }
}

/// The error of a read that finds too few bytes: the medium's failure on a
/// failing medium, a truncated read at the end of a sound file.
pub open spec fn short_read_error(faulty: bool) -> EPubError {
    if faulty {
        EPubError::IO
    } else {
        EPubError::TruncatedRead
    }
}

/// The value of the first two bytes of `bytes`, least significant byte first.
pub open spec fn le_u16(bytes: Seq<u8>) -> u16
    recommends
        bytes.len() >= 2,
{
    (bytes[0] as int + 256 * (bytes[1] as int)) as u16
}

/// The value of the first four bytes of `bytes`, least significant byte first.
pub open spec fn le_u32(bytes: Seq<u8>) -> u32
    recommends
        bytes.len() >= 4,
{
    (bytes[0] as int + 256 * (bytes[1] as int) + 65536 * (bytes[2] as int) + 16777216 * (
    bytes[3] as int)) as u32
}

/// What a read of `n` bytes gives from a reader that has `remaining`
/// left: the bytes and what is left behind them, or nothing where fewer
/// than `n` bytes are left.
pub open spec fn read_model(remaining: Seq<u8>, n: nat) -> Option<(Seq<u8>, Seq<u8>)> {
    if n <= remaining.len() {
        Some((remaining.take(n as int), remaining.skip(n as int)))
    } else {
        None
    }
}

/// What a read of a number of four bytes gives from a reader that has
/// `remaining` left: the number and what is left behind it.
pub open spec fn read4_model(remaining: Seq<u8>) -> Option<(u32, Seq<u8>)> {
    if 4 <= remaining.len() {
        Some((le_u32(remaining), remaining.skip(4)))
    } else {
        None
    }
}

/// What a look at a number of four bytes gives from a reader that has
/// `remaining` left: the number, and all of `remaining` left.
pub open spec fn peek4_model(remaining: Seq<u8>) -> Option<(u32, Seq<u8>)> {
    if 4 <= remaining.len() {
        Some((le_u32(remaining), remaining))
    } else {
        None
    }
}

/// The sum of `lens`.
pub open spec fn total_len(lens: Seq<nat>) -> nat
    decreases lens.len(),
{
    if lens.len() == 0 {
        0
    } else {
        lens[0] + total_len(lens.skip(1))
    }
}

/// What reads of `lens` bytes, one after the other, give from a reader
/// that has `remaining` left: the bytes of all reads in their order and
/// what is left behind them, or nothing where one of the reads fails.
pub open spec fn read_pieces(remaining: Seq<u8>, lens: Seq<nat>) -> Option<(Seq<u8>, Seq<u8>)>
    decreases lens.len(),
{
    if lens.len() == 0 {
        Some((Seq::empty(), remaining))
    } else {
        match read_model(remaining, lens[0]) {
            Some((first, rest)) => match read_pieces(rest, lens.skip(1)) {
                Some((others, left)) => Some((first + others, left)),
                None => None,
            },
            None => None,
        }
    }
}

/// Reading in pieces is reading at once: reads of any lengths, one after
/// the other, give the bytes that one read of the sum of the lengths
/// gives, and leave the same bytes behind; and they fail where it fails.
pub proof fn lemma_read_in_pieces(remaining: Seq<u8>, lens: Seq<nat>)
    ensures
        read_pieces(remaining, lens) == read_model(remaining, total_len(lens)),
    decreases lens.len(),
{
    if lens.len() == 0 {
        assert(remaining.take(0) =~= Seq::<u8>::empty());
        assert(remaining.skip(0) =~= remaining);
    } else {
        let n = lens[0];
        let others = total_len(lens.skip(1));
        if n <= remaining.len() {
            let rest = remaining.skip(n as int);
            lemma_read_in_pieces(rest, lens.skip(1));
            if others <= rest.len() {
                assert(remaining.take(n as int) + rest.take(others as int) =~= remaining.take(
                    (n + others) as int,
                ));
                assert(rest.skip(others as int) =~= remaining.skip((n + others) as int));
            }
        }
    }
}

/// A look ahead changes nothing that can be seen: the read that follows a
/// look gives the number that the look gave, and leaves the reader as a
/// read without the look before it would; and the look fails where the
/// read fails.
pub proof fn lemma_peek_is_transparent(remaining: Seq<u8>)
    ensures
        match peek4_model(remaining) {
            Some((peeked, left)) => read4_model(left) == read4_model(remaining) && read4_model(
                left,
            ) == Some((peeked, remaining.skip(4))),
            None => read4_model(remaining) is None,
        },
{
}

/// `byteorder::LittleEndian::read_u16`: the first two bytes of the slice as a
/// number, least significant byte first. It panics on a shorter slice.
#[verifier::external_body]
pub(crate) fn read_le_u16(bytes: &[u8]) -> (value: u16)
    requires
        bytes@.len() >= 2,
    ensures
        value == le_u16(bytes@),
{
    <byteorder::LittleEndian as byteorder::ByteOrder>::read_u16(bytes)
}

/// `byteorder::LittleEndian::read_u32`: the first four bytes of the slice as a
/// number, least significant byte first. It panics on a shorter slice.
#[verifier::external_body]
pub(crate) fn read_le_u32(bytes: &[u8]) -> (value: u32)
    requires
        bytes@.len() >= 4,
    ensures
        value == le_u32(bytes@),
{
    <byteorder::LittleEndian as byteorder::ByteOrder>::read_u32(bytes)
}

/// `String::from_utf8`: the text that the bytes encode, where they are valid
/// UTF-8, and nothing where they are not.
#[verifier::external_body]
pub(crate) fn string_from_utf8(bytes: Vec<u8>) -> (r: Option<String>)
    ensures
        r is Some <==> vstd::utf8::valid_utf8(bytes@),
        r matches Some(text) ==> text@ == vstd::utf8::decode_utf8(bytes@),
{
    match String::from_utf8(bytes) {
        Ok(text) => Some(text),
        Err(_) => None,
    }
}

/// The byte that ends a line.
pub const LINE_FEED: u8 = 10;

/// The lines of `bytes`: the first byte is a line of its own where it is a
/// line feed or where nothing follows it, and joins the line behind it
/// otherwise. So every line keeps the line feed that ends it, and only the
/// last line can be without one.
pub open spec fn split_lines(bytes: Seq<u8>) -> Seq<Seq<u8>>
    decreases bytes.len(),
{
    if bytes.len() == 0 {
        Seq::empty()
    } else {
        let rest = split_lines(bytes.skip(1));
        if bytes[0] == LINE_FEED || rest.len() == 0 {
            seq![seq![bytes[0]]] + rest
        } else {
            seq![seq![bytes[0]] + rest[0]] + rest.skip(1)
        }
    }
}

/// Bytes with no line feed before the last byte are one line.
pub proof fn lemma_single_line(bytes: Seq<u8>)
    requires
        bytes.len() > 0,
        forall|k: int| 0 <= k < bytes.len() - 1 ==> bytes[k] != LINE_FEED,
    ensures
        split_lines(bytes) == seq![bytes],
    decreases bytes.len(),
{
    let rest = bytes.skip(1);
    if rest.len() == 0 {
        assert(split_lines(rest) =~= Seq::<Seq<u8>>::empty());
        assert(seq![bytes[0]] =~= bytes);
        assert(split_lines(bytes) =~= seq![bytes]);
    } else {
        assert forall|k: int| 0 <= k < rest.len() - 1 implies rest[k] != LINE_FEED by {
            assert(rest[k] == bytes[k + 1]);
        }
        lemma_single_line(rest);
        assert(seq![bytes[0]] + rest =~= bytes);
        assert(split_lines(bytes) =~= seq![bytes]);
    }
}

/// Behind a line feed the lines start anew: the lines of two runs of bytes,
/// the first of which is empty or ends in a line feed, are the lines of the
/// first followed by the lines of the second.
pub proof fn lemma_split_lines_concat(head: Seq<u8>, tail: Seq<u8>)
    requires
        head.len() == 0 || head.last() == LINE_FEED,
    ensures
        split_lines(head + tail) == split_lines(head) + split_lines(tail),
        head.len() > 0 ==> split_lines(head).len() > 0,
    decreases head.len(),
{
    if head.len() == 0 {
        assert(head + tail =~= tail);
        assert(split_lines(head) + split_lines(tail) =~= split_lines(tail));
    } else {
        let whole = head + tail;
        let inner = head.skip(1);
        assert(whole.skip(1) =~= inner + tail);
        assert(whole[0] == head[0]);
        if inner.len() == 0 {
            assert(head[0] == LINE_FEED);
            assert(inner + tail =~= tail);
            assert(split_lines(inner) =~= Seq::<Seq<u8>>::empty());
            assert(split_lines(whole) =~= split_lines(head) + split_lines(tail));
        } else {
            assert(inner.last() == head.last());
            lemma_split_lines_concat(inner, tail);
            let a = split_lines(inner);
            let b = split_lines(tail);
            assert(split_lines(whole.skip(1)) == a + b);
            if head[0] == LINE_FEED {
                assert(split_lines(whole) =~= split_lines(head) + b);
            } else {
                assert((a + b)[0] == a[0]);
                assert((a + b).skip(1) =~= a.skip(1) + b);
                assert(split_lines(whole) =~= split_lines(head) + b);
            }
        }
    }
}

/// The error of reading lines: a line that ends in a line feed and is not
/// valid UTF-8 is found first, then a failing medium, then a last line
/// without line feed that is not valid UTF-8.
pub open spec fn lines_error(lines: Seq<Seq<u8>>, faulty: bool) -> EPubError {
    if exists|i: int|
        0 <= i < lines.len() && lines[i].last() == LINE_FEED && !vstd::utf8::valid_utf8(
            #[trigger] lines[i],
        ) {
        EPubError::UTF8
    } else if faulty {
        EPubError::IO
    } else {
        EPubError::UTF8
    }
}

/// Reads a file block by block and hands out its bytes in order.
///
/// Two buffers hold one block each. The cursor walks through the active
/// buffer; when it runs off the end, the next block is brought into the
/// other buffer and the two change roles.
#[derive(Debug)]
pub struct BufReader {
    /// the file we are reading from
    file: InputFile,
    /// the block buffers
    first: Vec<u8>,
    second: Vec<u8>,
    /// which block buffer the cursor is in
    block_idx: usize,
    /// the cursor position in the active buffer
    cursor: usize,
    /// a peek has brought the next block into the other buffer already
    peek_rolled: bool,
}

impl BufReader {
    /// The buffer that the cursor is in.
    pub closed spec fn active(&self) -> Seq<u8> {
        if self.block_idx == 0 {
            self.first@
        } else {
            self.second@
        }
    }

    /// The buffer that the cursor is not in.
    pub closed spec fn spare(&self) -> Seq<u8> {
        if self.block_idx == 0 {
            self.second@
        } else {
            self.first@
        }
    }

    /// The cursor lies inside the active buffer, and only the last block of
    /// the file is shorter than a block.
    pub closed spec fn wf(&self) -> bool {
        &&& self.file.wf()
        &&& self.block_idx < 2
        &&& self.first@.len() <= BLOCK_SIZE
        &&& self.second@.len() <= BLOCK_SIZE
        &&& self.cursor <= self.active().len()
        &&& self.active().len() < BLOCK_SIZE ==> self.file.remaining().len() == 0
            && !self.peek_rolled
        &&& self.peek_rolled ==> self.spare().len() > 0
        &&& self.peek_rolled && self.spare().len() < BLOCK_SIZE ==> self.file.remaining().len()
            == 0
    }

    /// The bytes that the reader has not handed out yet, in the order in
    /// which it will hand them out.
    pub closed spec fn remaining(&self) -> Seq<u8> {
        self.active().skip(self.cursor as int) + (if self.peek_rolled {
            self.spare()
        } else {
            Seq::<u8>::empty()
        }) + self.file.remaining()
    }

    /// Whether the file stands on a medium that fails behind its last byte.
    pub closed spec fn faulty(&self) -> bool {
        self.file.faulty()
    }

    /// Binds a reader to `file` and brings the first block in.
    ///
    /// This fails only where the first read of the file fails.
    pub fn new(file: InputFile) -> (r: Result<BufReader, EPubError>)
        requires
            file.wf(),
        ensures
            r is Err <==> file.faulty() && file.remaining().len() == 0,
            r matches Err(e) ==> e == EPubError::IO,
            r matches Ok(rdr) ==> rdr.wf() && rdr.remaining() == file.remaining() && rdr.faulty()
                == file.faulty(),
    {
        let mut rdr = BufReader {
            file,
            first: Vec::new(),
            second: Vec::new(),
            // start out in the second buffer, so that the first one is loaded below
            block_idx: 1,
            cursor: 0,
            peek_rolled: false,
        };
        let _ = rdr.load_block()?;
        rdr.block_idx = 0;
        assert(rdr.remaining() =~= file.remaining());
        Ok(rdr)
    }

    /// Whether the reader has handed out all bytes.
    pub fn at_end(&self) -> (b: bool)
        requires
            self.wf(),
        ensures
            b == (self.remaining().len() == 0),
    {
        let n: usize = self.active_len();
        self.cursor == n && !self.peek_rolled && self.file.at_end()
    }

    /// Makes the spare buffer hold the block that follows the active one,
    /// and returns its length.
    fn load_block(&mut self) -> (r: Result<usize, EPubError>)
        requires
            old(self).file.wf(),
            old(self).block_idx < 2,
            old(self).peek_rolled ==> old(self).spare().len() <= BLOCK_SIZE,
            old(self).peek_rolled && old(self).spare().len() < BLOCK_SIZE ==> old(
                self,
            ).file.remaining().len() == 0,
        ensures
            final(self).file.wf(),
            final(self).file.faulty() == old(self).file.faulty(),
            final(self).block_idx == old(self).block_idx,
            final(self).cursor == old(self).cursor,
            final(self).active() == old(self).active(),
            r is Err <==> !old(self).peek_rolled && old(self).file.faulty() && old(
                self,
            ).file.remaining().len() == 0,
            r matches Err(e) ==> e == EPubError::IO,
            r matches Ok(n) ==> {
                &&& !final(self).peek_rolled
                &&& n == final(self).spare().len()
                &&& n <= BLOCK_SIZE
                &&& n < BLOCK_SIZE ==> final(self).file.remaining().len() == 0
                &&& final(self).spare() + final(self).file.remaining() == (if old(
                    self,
                ).peek_rolled {
                    old(self).spare()
                } else {
                    Seq::<u8>::empty()
                }) + old(self).file.remaining()
            },
    {
        if self.peek_rolled {
            self.peek_rolled = false;
            let n: usize = if self.block_idx == 0 {
                self.second.len()
            } else {
                self.first.len()
            };
            return Ok(n);
        }
        let n: usize = if self.block_idx == 0 {
            self.second.resize(BLOCK_SIZE, 0);
            let n: usize = self.file.read(&mut self.second)?;
            self.second.truncate(n);
            n
        } else {
            self.first.resize(BLOCK_SIZE, 0);
            let n: usize = self.file.read(&mut self.first)?;
            self.first.truncate(n);
            n
        };
        assert(self.spare() =~= old(self).file.remaining().take(n as int));
        assert(self.spare() + self.file.remaining() =~= old(self).file.remaining());
        Ok(n)
    }

    /// The length of the active buffer.
    fn active_len(&self) -> (n: usize)
        requires
            self.block_idx < 2,
        ensures
            n == self.active().len(),
    {
        if self.block_idx == 0 {
            self.first.len()
        } else {
            self.second.len()
        }
    }

    /// The byte at `i` in the active buffer.
    fn active_byte(&self, i: usize) -> (b: u8)
        requires
            self.block_idx < 2,
            i < self.active().len(),
        ensures
            b == self.active()[i as int],
    {
        if self.block_idx == 0 {
            self.first[i]
        } else {
            self.second[i]
        }
    }

    /// Copies `n` bytes from the cursor on to `arr`, from `at` on, and moves
    /// the cursor behind them.
    fn take_active(&mut self, arr: &mut Vec<u8>, at: usize, n: usize)
        requires
            old(self).wf(),
            old(self).cursor + n <= old(self).active().len(),
            at + n <= old(arr)@.len(),
        ensures
            final(self).wf(),
            final(self).first@ == old(self).first@,
            final(self).second@ == old(self).second@,
            final(self).block_idx == old(self).block_idx,
            final(self).peek_rolled == old(self).peek_rolled,
            final(self).file == old(self).file,
            final(self).cursor == old(self).cursor + n,
            n <= old(self).remaining().len(),
            final(self).remaining() == old(self).remaining().skip(n as int),
            final(arr)@ == old(arr)@.take(at as int) + old(self).remaining().take(n as int) + old(
                arr,
            )@.skip(at + n),
    {
        let mut i: usize = 0;
        while i < n
            invariant
                self.block_idx < 2,
                *self == *old(self),
                i <= n,
                self.cursor + n <= self.active().len(),
                self.active().len() <= BLOCK_SIZE,
                at + n <= arr.len(),
                arr@.len() == old(arr)@.len(),
                arr@ == old(arr)@.take(at as int) + self.active().subrange(
                    self.cursor as int,
                    self.cursor + i,
                ) + old(arr)@.skip(at + i),
            decreases n - i,
        {
            let b: u8 = self.active_byte(self.cursor + i);
            arr[at + i] = b;
            i += 1;
            assert(arr@ =~= old(arr)@.take(at as int) + self.active().subrange(
                self.cursor as int,
                self.cursor + i,
            ) + old(arr)@.skip(at + i));
        }
        assert(old(self).remaining().take(n as int) =~= self.active().subrange(
            self.cursor as int,
            self.cursor + n,
        ));
        self.cursor = self.cursor + n;
        assert(self.remaining() =~= old(self).remaining().skip(n as int));
    }

    /// Brings the next block in and changes over to it, once the active
    /// buffer is used up.
    fn roll(&mut self) -> (r: Result<(), EPubError>)
        requires
            old(self).wf(),
            old(self).cursor == old(self).active().len(),
        ensures
            final(self).faulty() == old(self).faulty(),
            r is Ok <==> old(self).remaining().len() > 0,
            r matches Err(e) ==> e == short_read_error(old(self).faulty()),
            r is Ok ==> {
                &&& final(self).wf()
                &&& final(self).remaining() == old(self).remaining()
                &&& final(self).cursor == 0
                &&& final(self).block_idx == 1 - old(self).block_idx
                &&& final(self).spare() == old(self).active()
                &&& !final(self).peek_rolled
                &&& final(self).active() + final(self).file.remaining() == (if old(
                    self,
                ).peek_rolled {
                    old(self).spare()
                } else {
                    Seq::<u8>::empty()
                }) + old(self).file.remaining()
            },
    {
        let ghost held = (if self.peek_rolled {
            self.spare()
        } else {
            Seq::<u8>::empty()
        }) + self.file.remaining();
        assert(self.remaining() =~= held);
        let loaded: usize = self.load_block()?;
        if loaded == 0 {
            return Err(EPubError::TruncatedRead);
        }
        self.block_idx = 1 - self.block_idx;
        self.cursor = 0;
        assert(self.remaining() =~= held);
        Ok(())
    }

    /// Fills `arr` with the next bytes, and returns how often the buffers
    /// changed roles on the way: not at all, once, or more often.
    fn fill(&mut self, arr: &mut Vec<u8>) -> (r: Result<usize, EPubError>)
        requires
            old(self).wf(),
        ensures
            final(arr)@.len() == old(arr)@.len(),
            final(self).faulty() == old(self).faulty(),
            r is Ok <==> old(arr)@.len() <= old(self).remaining().len(),
            r matches Err(e) ==> e == short_read_error(old(self).faulty()),
            r matches Ok(rolls) ==> {
                &&& final(self).wf()
                &&& final(arr)@ == old(self).remaining().take(old(arr)@.len() as int)
                &&& final(self).remaining() == old(self).remaining().skip(old(arr)@.len() as int)
                &&& rolls == 0 ==> {
                    &&& final(self).first@ == old(self).first@
                    &&& final(self).second@ == old(self).second@
                    &&& final(self).block_idx == old(self).block_idx
                    &&& final(self).peek_rolled == old(self).peek_rolled
                    &&& final(self).file.remaining() == old(self).file.remaining()
                    &&& final(self).cursor == old(self).cursor + old(arr)@.len()
                }
                &&& rolls == 1 ==> {
                    &&& final(self).block_idx == 1 - old(self).block_idx
                    &&& final(self).spare() == old(self).active()
                    &&& !final(self).peek_rolled
                    &&& final(self).cursor + old(self).active().len() - old(self).cursor == old(
                        arr,
                    )@.len()
                    &&& final(self).active() + final(self).file.remaining() == (if old(
                        self,
                    ).peek_rolled {
                        old(self).spare()
                    } else {
                        Seq::<u8>::empty()
                    }) + old(self).file.remaining()
                }
                &&& rolls >= 1 ==> old(self).active().len() - old(self).cursor < old(arr)@.len()
                &&& rolls >= 2 ==> old(arr)@.len() >= BLOCK_SIZE
            },
    {
        let nbytes: usize = arr.len();
        let mut arr_idx: usize = 0;
        let mut rolls: usize = 0;
        while arr_idx < nbytes
            invariant
                self.wf(),
                self.faulty() == old(self).faulty(),
                arr_idx <= nbytes,
                arr@.len() == nbytes,
                nbytes == old(arr)@.len(),
                arr_idx <= old(self).remaining().len(),
                arr@.take(arr_idx as int) == old(self).remaining().take(arr_idx as int),
                self.remaining() == old(self).remaining().skip(arr_idx as int),
                rolls <= 2,
                rolls == 0 ==> {
                    &&& self.first@ == old(self).first@
                    &&& self.second@ == old(self).second@
                    &&& self.block_idx == old(self).block_idx
                    &&& self.peek_rolled == old(self).peek_rolled
                    &&& self.file.remaining() == old(self).file.remaining()
                    &&& self.cursor == old(self).cursor + arr_idx
                },
                rolls >= 1 ==> !self.peek_rolled && self.cursor <= arr_idx,
                rolls >= 1 ==> old(self).active().len() - old(self).cursor < nbytes,
                rolls == 1 ==> {
                    &&& self.block_idx == 1 - old(self).block_idx
                    &&& self.spare() == old(self).active()
                    &&& self.cursor + old(self).active().len() - old(self).cursor == arr_idx
                    &&& self.active() + self.file.remaining() == (if old(self).peek_rolled {
                        old(self).spare()
                    } else {
                        Seq::<u8>::empty()
                    }) + old(self).file.remaining()
                },
                rolls >= 2 ==> arr_idx >= BLOCK_SIZE,
            decreases nbytes - arr_idx, (if self.cursor < self.active().len() { 0int } else { 1int }),
        {
            let block_len: usize = self.active_len();
            if self.cursor < block_len {
                // what is wanted lies in the active buffer, or starts there
                let avail: usize = block_len - self.cursor;
                let want: usize = nbytes - arr_idx;
                let n: usize = if avail < want { avail } else { want };
                let ghost all = old(self).remaining();
                let ghost filled = arr@;
                self.take_active(arr, arr_idx, n);
                proof {
                    assert(all.skip(arr_idx as int).skip(n as int) =~= all.skip(arr_idx + n));
                    assert(arr@.take(arr_idx + n) =~= filled.take(arr_idx as int) + all.skip(
                        arr_idx as int,
                    ).take(n as int));
                    assert(all.take(arr_idx + n) =~= all.take(arr_idx as int) + all.skip(
                        arr_idx as int,
                    ).take(n as int));
                }
                arr_idx = arr_idx + n;
            } else {
                // the active buffer is used up: bring the next block in and change over
                self.roll()?;
                if rolls < 2 {
                    rolls = rolls + 1;
                }
            }
        }
        assert(arr@ =~= arr@.take(nbytes as int));
        Ok(rolls)
    }

    /// Reads as many bytes as `arr` holds into it, across any number of
    /// blocks, and returns their count.
    ///
    /// This succeeds exactly where the reader has that many bytes left.
    pub fn read_to_array(&mut self, arr: &mut Vec<u8>) -> (r: Result<usize, EPubError>)
        requires
            old(self).wf(),
        ensures
            final(arr)@.len() == old(arr)@.len(),
            final(self).faulty() == old(self).faulty(),
            match read_model(old(self).remaining(), old(arr)@.len()) {
                Some((bytes, left)) => r == Ok::<usize, EPubError>(old(arr)@.len() as usize)
                    && final(self).wf() && final(arr)@ == bytes && final(self).remaining()
                    == left,
                None => r == Err::<usize, EPubError>(short_read_error(old(self).faulty())),
            },
    {
        let _ = self.fill(arr)?;
        Ok(arr.len())
    }

    /// Reads the next byte.
    pub fn read1(&mut self) -> (r: Result<u8, EPubError>)
        requires
            old(self).wf(),
        ensures
            final(self).faulty() == old(self).faulty(),
            r is Ok <==> old(self).remaining().len() >= 1,
            r matches Err(e) ==> e == short_read_error(old(self).faulty()),
            r matches Ok(value) ==> {
                &&& final(self).wf()
                &&& value == old(self).remaining()[0]
                &&& final(self).remaining() == old(self).remaining().skip(1)
            },
    {
        let mut arr: Vec<u8> = vec![0u8; 1];
        let _ = self.read_to_array(&mut arr)?;
        Ok(arr[0])
    }

    /// Reads the next two bytes as a number, least significant byte first.
    pub fn read2(&mut self) -> (r: Result<u16, EPubError>)
        requires
            old(self).wf(),
        ensures
            final(self).faulty() == old(self).faulty(),
            r is Ok <==> old(self).remaining().len() >= 2,
            r matches Err(e) ==> e == short_read_error(old(self).faulty()),
            r matches Ok(value) ==> {
                &&& final(self).wf()
                &&& value == le_u16(old(self).remaining())
                &&& final(self).remaining() == old(self).remaining().skip(2)
            },
    {
        let mut arr: Vec<u8> = vec![0u8; 2];
        let _ = self.read_to_array(&mut arr)?;
        Ok(read_le_u16(arr.as_slice()))
    }

    /// Reads the next four bytes as a number, least significant byte first.
    pub fn read4(&mut self) -> (r: Result<u32, EPubError>)
        requires
            old(self).wf(),
        ensures
            final(self).faulty() == old(self).faulty(),
            match read4_model(old(self).remaining()) {
                Some((value, left)) => r == Ok::<u32, EPubError>(value) && final(self).wf()
                    && final(self).remaining() == left,
                None => r == Err::<u32, EPubError>(short_read_error(old(self).faulty())),
            },
    {
        let mut arr: Vec<u8> = vec![0u8; 4];
        let _ = self.read_to_array(&mut arr)?;
        Ok(read_le_u32(arr.as_slice()))
    }

    /// Looks at the next four bytes as a number, least significant byte
    /// first, and hands nothing out: what the reader has left stays as it is.
    ///
    /// Where the four bytes run into the next block, that block stays in
    /// the spare buffer, and the read that follows finds it there.
    pub fn peek4(&mut self) -> (r: Result<u32, EPubError>)
        requires
            old(self).wf(),
        ensures
            final(self).faulty() == old(self).faulty(),
            match peek4_model(old(self).remaining()) {
                Some((value, left)) => r == Ok::<u32, EPubError>(value) && final(self).wf()
                    && final(self).remaining() == left,
                None => r == Err::<u32, EPubError>(short_read_error(old(self).faulty())),
            },
    {
        let cur: usize = self.cursor;
        let idx: usize = self.block_idx;
        let mut arr: Vec<u8> = vec![0u8; 4];
        let rolls: usize = self.fill(&mut arr)?;
        let peekee: u32 = read_le_u32(arr.as_slice());
        // restore the previous state
        self.cursor = cur;
        let ghost read = *self;
        if rolls != 0 {
            self.block_idx = idx;
            self.peek_rolled = true;
        }
        proof {
            if rolls != 0 {
                let held = if old(self).peek_rolled {
                    old(self).spare()
                } else {
                    Seq::<u8>::empty()
                };
                assert(rolls == 1);
                assert(read.cursor >= 1);
                assert(self.active() == old(self).active());
                assert(self.spare() == read.active());
                assert(self.file.remaining() == read.file.remaining());
                assert(read.active() + read.file.remaining() == held + old(self).file.remaining());
                assert(self.remaining() =~= old(self).active().skip(cur as int) + (read.active()
                    + read.file.remaining()));
                assert(old(self).remaining() =~= old(self).active().skip(cur as int) + (held + old(
                    self,
                ).file.remaining()));
                if old(self).active().len() < BLOCK_SIZE {
                    assert((read.active() + read.file.remaining()).len() == 0);
                }
            } else {
                assert(self.remaining() =~= old(self).remaining());
            }
        }
        Ok(peekee)
    }

    /// Reads the next `n` bytes into a new vector.
    ///
    /// A count above [`MAX_FIELD_LEN`] is refused before anything is read
    /// or allocated.
    pub fn read_bytes(&mut self, n: usize) -> (r: Result<Vec<u8>, EPubError>)
        requires
            old(self).wf(),
        ensures
            final(self).faulty() == old(self).faulty(),
            r is Ok <==> n <= MAX_FIELD_LEN && n <= old(self).remaining().len(),
            r matches Err(e) ==> e == (if n > MAX_FIELD_LEN {
                EPubError::TruncatedRead
            } else {
                short_read_error(old(self).faulty())
            }),
            n > MAX_FIELD_LEN ==> *final(self) == *old(self),
            r matches Ok(bytes) ==> {
                &&& final(self).wf()
                &&& bytes@ == old(self).remaining().take(n as int)
                &&& final(self).remaining() == old(self).remaining().skip(n as int)
            },
    {
        if n > MAX_FIELD_LEN {
            return Err(EPubError::TruncatedRead);
        }
        let mut bytes: Vec<u8> = vec![0u8; n];
        let _ = self.read_to_array(&mut bytes)?;
        Ok(bytes)
    }

    /// Reads all that is left as text, line by line.
    ///
    /// The lines are those of [`split_lines`], each decoded as UTF-8. This
    /// succeeds exactly where the medium is sound and every line is valid
    /// UTF-8, and leaves nothing behind.
    pub fn read_lines(&mut self) -> (r: Result<Vec<String>, EPubError>)
        requires
            old(self).wf(),
        ensures
            final(self).faulty() == old(self).faulty(),
            r is Ok <==> !old(self).faulty() && forall|i: int|
                0 <= i < split_lines(old(self).remaining()).len() ==> vstd::utf8::valid_utf8(
                    #[trigger] split_lines(old(self).remaining())[i],
                ),
            r matches Err(e) ==> e == lines_error(
                split_lines(old(self).remaining()),
                old(self).faulty(),
            ),
            r matches Ok(lines) ==> {
                &&& final(self).wf()
                &&& final(self).remaining().len() == 0
                &&& lines@.len() == split_lines(old(self).remaining()).len()
                &&& forall|i: int|
                    0 <= i < lines@.len() ==> (#[trigger] lines@[i])@ == vstd::utf8::decode_utf8(
                        split_lines(old(self).remaining())[i],
                    )
            },
    {
        let ghost all = self.remaining();
        let ghost mut done: Seq<u8> = Seq::empty();
        let mut lines: Vec<String> = Vec::new();
        let mut ln: Vec<u8> = Vec::new();
        proof {
            assert(all =~= done + ln@ + self.remaining());
        }
        loop
            invariant_except_break
                self.wf(),
                all == done + ln@ + self.remaining(),
            invariant
                self.file.wf(),
                self.block_idx < 2,
                self.faulty() == old(self).faulty(),
                all == old(self).remaining(),
                done.len() == 0 || done.last() == LINE_FEED,
                forall|k: int| 0 <= k < ln@.len() ==> ln@[k] != LINE_FEED,
                lines@.len() == split_lines(done).len(),
                forall|i: int|
                    0 <= i < lines@.len() ==> vstd::utf8::valid_utf8(
                        #[trigger] split_lines(done)[i],
                    ) && lines@[i]@ == vstd::utf8::decode_utf8(split_lines(done)[i]),
            ensures
                all == done + ln@,
                !self.faulty(),
                self.wf(),
                self.remaining().len() == 0,
            decreases
                    self.file.remaining().len() + (if self.peek_rolled {
                        1int
                    } else {
                        0int
                    }),
        {
            let n: usize = self.active_len();
            let ghost held = (if self.peek_rolled {
                self.spare()
            } else {
                Seq::<u8>::empty()
            }) + self.file.remaining();
            let mut i: usize = self.cursor;
            proof {
                assert(self.remaining() =~= self.active().subrange(i as int, n as int) + held);
            }
            while i < n
                invariant
                    self.block_idx < 2,
                    i <= n,
                    n == self.active().len(),
                    self.faulty() == old(self).faulty(),
                    all == old(self).remaining(),
                    done.len() == 0 || done.last() == LINE_FEED,
                    forall|k: int| 0 <= k < ln@.len() ==> ln@[k] != LINE_FEED,
                    lines@.len() == split_lines(done).len(),
                    forall|i: int|
                        0 <= i < lines@.len() ==> vstd::utf8::valid_utf8(
                            #[trigger] split_lines(done)[i],
                        ) && lines@[i]@ == vstd::utf8::decode_utf8(split_lines(done)[i]),
                    all == done + ln@ + (self.active().subrange(i as int, n as int) + held),
                decreases n - i,
            {
                let b: u8 = self.active_byte(i);
                let ghost rest = self.active().subrange(i + 1, n as int) + held;
                let ghost open = ln@;
                ln.push(b);
                proof {
                    assert(self.active().subrange(i as int, n as int) + held =~= seq![b] + rest);
                    assert(all =~= done + ln@ + rest);
                }
                if b == LINE_FEED {
                    let ghost line = ln@;
                    proof {
                        lemma_single_line(line);
                        lemma_split_lines_concat(done, line);
                        assert((done + line).last() == LINE_FEED);
                        lemma_split_lines_concat(done + line, rest);
                        assert(split_lines(all) == split_lines(done) + seq![line] + split_lines(
                            rest,
                        ));
                        assert(split_lines(all)[split_lines(done).len() as int] == line);
                    }
                    let text: String = match string_from_utf8(ln) {
                        Some(text) => text,
                        None => {
                            return Err(EPubError::UTF8);
                        },
                    };
                    lines.push(text);
                    ln = Vec::new();
                    proof {
                        let before = split_lines(done);
                        done = done + line;
                        assert(split_lines(done) == before + seq![line]);
                        assert(all =~= done + ln@ + rest);
                        assert forall|i: int| 0 <= i < lines@.len() implies vstd::utf8::valid_utf8(
                            #[trigger] split_lines(done)[i],
                        ) && lines@[i]@ == vstd::utf8::decode_utf8(split_lines(done)[i]) by {
                            if i < before.len() {
                                assert(split_lines(done)[i] == before[i]);
                            }
                        }
                    }
                }
                i += 1;
            }
            self.cursor = n;
            proof {
                assert(self.active().subrange(n as int, n as int) + held =~= held);
                assert(self.remaining() =~= held);
                lemma_split_lines_concat(done, ln@ + held);
                assert(done + (ln@ + held) =~= all);
            }
            let loaded: usize = match self.load_block() {
                Ok(loaded) => loaded,
                Err(e) => {
                    proof {
                        assert(held =~= Seq::<u8>::empty());
                        assert(ln@ + held =~= ln@);
                        if ln@.len() > 0 {
                            lemma_single_line(ln@);
                        } else {
                            assert(split_lines(ln@) =~= Seq::<Seq<u8>>::empty());
                        }
                        let sp = split_lines(all);
                        assert forall|i: int|
                            0 <= i < sp.len() && (#[trigger] sp[i]).len() > 0 && sp[i].last()
                                == LINE_FEED implies vstd::utf8::valid_utf8(sp[i]) by {
                            if i < split_lines(done).len() {
                                assert(sp[i] == split_lines(done)[i]);
                            } else {
                                assert(sp[i] == ln@);
                            }
                        }
                    }
                    return Err(e);
                },
            };
            if loaded == 0 {
                proof {
                    assert(held =~= Seq::<u8>::empty());
                    assert(all =~= done + ln@);
                }
                break ;
            }
            self.block_idx = 1 - self.block_idx;
            self.cursor = 0;
            proof {
                assert(self.remaining() =~= held);
                assert(all =~= done + ln@ + self.remaining());
            }
        }
        proof {
            lemma_split_lines_concat(done, ln@);
            if ln@.len() > 0 {
                lemma_single_line(ln@);
            } else {
                assert(split_lines(ln@) =~= Seq::<Seq<u8>>::empty());
            }
        }
        if ln.len() > 0 {
            let ghost line = ln@;
            let text: String = match string_from_utf8(ln) {
                Some(text) => text,
                None => {
                    proof {
                        assert(split_lines(all)[split_lines(done).len() as int] == line);
                    }
                    return Err(EPubError::UTF8);
                },
            };
            lines.push(text);
            proof {
                let sp = split_lines(all);
                assert forall|i: int| 0 <= i < sp.len() implies vstd::utf8::valid_utf8(
                    #[trigger] sp[i],
                ) && lines@[i]@ == vstd::utf8::decode_utf8(sp[i]) by {
                    if i < split_lines(done).len() {
                        assert(sp[i] == split_lines(done)[i]);
                    } else {
                        assert(sp[i] == line);
                    }
                }
            }
        } else {
            proof {
                assert(split_lines(all) =~= split_lines(done));
            }
        }
        Ok(lines)
    }
}

/// Pushes the bytes of `bytes` to the end of `v`.
pub(crate) fn append_bytes(v: &mut Vec<u8>, bytes: &[u8])
    ensures
        final(v)@ == old(v)@ + bytes@,
{
    let mut i: usize = 0;
    assert(v@ =~= old(v)@ + bytes@.take(0));
    while i < bytes.len()
        invariant
            i <= bytes@.len(),
            v@ == old(v)@ + bytes@.take(i as int),
        decreases bytes@.len() - i,
    {
        v.push(bytes[i]);
        i += 1;
        assert(v@ =~= old(v)@ + bytes@.take(i as int));
    }
    assert(bytes@.take(i as int) =~= bytes@);
}

} // verus!
