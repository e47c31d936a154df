//! The archive inside an EPUB file: the walk through its entries, and
//! their expansion.
//!
//! An archive is expanded into a roster: the directories and files that
//! it holds, each with its path and its bytes, in the order of the
//! archive. To create them on a volume is the caller's part.
use vstd::prelude::*;
use crate::crc::{crc32, crc32_of};
use crate::error::EPubError;
use crate::inflate::inflate_outcome;
use crate::header::{
    lemma_parsed_len, parse_data_descriptor, parse_header, reports_fault, HeaderFault,
    LocalFileHeaderView, CENTRAL_DIR_FILE_HEADER, DATA_DESCRIPTOR_FLAG, DATA_DESCRIPTOR_LEN,
    LOCAL_FILE_HEADER_SIGNATURE, METHOD_DEFLATE, METHOD_STORE, PATH_SEPARATOR,
};
use crate::io::{
    append_bytes, le_u32, lines_error, short_read_error, split_lines, BufReader, InputFile,
    OutputFile,
};
use crate::package::tag_views;
use crate::sax::{
    event_views, file_events, is_text_file, read_document, same_text, StartTag, StartTagView,
    XmlEvent, XmlEventView,
};

pub use crate::header::{DataDescriptor, ExtraHeader, LocalFileHeader};

verus! {

/// The longest path of an expanded entry, in bytes.
pub const MAX_PATH_LEN: usize = 256;

/// The largest number of files and directories that one archive may hold.
pub const MAX_ENTRIES: usize = 1024;

/// The byte of a dot in a file name.
pub const DOT_BYTE: u8 = 0x2e;

/// The byte that ends a line of the list of expanded files.
pub const LIST_LINE_END: u8 = 0x0a;

/// What an entry of the archive becomes on disk.
#[derive(Debug, Clone, Copy, PartialEq, Eq, Structural)]
pub enum EntryKind {
    Directory,
    File,
}

/// One expanded entry: where it goes, what it is, and what it holds.
#[derive(Debug)]
pub struct Entry {
    /// the path under which the entry is to be created
    pub path: String,
    pub kind: EntryKind,
    /// the bytes of a file; nothing for a directory
    pub data: Vec<u8>,
    /// the data descriptor that followed the payload, where there was one
    pub data_descriptor: Option<DataDescriptor>,
}

/// What an [`Entry`] holds.
pub struct EntryView {
    pub path: Seq<char>,
    pub kind: EntryKind,
    pub data: Seq<u8>,
    pub data_descriptor: Option<DataDescriptor>,
}

impl View for Entry {
    type V = EntryView;

    open spec fn view(&self) -> EntryView {
        EntryView {
            path: self.path@,
            kind: self.kind,
            data: self.data@,
            data_descriptor: self.data_descriptor,
        }
    }
}

/// What a sequence of entries holds.
pub open spec fn entry_views(entries: Seq<Entry>) -> Seq<EntryView> {
    entries.map_values(|entry: Entry| entry@)
}

/// Whether a name leads out of the directory that it is expanded into: it
/// starts with the path separator or holds two dots in a row.
pub open spec fn unsafe_name(name: Seq<u8>) -> bool {
    ||| name.len() > 0 && name[0] == PATH_SEPARATOR
    ||| exists|i: int| 0 <= i < name.len() - 1 && name[i] == DOT_BYTE && #[trigger] name[i + 1] == DOT_BYTE
}

/// Why the walk through an archive stops before the central directory.
pub enum WalkFault {
    /// The bytes end inside an entry or before the central directory.
    Short,
    /// A local file header is faulty.
    Header(HeaderFault),
    /// Neither a local file header nor the central directory starts here.
    UnknownSignature,
    /// A header asks for what is not supported.
    Unsupported,
    /// A name leads out of the directory that the archive is expanded into.
    UnsafeName,
    /// The path of an entry is too long.
    PathTooLong,
    /// The archive holds too many entries.
    TooManyEntries,
    /// A stored entry declares two different sizes.
    StoredSizes,
    /// A data descriptor gives other sizes than the header.
    DescriptorSizes,
    /// A deflated payload is not inflated: the error says why.
    Inflate(EPubError),
    /// The data of a deflated entry does not have the checksum that the
    /// archive gives for it.
    Checksum,
}

/// Whether `e` is the error that reports `fault`.
pub open spec fn reports_walk_fault(e: EPubError, fault: WalkFault, faulty: bool) -> bool {
    match fault {
        WalkFault::Short => e == short_read_error(faulty),
        WalkFault::Header(fault) => reports_fault(e, fault, faulty),
        WalkFault::UnknownSignature => e is FormatError,
        WalkFault::Unsupported => e == EPubError::Unimplemented,
        WalkFault::UnsafeName => e is FormatError,
        WalkFault::PathTooLong => e == EPubError::PathTooLong,
        WalkFault::TooManyEntries => e == EPubError::TooManyEntries,
        WalkFault::StoredSizes => e is FormatError,
        WalkFault::DescriptorSizes => e is FormatError,
        WalkFault::Inflate(error) => e == error,
        WalkFault::Checksum => e is FormatError,
    }
}

/// What becomes of the entry that a header describes.
#[derive(Debug, Clone, Copy, PartialEq, Eq, Structural)]
pub enum EntryClass {
    /// a file is created and filled from the payload
    File,
    /// a directory is created
    Directory,
    /// nothing is created, and no payload follows
    Skipped,
}

/// The path of the entry `name` under the directory `dest`.
pub open spec fn entry_path(dest: Seq<char>, name: Seq<char>) -> Seq<char> {
    dest + seq!['/'] + name
}

/// The path of the directory entry `name` under the directory `dest`: the
/// name of a directory ends in the separator, the path does not.
pub open spec fn directory_path(dest: Seq<char>, name: Seq<char>) -> Seq<char> {
    entry_path(dest, name.drop_last())
}

/// What becomes of the entry with the header `header`, as entry number
/// `count` of an archive that is expanded into `dest`.
///
/// The flag may be zero or announce a data descriptor, and nothing else.
/// The method is store or deflate. The name must not lead out of `dest`.
/// A file has both sizes above zero, a directory has both at zero and a
/// name that ends in the separator; what is neither is skipped, unless a
/// data descriptor is announced: then the sizes are not known, and the
/// payload cannot be passed over.
pub open spec fn header_class(dest: Seq<char>, header: LocalFileHeaderView, count: nat) -> Result<
    EntryClass,
    WalkFault,
> {
    if header.general_purpose_flag != 0 && header.general_purpose_flag != DATA_DESCRIPTOR_FLAG {
        Err(WalkFault::Unsupported)
    } else if header.compression_method != METHOD_STORE && header.compression_method
        != METHOD_DEFLATE {
        Err(WalkFault::Unsupported)
    } else if unsafe_name(header.name_bytes()) {
        Err(WalkFault::UnsafeName)
    } else if !header.is_file() && !header.is_dir() {
        if header.have_data_descriptor() {
            Err(WalkFault::Unsupported)
        } else {
            Ok(EntryClass::Skipped)
        }
    } else if vstd::utf8::encode_utf8(dest).len() + 1 + header.name_bytes().len() > MAX_PATH_LEN {
        Err(WalkFault::PathTooLong)
    } else if count >= MAX_ENTRIES {
        Err(WalkFault::TooManyEntries)
    } else if header.is_file() {
        if header.compression_method == METHOD_STORE && header.compressed_size
            != header.uncompressed_size {
            Err(WalkFault::StoredSizes)
        } else {
            Ok(EntryClass::File)
        }
    } else {
        Ok(EntryClass::Directory)
    }
}

/// The checksum that the archive gives for the data of an entry: that of
/// the data descriptor where there is one, that of the header else.
pub open spec fn expected_crc(header: LocalFileHeaderView, descriptor: Option<DataDescriptor>)
    -> u32 {
    match descriptor {
        Some(descriptor) => descriptor.crc32,
        None => header.crc32,
    }
}

/// The data descriptor behind the payload of an entry, where its header
/// announces one.
pub open spec fn descriptor_behind(header: LocalFileHeaderView, body: Seq<u8>) -> Option<
    DataDescriptor,
> {
    if header.have_data_descriptor() {
        Some(parse_data_descriptor(body.skip(header.compressed_size as int)))
    } else {
        None
    }
}

/// The number of bytes that the data descriptor of an entry takes.
pub open spec fn descriptor_len(header: LocalFileHeaderView) -> int {
    if header.have_data_descriptor() {
        DATA_DESCRIPTOR_LEN as int
    } else {
        0
    }
}

/// What is wrong with the data of a file, if anything: a data descriptor
/// must give the sizes that the header gives, and what was inflated must
/// have the checksum that the archive gives for it. A stored payload is
/// taken as it is, whatever checksum the archive gives for it.
pub open spec fn payload_fault(
    header: LocalFileHeaderView,
    data: Seq<u8>,
    descriptor: Option<DataDescriptor>,
) -> Option<WalkFault> {
    if descriptor matches Some(d) && (d.compressed_size != header.compressed_size
        || d.uncompressed_size != header.uncompressed_size) {
        Some(WalkFault::DescriptorSizes)
    } else if header.compression_method == METHOD_DEFLATE && crc32_of(data) != expected_crc(
        header,
        descriptor,
    ) {
        Some(WalkFault::Checksum)
    } else {
        None
    }
}

/// The bytes of the file whose header is `header` and whose payload
/// starts `body`, on a medium that is `faulty` or not.
///
/// A deflated payload is inflated, and the bytes are what that writes; a
/// stored payload is the bytes, and must be all there. Behind the payload
/// the data descriptor must be all there, where one is announced, and
/// nothing must be wrong with the data.
pub open spec fn file_data(header: LocalFileHeaderView, body: Seq<u8>, faulty: bool) -> Result<
    Seq<u8>,
    WalkFault,
> {
    let size = header.compressed_size as int;
    let inflated = inflate_outcome(
        body,
        header.compressed_size,
        header.uncompressed_size,
        faulty,
    );
    let data = if header.compression_method == METHOD_DEFLATE {
        inflated.written
    } else {
        body.take(size)
    };
    if header.compression_method == METHOD_DEFLATE && inflated.result is Err {
        Err(WalkFault::Inflate(inflated.result->Err_0))
    } else if body.len() < size + descriptor_len(header) {
        Err(WalkFault::Short)
    } else {
        match payload_fault(header, data, descriptor_behind(header, body)) {
            Some(fault) => Err(fault),
            None => Ok(data),
        }
    }
}

/// An entry as the archive describes it.
pub struct PlannedEntry {
    /// the path under which the entry is to be created
    pub path: Seq<char>,
    /// the bytes of the entry's name
    pub name: Seq<u8>,
    pub kind: EntryKind,
    /// the bytes of a file; nothing for a directory
    pub data: Seq<u8>,
    pub data_descriptor: Option<DataDescriptor>,
}

/// One step of the walk through an archive.
pub enum Step {
    /// the central directory starts here
    End,
    /// the walk stops here
    Fail(WalkFault),
    /// an entry ends `next` bytes further on; `planned` is what it
    /// becomes, unless it is skipped
    Entry { planned: Option<PlannedEntry>, next: int },
}

/// The step that the walk takes at the start of `bytes`, as entry number
/// `count` of an archive that is expanded into `dest`, on a medium that
/// is `faulty` or not.
#[verifier::opaque]
pub open spec fn archive_step(dest: Seq<char>, bytes: Seq<u8>, count: nat, faulty: bool) -> Step {
    if bytes.len() < 4 {
        Step::Fail(WalkFault::Short)
    } else if le_u32(bytes) == CENTRAL_DIR_FILE_HEADER {
        Step::End
    } else if le_u32(bytes) != LOCAL_FILE_HEADER_SIGNATURE {
        Step::Fail(WalkFault::UnknownSignature)
    } else {
        match parse_header(bytes) {
            Err(fault) => Step::Fail(WalkFault::Header(fault)),
            Ok(parsed) => {
                let header = parsed.header;
                let body = bytes.skip(parsed.len);
                match header_class(dest, header, count) {
                    Err(fault) => Step::Fail(fault),
                    Ok(EntryClass::Skipped) => Step::Entry { planned: None, next: parsed.len },
                    Ok(EntryClass::File) => match file_data(header, body, faulty) {
                        Err(fault) => Step::Fail(fault),
                        Ok(data) => Step::Entry {
                            planned: Some(
                                PlannedEntry {
                                    path: entry_path(dest, header.file_name),
                                    name: header.name_bytes(),
                                    kind: EntryKind::File,
                                    data,
                                    data_descriptor: descriptor_behind(header, body),
                                },
                            ),
                            next: parsed.len + header.compressed_size + descriptor_len(header),
                        },
                    },
                    Ok(EntryClass::Directory) => if body.len() < descriptor_len(header) {
                        Step::Fail(WalkFault::Short)
                    } else {
                        Step::Entry {
                            planned: Some(
                                PlannedEntry {
                                    path: directory_path(dest, header.file_name),
                                    name: header.name_bytes(),
                                    kind: EntryKind::Directory,
                                    data: Seq::empty(),
                                    data_descriptor: descriptor_behind(header, body),
                                },
                            ),
                            next: parsed.len + descriptor_len(header),
                        }
                    },
                }
            },
        }
    }
}

/// What a walk through an archive finds: the entries in their order, and
/// why the walk stopped, unless it reached the central directory.
pub struct Plan {
    pub entries: Seq<PlannedEntry>,
    pub fault: Option<WalkFault>,
}

/// `rest` with the entries `done` before what it holds.
pub open spec fn after_entries(done: Seq<PlannedEntry>, rest: Plan) -> Plan {
    Plan { entries: done + rest.entries, fault: rest.fault }
}

/// The walk through the archive `bytes` from entry number `count` on: step
/// by step up to the central directory or to the first fault. Every step
/// that finds an entry moves on ([`lemma_step_moves`]).
pub open spec fn archive_plan(dest: Seq<char>, bytes: Seq<u8>, count: nat, faulty: bool) -> Plan
    decreases bytes.len(),
{
    match archive_step(dest, bytes, count, faulty) {
        Step::End => Plan { entries: Seq::empty(), fault: None },
        Step::Fail(fault) => Plan { entries: Seq::empty(), fault: Some(fault) },
        Step::Entry { planned, next } => {
            // a step always moves on, by a header at least
            if 0 < next <= bytes.len() {
                match planned {
                    Some(entry) => after_entries(
                        seq![entry],
                        archive_plan(dest, bytes.skip(next), count + 1, faulty),
                    ),
                    None => archive_plan(dest, bytes.skip(next), count, faulty),
                }
            } else {
                Plan { entries: Seq::empty(), fault: None }
            }
        },
    }
}

/// Where no local file header starts, the step is known from the first
/// four bytes.
pub proof fn lemma_step_without_header(dest: Seq<char>, bytes: Seq<u8>, count: nat, faulty: bool)
    requires
        bytes.len() < 4 || le_u32(bytes) != LOCAL_FILE_HEADER_SIGNATURE,
    ensures
        archive_step(dest, bytes, count, faulty) == (if bytes.len() < 4 {
            Step::Fail(WalkFault::Short)
        } else if le_u32(bytes) == CENTRAL_DIR_FILE_HEADER {
            Step::End
        } else {
            Step::Fail(WalkFault::UnknownSignature)
        }),
{
    reveal(archive_step);
}

/// A step that finds an entry moves on, and stays inside the bytes.
pub proof fn lemma_step_moves(dest: Seq<char>, bytes: Seq<u8>, count: nat, faulty: bool)
    requires
        archive_step(dest, bytes, count, faulty) is Entry,
    ensures
        0 < archive_step(dest, bytes, count, faulty)->Entry_next <= bytes.len(),
{
    reveal(archive_step);
    lemma_parsed_len(bytes);
}

/// The list of expanded files: the path of the archive, then the name of
/// every file among `entries`, each on a line of its own.
pub open spec fn file_list(archive: Seq<u8>, entries: Seq<PlannedEntry>) -> Seq<u8>
    decreases entries.len(),
{
    if entries.len() == 0 {
        archive.push(LIST_LINE_END)
    } else {
        let before = file_list(archive, entries.drop_last());
        if entries.last().kind == EntryKind::File {
            before + entries.last().name.push(LIST_LINE_END)
        } else {
            before
        }
    }
}

/// Whether the expanded entry `entry` is what the archive describes as
/// `planned`: at that path, of that kind, with those bytes and that data
/// descriptor.
pub open spec fn entry_matches(entry: EntryView, planned: PlannedEntry) -> bool {
    &&& entry.path == planned.path
    &&& entry.kind == planned.kind
    &&& entry.data == planned.data
    &&& entry.data_descriptor == planned.data_descriptor
}

/// Whether `entries` are, one by one, what the archive describes as `planned`.
pub open spec fn entries_match(entries: Seq<EntryView>, planned: Seq<PlannedEntry>) -> bool {
    &&& entries.len() == planned.len()
    &&& forall|i: int| 0 <= i < entries.len() ==> entry_matches(#[trigger] entries[i], planned[i])
}

/// Whether a name starts with the path separator or holds two dots in a row.
fn name_is_unsafe(name: &[u8]) -> (b: bool)
    ensures
        b == unsafe_name(name@),
{
    if name.len() > 0 && name[0] == PATH_SEPARATOR {
        return true;
    }
    let mut i: usize = 1;
    while i < name.len()
        invariant
            1 <= i,
            forall|k: int| 0 <= k < i - 1 && k < name@.len() - 1 ==> !(name@[k] == DOT_BYTE
                && #[trigger] name@[k + 1] == DOT_BYTE),
        decreases name@.len() - i,
    {
        if name[i - 1] == DOT_BYTE && name[i] == DOT_BYTE {
            assert(name@[(i - 1) + 1] == DOT_BYTE);
            return true;
        }
        i += 1;
    }
    false
}

/// represents an epub file container
///
/// this type is responsible for expanding the epub file and for passing
/// what it has expanded to other parts of the library
#[derive(Debug)]
pub struct Container {
    expanded_dir_path: String,
    entries: Vec<Entry>,
}

impl Container {
    /// The name of the file that lists what was expanded.
    pub const FILE_LIST_NAME: &'static str = "fentry.txt";

    /// The name of the file that names the package document.
    pub const EPUB_CONTAINER_FILE: &'static str = "META-INF/container.xml";

    /// The directory that the archive is expanded into.
    pub closed spec fn dir_path(&self) -> Seq<char> {
        self.expanded_dir_path@
    }

    /// What has been expanded, in the order of the archive.
    pub closed spec fn roster(&self) -> Seq<EntryView> {
        entry_views(self.entries@)
    }

    /// create new container rooted at given directory
    pub fn new(dir_path: &str) -> (container: Container)
        ensures
            container.dir_path() == dir_path@,
            container.roster() == Seq::<EntryView>::empty(),
    {
        let container = Container {
            expanded_dir_path: String::from_str(dir_path),
            entries: Vec::new(),
        };
        assert(container.roster() =~= Seq::<EntryView>::empty());
        container
    }

    /// The expanded entries, in the order of the archive.
    pub fn entries(&self) -> (entries: &Vec<Entry>)
        ensures
            entry_views(entries@) == self.roster(),
    {
        &self.entries
    }

    /// create a file path under the epub directory, with the given filename
    pub fn expanded_file_path(&self, fname: &str) -> (path: String)
        ensures
            path@ == entry_path(self.dir_path(), fname@),
    {
        let mut s: String = String::from_str(self.expanded_dir_path.as_str());
        s.append("/");
        s.append(fname);
        proof {
            reveal_strlit("/");
            assert("/"@ =~= seq!['/']);
        }
        s
    }

    /// Decides what becomes of the entry with the header `lfh`, as entry
    /// number `count`.
    fn classify(&self, lfh: &LocalFileHeader, count: usize) -> (r: Result<EntryClass, EPubError>)
        ensures
            match header_class(self.dir_path(), lfh@, count as nat) {
                Ok(class) => r == Ok::<EntryClass, EPubError>(class),
                Err(fault) => r matches Err(e) && reports_walk_fault(e, fault, false)
                    && reports_walk_fault(e, fault, true),
            },
    {
        if lfh.general_purpose_flag != 0 && lfh.general_purpose_flag != DATA_DESCRIPTOR_FLAG {
            return Err(EPubError::Unimplemented);
        }
        if lfh.compression_method != METHOD_STORE && lfh.compression_method != METHOD_DEFLATE {
            return Err(EPubError::Unimplemented);
        }
        let name = lfh.file_name.as_str().as_bytes();
        if name_is_unsafe(name) {
            return Err(EPubError::FormatError("entry name leads out of the directory"));
        }
        let is_file: bool = lfh.is_file();
        let is_dir: bool = lfh.is_dir();
        if !is_file && !is_dir {
            if lfh.have_data_descriptor() {
                return Err(EPubError::Unimplemented);
            }
            return Ok(EntryClass::Skipped);
        }
        let dest_len: usize = self.expanded_dir_path.as_str().as_bytes().len();
        if dest_len > MAX_PATH_LEN || name.len() > MAX_PATH_LEN || dest_len + 1 + name.len()
            > MAX_PATH_LEN {
            return Err(EPubError::PathTooLong);
        }
        if count >= MAX_ENTRIES {
            return Err(EPubError::TooManyEntries);
        }
        if is_file {
            if lfh.compression_method == METHOD_STORE && lfh.compressed_size
                != lfh.uncompressed_size {
                return Err(EPubError::FormatError("stored entry with two sizes"));
            }
            Ok(EntryClass::File)
        } else {
            Ok(EntryClass::Directory)
        }
    }

    /// The entry that lists what was expanded.
    pub open spec fn file_list_entry(dest: Seq<char>, archive: Seq<u8>, entries: Seq<PlannedEntry>)
        -> EntryView {
        EntryView {
            path: entry_path(dest, Container::FILE_LIST_NAME@),
            kind: EntryKind::File,
            data: file_list(archive, entries),
            data_descriptor: None,
        }
    }

    /// Reads the data descriptor behind a payload, where the header
    /// announces one, and attaches it to the header.
    fn read_descriptor(rdr: &mut BufReader, lfh: &mut LocalFileHeader) -> (r: Result<
        (),
        EPubError,
    >)
        requires
            old(rdr).wf(),
            old(lfh)@.data_descriptor is None,
        ensures
            final(rdr).faulty() == old(rdr).faulty(),
            r is Ok <==> !old(lfh)@.have_data_descriptor() || old(rdr).remaining().len()
                >= DATA_DESCRIPTOR_LEN,
            r matches Err(e) ==> e == short_read_error(old(rdr).faulty()),
            r is Ok ==> {
                &&& final(rdr).wf()
                &&& final(lfh)@ == (LocalFileHeaderView {
                    data_descriptor: final(lfh)@.data_descriptor,
                    ..old(lfh)@
                })
                &&& if old(lfh)@.have_data_descriptor() {
                    &&& final(lfh)@.data_descriptor == Some(
                        parse_data_descriptor(old(rdr).remaining()),
                    )
                    &&& final(rdr).remaining() == old(rdr).remaining().skip(
                        DATA_DESCRIPTOR_LEN as int,
                    )
                } else {
                    &&& final(lfh)@.data_descriptor is None
                    &&& final(rdr).remaining() == old(rdr).remaining()
                }
            },
    {
        if lfh.have_data_descriptor() {
            let dd: DataDescriptor = DataDescriptor::read(rdr)?;
            lfh.data_descriptor = Some(dd);
        }
        Ok(())
    }

    /// Creates the file that `lfh` describes from the payload that follows.
    fn expand_file(
        &mut self,
        rdr: &mut BufReader,
        lfh: LocalFileHeader,
        listing: &mut Vec<u8>,
    ) -> (r: Result<(), EPubError>)
        requires
            old(rdr).wf(),
            lfh@.data_descriptor is None,
            lfh@.is_file(),
            lfh.compression_method == METHOD_STORE || lfh.compression_method == METHOD_DEFLATE,
            lfh.compression_method == METHOD_STORE ==> lfh.compressed_size
                == lfh.uncompressed_size,
        ensures
            final(self).expanded_dir_path@ == old(self).expanded_dir_path@,
            final(rdr).faulty() == old(rdr).faulty(),
            match file_data(lfh@, old(rdr).remaining(), old(rdr).faulty()) {
                Err(fault) => r matches Err(e) && reports_walk_fault(e, fault, old(rdr).faulty()),
                Ok(data) => {
                    let body = old(rdr).remaining();
                    let entry = final(self).entries@.last()@;
                    &&& r is Ok
                    &&& final(rdr).wf()
                    &&& body.len() >= lfh.compressed_size + descriptor_len(lfh@)
                    &&& final(rdr).remaining() == body.skip(
                        lfh.compressed_size + descriptor_len(lfh@),
                    )
                    &&& final(listing)@ == old(listing)@ + lfh@.name_bytes().push(LIST_LINE_END)
                    &&& final(self).entries@.len() == old(self).entries@.len() + 1
                    &&& entry_views(final(self).entries@).drop_last() == entry_views(
                        old(self).entries@,
                    )
                    &&& entry.path == entry_path(old(self).expanded_dir_path@, lfh@.file_name)
                    &&& entry.kind == EntryKind::File
                    &&& entry.data == data
                    &&& entry.data_descriptor == descriptor_behind(lfh@, body)
                },
            },
    {
        let ghost body = rdr.remaining();
        let ghost size = lfh.compressed_size as int;
        let mut lfh = lfh;
        let mut out: OutputFile = OutputFile::new();
        let ghost header = lfh@;
        if lfh.compression_method == METHOD_DEFLATE {
            let _ = lfh.inflate(rdr, &mut out)?;
            assert(out@ =~= inflate_outcome(
                body,
                lfh.compressed_size,
                lfh.uncompressed_size,
                rdr.faulty(),
            ).written);
        } else {
            let _ = lfh.copy_stored(rdr, &mut out)?;
            assert(out@ =~= body.take(size));
        }
        Self::read_descriptor(rdr, &mut lfh)?;
        proof {
            if lfh@.have_data_descriptor() {
                assert(body.skip(size).skip(DATA_DESCRIPTOR_LEN as int) =~= body.skip(
                    size + DATA_DESCRIPTOR_LEN,
                ));
            }
        }
        // what was inflated must be what the archive declares
        let declared: u32 = match lfh.data_descriptor {
            Some(dd) => {
                if dd.compressed_size != lfh.compressed_size || dd.uncompressed_size
                    != lfh.uncompressed_size {
                    return Err(EPubError::FormatError("data descriptor with other sizes"));
                }
                dd.crc32
            },
            None => lfh.crc32,
        };
        if lfh.compression_method == METHOD_DEFLATE && crc32(out.data().as_slice()) != declared {
            return Err(EPubError::FormatError("checksum of the data is not the declared one"));
        }
        // add the file entry
        append_bytes(listing, lfh.file_name.as_str().as_bytes());
        listing.push(LIST_LINE_END);
        assert(listing@ =~= old(listing)@ + lfh@.name_bytes().push(LIST_LINE_END));
        let path: String = self.expanded_file_path(lfh.file_name.as_str());
        let entry = Entry {
            path,
            kind: EntryKind::File,
            data: out.into_data(),
            data_descriptor: lfh.data_descriptor,
        };
        self.entries.push(entry);
        assert(entry_views(self.entries@).drop_last() =~= entry_views(old(self).entries@));
        Ok(())
    }

    /// Creates the directory that `lfh` describes.
    fn expand_dir(&mut self, rdr: &mut BufReader, lfh: LocalFileHeader) -> (r: Result<
        (),
        EPubError,
    >)
        requires
            old(rdr).wf(),
            lfh@.data_descriptor is None,
            lfh@.file_name.len() > 0,
        ensures
            final(self).expanded_dir_path@ == old(self).expanded_dir_path@,
            final(rdr).faulty() == old(rdr).faulty(),
            r is Ok <==> !lfh@.have_data_descriptor() || old(rdr).remaining().len()
                >= DATA_DESCRIPTOR_LEN,
            r matches Err(e) ==> e == short_read_error(old(rdr).faulty()),
            r is Ok ==> ({
                let body = old(rdr).remaining();
                let entry = final(self).entries@.last()@;
                &&& final(rdr).wf()
                &&& final(rdr).remaining() == (if lfh@.have_data_descriptor() {
                    body.skip(DATA_DESCRIPTOR_LEN as int)
                } else {
                    body
                })
                &&& final(self).entries@.len() == old(self).entries@.len() + 1
                &&& entry_views(final(self).entries@).drop_last() == entry_views(
                    old(self).entries@,
                )
                &&& entry.path == directory_path(old(self).expanded_dir_path@, lfh@.file_name)
                &&& entry.kind == EntryKind::Directory
                &&& entry.data.len() == 0
                &&& entry.data_descriptor == (if lfh@.have_data_descriptor() {
                    Some(parse_data_descriptor(body))
                } else {
                    None
                })
            }),
    {
        let mut lfh = lfh;
        Self::read_descriptor(rdr, &mut lfh)?;
        // the path of a directory goes without the separator at its end
        let name: &str = lfh.file_name.as_str();
        let len: usize = name.unicode_len();
        let path: String = self.expanded_file_path(name.substring_char(0, len - 1));
        assert(name@.subrange(0, len - 1) =~= name@.drop_last());
        let entry = Entry {
            path,
            kind: EntryKind::Directory,
            data: Vec::new(),
            data_descriptor: lfh.data_descriptor,
        };
        self.entries.push(entry);
        assert(entry_views(self.entries@).drop_last() =~= entry_views(old(self).entries@));
        Ok(())
    }

    /// Expands the entry whose header starts where the reader stands.
    fn expand_entry(&mut self, rdr: &mut BufReader, listing: &mut Vec<u8>) -> (r: Result<
        (),
        EPubError,
    >)
        requires
            old(rdr).wf(),
            old(rdr).remaining().len() >= 4,
            le_u32(old(rdr).remaining()) == LOCAL_FILE_HEADER_SIGNATURE,
        ensures
            final(self).expanded_dir_path@ == old(self).expanded_dir_path@,
            final(rdr).faulty() == old(rdr).faulty(),
            ({
                let dest = old(self).expanded_dir_path@;
                let count = old(self).entries@.len();
                let step = archive_step(dest, old(rdr).remaining(), count, old(rdr).faulty());
                match r {
                    Ok(()) => {
                        &&& step is Entry
                        &&& final(rdr).wf()
                        &&& 0 < step->Entry_next <= old(rdr).remaining().len()
                        &&& final(rdr).remaining() == old(rdr).remaining().skip(step->Entry_next)
                        &&& match step->Entry_planned {
                            Some(planned) => {
                                &&& final(self).entries@.len() == count + 1
                                &&& entry_views(final(self).entries@).drop_last() == entry_views(
                                    old(self).entries@,
                                )
                                &&& entry_matches(final(self).entries@.last()@, planned)
                                &&& final(listing)@ == old(listing)@ + (if planned.kind
                                    == EntryKind::File {
                                    planned.name.push(LIST_LINE_END)
                                } else {
                                    Seq::<u8>::empty()
                                })
                            },
                            None => {
                                &&& final(self).entries@ == old(self).entries@
                                &&& final(listing)@ == old(listing)@
                            },
                        }
                    },
                    Err(e) => step matches Step::Fail(fault) && reports_walk_fault(
                        e,
                        fault,
                        old(rdr).faulty(),
                    ),
                }
            }),
    {
        let ghost cur = rdr.remaining();
        proof {
            reveal(archive_step);
        }
        let lfh: LocalFileHeader = LocalFileHeader::read(rdr)?;
        proof {
            lemma_parsed_len(cur);
        }
        let ghost parsed = parse_header(cur)->Ok_0;
        let ghost body = cur.skip(parsed.len);
        let class: EntryClass = self.classify(&lfh, self.entries.len())?;
        match class {
            EntryClass::Skipped => {
                // neither a file nor a directory: nothing to create
                Ok(())
            },
            EntryClass::File => {
                let ghost size = lfh.compressed_size as int;
                let ghost tail = if lfh@.have_data_descriptor() {
                    DATA_DESCRIPTOR_LEN as int
                } else {
                    0
                };
                self.expand_file(rdr, lfh, listing)?;
                proof {
                    assert(body.skip(size + tail) =~= cur.skip(parsed.len + size + tail));
                    assert(listing@ =~= old(listing)@ + parsed.header.name_bytes().push(
                        LIST_LINE_END,
                    ));
                }
                Ok(())
            },
            EntryClass::Directory => {
                let ghost tail = if lfh@.have_data_descriptor() {
                    DATA_DESCRIPTOR_LEN as int
                } else {
                    0
                };
                assert(lfh@.file_name.len() > 0) by {
                    if lfh@.file_name.len() == 0 {
                        assert(lfh@.file_name =~= Seq::<char>::empty());
                        assert(vstd::utf8::encode_utf8(Seq::<char>::empty()).len() == 0);
                    }
                }
                self.expand_dir(rdr, lfh)?;
                proof {
                    assert(body.skip(0) =~= body);
                    assert(body.take(0) =~= Seq::<u8>::empty());
                    assert(body.skip(tail) =~= cur.skip(parsed.len + tail));
                    assert(listing@ =~= old(listing)@ + Seq::<u8>::empty());
                    assert(self.entries@.last()@.data =~= Seq::<u8>::empty());
                }
                Ok(())
            },
        }
    }

    /// expand the epub file into the directory
    ///
    /// The archive is walked from its first byte to the central directory,
    /// as [`archive_plan`] describes it. Every directory and every file on
    /// the way becomes an entry of the roster, a file with its payload
    /// copied or inflated; the last entry of the roster lists the path of
    /// the archive and the names of the files. The walk stops at the first
    /// fault, and the archive is expanded exactly where the walk finds none.
    pub fn expand(&mut self, epub_filepath: &str, epub_file: InputFile) -> (r: Result<
        (),
        EPubError,
    >)
        requires
            epub_file.wf(),
        ensures
            final(self).dir_path() == old(self).dir_path(),
            epub_file.remaining().len() == 0 ==> r == Err::<(), EPubError>(
                if epub_file.faulty() {
                    EPubError::IO
                } else {
                    EPubError::EmptyFile
                },
            ),
            epub_file.remaining().len() > 0 ==> ({
                let plan = archive_plan(
                    old(self).dir_path(),
                    epub_file.remaining(),
                    0,
                    epub_file.faulty(),
                );
                &&& r is Ok <==> plan.fault is None
                &&& r matches Err(e) ==> plan.fault matches Some(fault) && reports_walk_fault(
                    e,
                    fault,
                    epub_file.faulty(),
                )
                &&& r is Ok ==> {
                    &&& final(self).roster().len() == plan.entries.len() + 1
                    &&& entries_match(final(self).roster().drop_last(), plan.entries)
                    &&& final(self).roster().last() == Container::file_list_entry(
                        old(self).dir_path(),
                        vstd::utf8::encode_utf8(epub_filepath@),
                        plan.entries,
                    )
                }
            }),
    {
        let ghost dest = self.expanded_dir_path@;
        let ghost all = epub_file.remaining();
        let ghost archive = vstd::utf8::encode_utf8(epub_filepath@);
        let ghost faulty = epub_file.faulty();
        let ghost plan = archive_plan(dest, all, 0, faulty);
        self.entries = Vec::new();
        // the list of what is expanded starts with the archive's own path
        let mut listing: Vec<u8> = Vec::new();
        append_bytes(&mut listing, epub_filepath.as_bytes());
        listing.push(LIST_LINE_END);
        // now expand the file
        let mut rdr: BufReader = BufReader::new(epub_file)?;
        if rdr.at_end() {
            return Err(EPubError::EmptyFile);
        }
        let ghost mut done: Seq<PlannedEntry> = Seq::empty();
        proof {
            assert(entry_views(self.entries@) =~= Seq::<EntryView>::empty());
            assert(done + plan.entries =~= plan.entries);
            assert(listing@ =~= file_list(archive, done));
        }
        loop
            invariant_except_break
                plan == after_entries(
                    done,
                    archive_plan(dest, rdr.remaining(), done.len(), faulty),
                ),
            invariant
                self.expanded_dir_path@ == dest,
                dest == old(self).dir_path(),
                all == epub_file.remaining(),
                all.len() > 0,
                archive == vstd::utf8::encode_utf8(epub_filepath@),
                faulty == epub_file.faulty(),
                plan == archive_plan(dest, all, 0, faulty),
                rdr.wf(),
                rdr.faulty() == epub_file.faulty(),
                done.len() == self.entries@.len(),
                entries_match(entry_views(self.entries@), done),
                listing@ == file_list(archive, done),
            ensures
                plan == (Plan { entries: done, fault: None }),
            decreases rdr.remaining().len(),
        {
            let ghost cur = rdr.remaining();
            let ghost count = done.len();
            let ghost here = archive_plan(dest, cur, count, faulty);
            let ghost step = archive_step(dest, cur, count, faulty);
            proof {
                if cur.len() < 4 || le_u32(cur) != LOCAL_FILE_HEADER_SIGNATURE {
                    lemma_step_without_header(dest, cur, count, faulty);
                }
            }
            let signature: u32 = rdr.peek4()?;
            if LocalFileHeader::is_lfh(signature) {
                let ghost before = entry_views(self.entries@);
                let ghost listed = listing@;
                match self.expand_entry(&mut rdr, &mut listing) {
                    Ok(()) => {},
                    Err(e) => {
                        proof {
                            if step is Fail {
                                let fault = step->Fail_0;
                                assert(here == (Plan {
                                    entries: Seq::empty(),
                                    fault: Some(fault),
                                }));
                                assert(plan.fault == Some(fault));
                            }
                        }
                        return Err(e);
                    },
                }
                proof {
                    let next = step->Entry_next;
                    match step->Entry_planned {
                        Some(planned) => {
                            let rest = archive_plan(dest, cur.skip(next), count + 1, faulty);
                            assert(here == after_entries(seq![planned], rest));
                            assert(done + (seq![planned] + rest.entries) =~= done.push(planned)
                                + rest.entries);
                            assert(entry_views(self.entries@) =~= before.push(
                                self.entries@.last()@,
                            ));
                            assert(done.push(planned).drop_last() =~= done);
                            done = done.push(planned);
                        },
                        None => {
                            assert(here == archive_plan(dest, cur.skip(next), count, faulty));
                        },
                    }
                }
            } else if signature == CENTRAL_DIR_FILE_HEADER {
                proof {
                    assert(done + Seq::<PlannedEntry>::empty() =~= done);
                }
                break ;
            } else {
                return Err(EPubError::FormatError("unknown signature after local file header"));
            }
        }
        let path: String = self.expanded_file_path(Container::FILE_LIST_NAME);
        let entry = Entry { path, kind: EntryKind::File, data: listing, data_descriptor: None };
        let ghost before = entry_views(self.entries@);
        self.entries.push(entry);
        proof {
            assert(entry_views(self.entries@) =~= before.push(entry@));
            assert(self.roster().drop_last() =~= before);
        }
        Ok(())
    }

    /// get the root file entry from container.xml
    ///
    /// The file is read as lines of text and parsed, and the root file is
    /// taken from the events as [`Container::rootfile_from_events`] says.
    pub fn get_container_rootfile(&self, container_file: InputFile) -> (r: Result<
        Option<Rootfile>,
        EPubError,
    >)
        requires
            container_file.wf(),
        ensures
            is_rootfile_read(r, self.dir_path(), container_file),
    {
        let events: Vec<XmlEvent> = read_document(container_file)?;
        self.rootfile_from_events(events)
    }

    /// Takes the root file from the events of `container.xml`: the last
    /// element that ends inside `rootfiles`, if there is one.
    pub fn rootfile_from_events(&self, events: Vec<XmlEvent>) -> (r: Result<
        Option<Rootfile>,
        EPubError,
    >)
        ensures
            match rootfile_from(self.dir_path(), event_views(events@)) {
                Some(found) => r matches Ok(made) && rootfile_view(made) == found,
                None => r matches Err(e) && e == EPubError::InvalidXml,
            },
    {
        let ghost all = event_views(events@);
        let ghost dir = self.expanded_dir_path@;
        let mut stack: Vec<StartTag> = Vec::new();
        let mut in_rootfiles: bool = false;
        let mut root_file: Option<Rootfile> = None;
        proof {
            assert(all.skip(0) =~= all);
            assert(tag_views(stack@) =~= Seq::<StartTagView>::empty());
        }
        for event in it: events
            invariant
                it.seq() == events@,
                all == event_views(events@),
                dir == self.expanded_dir_path@,
                rootfile_fold(dir, rootfile_start(), all) == rootfile_fold(
                    dir,
                    RootfileState {
                        stack: tag_views(stack@),
                        in_rootfiles,
                        root_file: rootfile_view(root_file),
                    },
                    all.skip(it.index() as int),
                ),
        {
            let ghost rest = all.skip(it.index() as int);
            let ghost open = tag_views(stack@);
            assert(rest[0] == event@);
            assert(rest.skip(1) =~= all.skip(it.index() + 1));
            match event {
                XmlEvent::ElementStart(tag) => {
                    if same_text(tag.name.as_str(), "rootfiles") {
                        in_rootfiles = true;
                    }
                    stack.push(tag);
                    assert(tag_views(stack@) =~= open.push(tag@));
                },
                XmlEvent::ElementEnd(tag) => {
                    if let Some(start_tag) = stack.pop() {
                        assert(tag_views(stack@) =~= open.drop_last());
                        assert(start_tag@ == open.last());
                        if same_text(tag.name.as_str(), "rootfiles") {
                            in_rootfiles = false;
                        }
                        if in_rootfiles {
                            root_file = Some(
                                Rootfile::new(&start_tag, self.expanded_dir_path.as_str())?,
                            );
                        }
                    }
                },
                _ => {},
            }
        }
        Ok(root_file)
    }
}

/// represents rootfile section from container.xml
#[derive(Debug)]
pub struct Rootfile {
    pub full_path: String,
    pub media_type: String,
}

/// What a [`Rootfile`] holds.
pub struct RootfileView {
    pub full_path: Seq<char>,
    pub media_type: Seq<char>,
}

impl View for Rootfile {
    type V = RootfileView;

    open spec fn view(&self) -> RootfileView {
        RootfileView { full_path: self.full_path@, media_type: self.media_type@ }
    }
}

/// What an optional root file holds.
pub open spec fn rootfile_view(root_file: Option<Rootfile>) -> Option<RootfileView> {
    match root_file {
        Some(root_file) => Some(root_file@),
        None => None,
    }
}

/// The root file of a `rootfile` tag under the directory `leading_dir`:
/// its `full-path` under that directory, and its `media-type`. A tag that
/// lacks one of the two gives nothing.
pub open spec fn rootfile_of(tag: StartTagView, leading_dir: Seq<char>) -> Option<RootfileView> {
    match (tag.attribute("full-path"@), tag.attribute("media-type"@)) {
        (Some(full_path), Some(media_type)) => Some(
            RootfileView { full_path: entry_path(leading_dir, full_path), media_type },
        ),
        _ => None,
    }
}

impl Rootfile {
    /// The root file of a `rootfile` tag under the directory `leading_dir`.
    pub fn new(tag: &StartTag, leading_dir: &str) -> (r: Result<Rootfile, EPubError>)
        ensures
            match rootfile_of(tag@, leading_dir@) {
                Some(root_file) => r matches Ok(made) && made@ == root_file,
                None => r matches Err(e) && e == EPubError::InvalidXml,
            },
    {
        if let Some(fp) = tag.attribute("full-path") {
            if let Some(mtype) = tag.attribute("media-type") {
                let mut full_path: String = String::from_str(leading_dir);
                full_path.append("/");
                full_path.append(fp.as_str());
                proof {
                    reveal_strlit("/");
                    assert("/"@ =~= seq!['/']);
                }
                return Ok(Rootfile { full_path, media_type: mtype.clone() });
            }
        }
        Err(EPubError::InvalidXml)
    }
}

/// Whether `r` is the outcome of reading the file `file` as the
/// `container.xml` of a book that was expanded into `dir`.
///
/// A file that cannot be read as text gives the error of reading its
/// lines, and a text that the parser refuses gives the parser's error.
/// Events with a root file that lacks an attribute are invalid. Else the
/// outcome is the root file that the events name, if they name one.
pub open spec fn is_rootfile_read(
    r: Result<Option<Rootfile>, EPubError>,
    dir: Seq<char>,
    file: InputFile,
) -> bool {
    if !is_text_file(file) {
        r == Err::<Option<Rootfile>, EPubError>(
            lines_error(split_lines(file.remaining()), file.faulty()),
        )
    } else {
        match file_events(file) {
            Err(e) => r == Err::<Option<Rootfile>, EPubError>(e),
            Ok(events) => match rootfile_from(dir, events) {
                Some(found) => r matches Ok(read) && rootfile_view(read) == found,
                None => r == Err::<Option<Rootfile>, EPubError>(EPubError::InvalidXml),
            },
        }
    }
}

/// Where the reading of `container.xml` stands.
pub struct RootfileState {
    /// the start tags of the elements that are open
    pub stack: Seq<StartTagView>,
    pub in_rootfiles: bool,
    /// the root file that was found last
    pub root_file: Option<RootfileView>,
}

/// The state before the first event of `container.xml`.
pub open spec fn rootfile_start() -> RootfileState {
    RootfileState { stack: Seq::empty(), in_rootfiles: false, root_file: None }
}

/// The state after one event.
///
/// A start tag is kept until its element ends, and `rootfiles` is entered
/// at its start tag and left at its end tag. An element that ends inside
/// `rootfiles` is the root file; it is refused if it lacks an attribute.
/// An end tag with nothing open is passed over.
pub open spec fn rootfile_step(dir: Seq<char>, state: RootfileState, event: XmlEventView)
    -> Option<RootfileState> {
    match event {
        XmlEventView::ElementStart(tag) => Some(
            RootfileState {
                stack: state.stack.push(tag),
                in_rootfiles: state.in_rootfiles || tag.name == "rootfiles"@,
                ..state
            },
        ),
        XmlEventView::ElementEnd(name) => if state.stack.len() == 0 {
            Some(state)
        } else {
            let closed = RootfileState {
                stack: state.stack.drop_last(),
                in_rootfiles: state.in_rootfiles && name != "rootfiles"@,
                ..state
            };
            if closed.in_rootfiles {
                match rootfile_of(state.stack.last(), dir) {
                    Some(root_file) => Some(RootfileState { root_file: Some(root_file), ..closed }),
                    None => None,
                }
            } else {
                Some(closed)
            }
        },
        _ => Some(state),
    }
}

/// The state after a sequence of events, unless one of them is refused.
pub open spec fn rootfile_fold(dir: Seq<char>, state: RootfileState, events: Seq<XmlEventView>)
    -> Option<RootfileState>
    decreases events.len(),
{
    if events.len() == 0 {
        Some(state)
    } else {
        match rootfile_step(dir, state, events[0]) {
            Some(next) => rootfile_fold(dir, next, events.skip(1)),
            None => None,
        }
    }
}

/// The root file that a sequence of events names, or none, unless an event
/// is refused.
pub open spec fn rootfile_from(dir: Seq<char>, events: Seq<XmlEventView>) -> Option<
    Option<RootfileView>,
> {
    match rootfile_fold(dir, rootfile_start(), events) {
        Some(state) => Some(state.root_file),
        None => None,
    }
}

} // verus!
