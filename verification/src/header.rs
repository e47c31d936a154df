//! Local file headers: what an archive says of an entry before the
//! entry's payload, and how it is read from bytes.
use vstd::prelude::*;
use crate::error::EPubError;
use crate::io::{
    append_bytes, le_u16, le_u32, short_read_error, string_from_utf8, BufReader, MAX_FIELD_LEN,
};

verus! {

/// The signature that starts a local file header.
pub const LOCAL_FILE_HEADER_SIGNATURE: u32 = 0x04034b50;

/// The signature that starts the central directory, behind the last entry.
pub const CENTRAL_DIR_FILE_HEADER: u32 = 0x02014b50;

/// The bit of the general purpose flag that announces a data descriptor.
pub const DATA_DESCRIPTOR_FLAG: u16 = 0x0008;

/// The compression method of an entry that is stored as it is.
pub const METHOD_STORE: u16 = 0;

/// The compression method of a deflated entry.
pub const METHOD_DEFLATE: u16 = 8;

/// The number of bytes of a local file header before the file name.
pub const HEADER_PREFIX_LEN: usize = 30;

/// The number of bytes of a data descriptor.
pub const DATA_DESCRIPTOR_LEN: usize = 12;

/// The byte that separates the parts of a path.
pub const PATH_SEPARATOR: u8 = 0x2f;

/// One record of the extra field of a local file header.
#[derive(Debug)]
pub struct ExtraHeader {
    pub id: u16,
    pub data: Vec<u8>,
}

/// What an [`ExtraHeader`] holds.
pub struct ExtraHeaderView {
    pub id: u16,
    pub data: Seq<u8>,
}

impl View for ExtraHeader {
    type V = ExtraHeaderView;

    open spec fn view(&self) -> ExtraHeaderView {
        ExtraHeaderView { id: self.id, data: self.data@ }
    }
}

/// What a sequence of records holds.
pub open spec fn extra_views(records: Seq<ExtraHeader>) -> Seq<ExtraHeaderView> {
    records.map_values(|record: ExtraHeader| record@)
}

/// The record that follows the payload of an entry whose header announces it.
#[derive(Debug, Clone, Copy, PartialEq, Eq, Structural)]
pub struct DataDescriptor {
    pub crc32: u32,
    pub compressed_size: u32,
    pub uncompressed_size: u32,
}

/// The data descriptor that `bytes` start with.
pub open spec fn parse_data_descriptor(bytes: Seq<u8>) -> DataDescriptor
    recommends
        bytes.len() >= DATA_DESCRIPTOR_LEN,
{
    DataDescriptor {
        crc32: le_u32(bytes),
        compressed_size: le_u32(bytes.skip(4)),
        uncompressed_size: le_u32(bytes.skip(8)),
    }
}

impl DataDescriptor {
    /// Reads a data descriptor: twelve bytes, three numbers.
    pub fn read(rdr: &mut BufReader) -> (r: Result<DataDescriptor, EPubError>)
        requires
            old(rdr).wf(),
        ensures
            final(rdr).faulty() == old(rdr).faulty(),
            r is Ok <==> old(rdr).remaining().len() >= DATA_DESCRIPTOR_LEN,
            r matches Err(e) ==> e == short_read_error(old(rdr).faulty()),
            r matches Ok(dd) ==> {
                &&& final(rdr).wf()
                &&& dd == parse_data_descriptor(old(rdr).remaining())
                &&& final(rdr).remaining() == old(rdr).remaining().skip(
                    DATA_DESCRIPTOR_LEN as int,
                )
            },
    {
        let ghost all = rdr.remaining();
        let crc32 = rdr.read4()?;
        let compressed_size = rdr.read4()?;
        let uncompressed_size = rdr.read4()?;
        proof {
            assert(all.skip(4).skip(4) =~= all.skip(8));
            assert(all.skip(8).skip(4) =~= all.skip(12));
        }
        Ok(DataDescriptor { crc32, compressed_size, uncompressed_size })
    }
}

/// A local file header: what the archive says of one entry before the
/// entry's payload.
#[derive(Debug)]
pub struct LocalFileHeader {
    pub extract_version: u16,
    pub general_purpose_flag: u16,
    pub compression_method: u16,
    pub last_mod_file_time: u16,
    pub last_mod_file_date: u16,
    pub crc32: u32,
    pub compressed_size: u32,
    pub uncompressed_size: u32,
    pub file_name: String,
    pub extra_field: Option<Vec<ExtraHeader>>,
    pub data_descriptor: Option<DataDescriptor>,
}

/// What a [`LocalFileHeader`] holds.
pub struct LocalFileHeaderView {
    pub extract_version: u16,
    pub general_purpose_flag: u16,
    pub compression_method: u16,
    pub last_mod_file_time: u16,
    pub last_mod_file_date: u16,
    pub crc32: u32,
    pub compressed_size: u32,
    pub uncompressed_size: u32,
    pub file_name: Seq<char>,
    pub extra_field: Option<Seq<ExtraHeaderView>>,
    pub data_descriptor: Option<DataDescriptor>,
}

impl View for LocalFileHeader {
    type V = LocalFileHeaderView;

    open spec fn view(&self) -> LocalFileHeaderView {
        LocalFileHeaderView {
            extract_version: self.extract_version,
            general_purpose_flag: self.general_purpose_flag,
            compression_method: self.compression_method,
            last_mod_file_time: self.last_mod_file_time,
            last_mod_file_date: self.last_mod_file_date,
            crc32: self.crc32,
            compressed_size: self.compressed_size,
            uncompressed_size: self.uncompressed_size,
            file_name: self.file_name@,
            extra_field: match self.extra_field {
                Some(records) => Some(extra_views(records@)),
                None => None,
            },
            data_descriptor: self.data_descriptor,
        }
    }
}

impl LocalFileHeaderView {
    /// The bytes of the file name, as the archive holds them.
    pub open spec fn name_bytes(self) -> Seq<u8> {
        vstd::utf8::encode_utf8(self.file_name)
    }

    /// Whether a data descriptor follows the payload.
    pub open spec fn have_data_descriptor(self) -> bool {
        self.general_purpose_flag & DATA_DESCRIPTOR_FLAG == DATA_DESCRIPTOR_FLAG
    }

    /// Whether the header describes a file: both sizes are above zero.
    pub open spec fn is_file(self) -> bool {
        self.compressed_size > 0 && self.uncompressed_size > 0
    }

    /// Whether the header describes a directory: both sizes are zero and the
    /// name ends in the path separator.
    pub open spec fn is_dir(self) -> bool {
        &&& self.compressed_size == 0
        &&& self.uncompressed_size == 0
        &&& self.name_bytes().len() > 0
        &&& self.name_bytes().last() == PATH_SEPARATOR
    }
}

/// The fields of fixed length at the start of a local file header.
struct HeaderPrefix {
    extract_version: u16,
    general_purpose_flag: u16,
    compression_method: u16,
    last_mod_file_time: u16,
    last_mod_file_date: u16,
    crc32: u32,
    compressed_size: u32,
    uncompressed_size: u32,
    file_name_length: u16,
    extra_field_length: u16,
}

/// Why bytes are not a local file header.
pub enum HeaderFault {
    /// The bytes end before the header does.
    Short,
    /// The first four bytes are not the signature.
    InvalidSignature,
    /// The file name or the extra field is longer than is accepted.
    Oversize,
    /// The file name is not valid UTF-8.
    BadText,
    /// The records of the extra field do not fill it exactly.
    BadExtra,
}

/// Whether `e` is the error that reports `fault`.
pub open spec fn reports_fault(e: EPubError, fault: HeaderFault, faulty: bool) -> bool {
    match fault {
        HeaderFault::Short => e == short_read_error(faulty),
        HeaderFault::InvalidSignature => e == EPubError::InvalidLocalHeader,
        HeaderFault::Oversize => e == EPubError::TruncatedRead,
        HeaderFault::BadText => e == EPubError::UTF8,
        HeaderFault::BadExtra => e is FormatError,
    }
}

/// The records of an extra field of `left` bytes at the start of `bytes`.
///
/// Each record is an id, the length of its data, and the data. A record
/// that runs over the end of the field, or a field that ends inside the
/// four bytes of id and length, is a fault.
pub open spec fn parse_extra(bytes: Seq<u8>, left: nat) -> Result<Seq<ExtraHeaderView>, HeaderFault>
    decreases left,
{
    if left == 0 {
        Ok(Seq::empty())
    } else if left < 4 {
        Err(HeaderFault::BadExtra)
    } else if bytes.len() < 4 {
        Err(HeaderFault::Short)
    } else {
        let len = le_u16(bytes.skip(2)) as int;
        if len + 4 > left {
            Err(HeaderFault::BadExtra)
        } else if bytes.len() < 4 + len {
            Err(HeaderFault::Short)
        } else {
            let record = ExtraHeaderView { id: le_u16(bytes), data: bytes.subrange(4, 4 + len) };
            match parse_extra(bytes.skip(4 + len), (left - 4 - len) as nat) {
                Ok(records) => Ok(seq![record] + records),
                Err(fault) => Err(fault),
            }
        }
    }
}

/// An extra field is faulty where its records do not fill it, or where
/// the bytes end inside it; reading it finds no other fault.
pub proof fn lemma_extra_faults(bytes: Seq<u8>, left: nat)
    ensures
        parse_extra(bytes, left) matches Err(fault) ==> fault is BadExtra || fault is Short,
    decreases left,
{
    if left >= 4 && bytes.len() >= 4 {
        let len = le_u16(bytes.skip(2)) as int;
        if len + 4 <= left && bytes.len() >= 4 + len {
            lemma_extra_faults(bytes.skip(4 + len), (left - 4 - len) as nat);
        }
    }
}

/// `rest` with the records `done` before what it holds.
pub open spec fn after_records(
    done: Seq<ExtraHeaderView>,
    rest: Result<Seq<ExtraHeaderView>, HeaderFault>,
) -> Result<Seq<ExtraHeaderView>, HeaderFault> {
    match rest {
        Ok(records) => Ok(done + records),
        Err(fault) => Err(fault),
    }
}

/// A header read from bytes, and the number of bytes that it takes.
pub struct ParsedHeader {
    pub header: LocalFileHeaderView,
    pub len: int,
}

/// The local file header at the start of `bytes`.
///
/// The faults are those of reading the header from its first byte on: the
/// first one that such a reading meets is the result.
pub open spec fn parse_header(bytes: Seq<u8>) -> Result<ParsedHeader, HeaderFault> {
    if bytes.len() < 4 {
        Err(HeaderFault::Short)
    } else if le_u32(bytes) != LOCAL_FILE_HEADER_SIGNATURE {
        Err(HeaderFault::InvalidSignature)
    } else if bytes.len() < HEADER_PREFIX_LEN {
        Err(HeaderFault::Short)
    } else {
        let name_len = le_u16(bytes.skip(26)) as int;
        let extra_len = le_u16(bytes.skip(28)) as int;
        let name_end = HEADER_PREFIX_LEN + name_len;
        if name_len > MAX_FIELD_LEN || extra_len > MAX_FIELD_LEN {
            Err(HeaderFault::Oversize)
        } else if bytes.len() < name_end {
            Err(HeaderFault::Short)
        } else if !vstd::utf8::valid_utf8(bytes.subrange(HEADER_PREFIX_LEN as int, name_end)) {
            Err(HeaderFault::BadText)
        } else {
            match parse_extra(bytes.skip(name_end), extra_len as nat) {
                Err(fault) => Err(fault),
                Ok(records) => Ok(
                    ParsedHeader {
                        header: LocalFileHeaderView {
                            extract_version: le_u16(bytes.skip(4)),
                            general_purpose_flag: le_u16(bytes.skip(6)),
                            compression_method: le_u16(bytes.skip(8)),
                            last_mod_file_time: le_u16(bytes.skip(10)),
                            last_mod_file_date: le_u16(bytes.skip(12)),
                            crc32: le_u32(bytes.skip(14)),
                            compressed_size: le_u32(bytes.skip(18)),
                            uncompressed_size: le_u32(bytes.skip(22)),
                            file_name: vstd::utf8::decode_utf8(
                                bytes.subrange(HEADER_PREFIX_LEN as int, name_end),
                            ),
                            extra_field: if extra_len > 0 {
                                Some(records)
                            } else {
                                None
                            },
                            data_descriptor: None,
                        },
                        len: name_end + extra_len,
                    },
                ),
            }
        }
    }
}

impl LocalFileHeader {
    /// is the signature that of a local file header
    pub fn is_lfh(sig_byte: u32) -> (b: bool)
        ensures
            b == (sig_byte == LOCAL_FILE_HEADER_SIGNATURE),
    {
        sig_byte == LOCAL_FILE_HEADER_SIGNATURE
    }

    /// is there a data descriptor for this header
    pub fn have_data_descriptor(&self) -> (b: bool)
        ensures
            b == self@.have_data_descriptor(),
    {
        self.general_purpose_flag & DATA_DESCRIPTOR_FLAG == DATA_DESCRIPTOR_FLAG
    }

    /// does this header describe a file
    pub fn is_file(&self) -> (b: bool)
        ensures
            b == self@.is_file(),
    {
        self.compressed_size > 0 && self.uncompressed_size > 0
    }

    /// does this header describe a directory
    pub fn is_dir(&self) -> (b: bool)
        ensures
            b == self@.is_dir(),
    {
        let name = self.file_name.as_str().as_bytes();
        self.compressed_size == 0 && self.uncompressed_size == 0 && name.len() > 0 && name[name.len()
            - 1] == PATH_SEPARATOR
    }

    /// Reads the records of an extra field of `length` bytes.
    fn read_extra(rdr: &mut BufReader, length: usize) -> (r: Result<Vec<ExtraHeader>, EPubError>)
        requires
            old(rdr).wf(),
            length <= MAX_FIELD_LEN,
        ensures
            final(rdr).faulty() == old(rdr).faulty(),
            match parse_extra(old(rdr).remaining(), length as nat) {
                Ok(records) => r matches Ok(read) && extra_views(read@) == records && final(rdr).wf()
                    && length <= old(rdr).remaining().len() && final(rdr).remaining() == old(
                    rdr,
                ).remaining().skip(length as int),
                Err(fault) => r matches Err(e) && reports_fault(e, fault, old(rdr).faulty()),
            },
    {
        let ghost start = rdr.remaining();
        let mut fieldvec: Vec<ExtraHeader> = Vec::new();
        let mut data_left: usize = length;
        proof {
            assert(extra_views(fieldvec@) =~= Seq::empty());
            assert(start.skip(0) =~= start);
            match parse_extra(start, length as nat) {
                Ok(records) => {
                    assert(Seq::<ExtraHeaderView>::empty() + records =~= records);
                },
                Err(_) => {},
            }
        }
        while data_left > 0
            invariant
                rdr.wf(),
                rdr.faulty() == old(rdr).faulty(),
                data_left <= length <= MAX_FIELD_LEN,
                start == old(rdr).remaining(),
                parse_extra(start, length as nat) is Ok ==> length - data_left <= start.len()
                    && rdr.remaining() == start.skip(length - data_left),
                parse_extra(start, length as nat) == after_records(
                    extra_views(fieldvec@),
                    parse_extra(rdr.remaining(), data_left as nat),
                ),
            decreases data_left,
        {
            let ghost cur = rdr.remaining();
            let ghost done = extra_views(fieldvec@);
            if data_left < 4 {
                return Err(EPubError::FormatError("extra field ends inside a record"));
            }
            let id: u16 = rdr.read2()?;
            let data_len: usize = rdr.read2()? as usize;
            if data_len + 4 > data_left {
                return Err(EPubError::FormatError("extra field record overruns the field"));
            }
            let data: Vec<u8> = rdr.read_bytes(data_len)?;
            proof {
                assert(cur.skip(2).skip(2) =~= cur.skip(4));
                assert(cur.skip(4).take(data_len as int) =~= cur.subrange(4, 4 + data_len));
                assert(cur.skip(4).skip(data_len as int) =~= cur.skip(4 + data_len));
            }
            let ef = ExtraHeader { id, data };
            fieldvec.push(ef);
            data_left = data_left - (data_len + 4);
            proof {
                let record = ExtraHeaderView { id: le_u16(cur), data: cur.subrange(4, 4 + data_len) };
                assert(ef@ == record);
                assert(extra_views(fieldvec@) =~= done.push(record));
                let rest = parse_extra(rdr.remaining(), data_left as nat);
                match rest {
                    Ok(records) => {
                        assert(done + (seq![record] + records) =~= done.push(record) + records);
                    },
                    Err(_) => {},
                }
                if parse_extra(start, length as nat) is Ok {
                    assert(start.skip(length - data_left) =~= start.skip(
                        length - data_left - data_len - 4,
                    ).skip(4 + data_len));
                }
            }
        }
        proof {
            assert(extra_views(fieldvec@) + Seq::<ExtraHeaderView>::empty() =~= extra_views(
                fieldvec@,
            ));
        }
        Ok(fieldvec)
    }

    /// Reads the signature and the fields of fixed length.
    fn read_prefix(rdr: &mut BufReader) -> (r: Result<HeaderPrefix, EPubError>)
        requires
            old(rdr).wf(),
        ensures
            final(rdr).faulty() == old(rdr).faulty(),
            r is Ok <==> old(rdr).remaining().len() >= HEADER_PREFIX_LEN && le_u32(
                old(rdr).remaining(),
            ) == LOCAL_FILE_HEADER_SIGNATURE,
            r matches Err(e) ==> e == (if old(rdr).remaining().len() >= 4 && le_u32(
                old(rdr).remaining(),
            ) != LOCAL_FILE_HEADER_SIGNATURE {
                EPubError::InvalidLocalHeader
            } else {
                short_read_error(old(rdr).faulty())
            }),
            r matches Ok(prefix) ==> {
                &&& final(rdr).wf()
                &&& final(rdr).remaining() == old(rdr).remaining().skip(HEADER_PREFIX_LEN as int)
                &&& prefix.extract_version == le_u16(old(rdr).remaining().skip(4))
                &&& prefix.general_purpose_flag == le_u16(old(rdr).remaining().skip(6))
                &&& prefix.compression_method == le_u16(old(rdr).remaining().skip(8))
                &&& prefix.last_mod_file_time == le_u16(old(rdr).remaining().skip(10))
                &&& prefix.last_mod_file_date == le_u16(old(rdr).remaining().skip(12))
                &&& prefix.crc32 == le_u32(old(rdr).remaining().skip(14))
                &&& prefix.compressed_size == le_u32(old(rdr).remaining().skip(18))
                &&& prefix.uncompressed_size == le_u32(old(rdr).remaining().skip(22))
                &&& prefix.file_name_length == le_u16(old(rdr).remaining().skip(26))
                &&& prefix.extra_field_length == le_u16(old(rdr).remaining().skip(28))
            },
    {
        let ghost all = rdr.remaining();
        let sig: u32 = rdr.read4()?;
        if sig != LOCAL_FILE_HEADER_SIGNATURE {
            return Err(EPubError::InvalidLocalHeader);
        }
        let extract_version: u16 = rdr.read2()?;
        assert(all.skip(4).skip(2) == all.skip(6)) by {
            assert(all.skip(4).skip(2) =~= all.skip(6));
        }
        let general_purpose_flag: u16 = rdr.read2()?;
        assert(all.skip(6).skip(2) == all.skip(8)) by {
            assert(all.skip(6).skip(2) =~= all.skip(8));
        }
        let compression_method: u16 = rdr.read2()?;
        assert(all.skip(8).skip(2) == all.skip(10)) by {
            assert(all.skip(8).skip(2) =~= all.skip(10));
        }
        let last_mod_file_time: u16 = rdr.read2()?;
        assert(all.skip(10).skip(2) == all.skip(12)) by {
            assert(all.skip(10).skip(2) =~= all.skip(12));
        }
        let last_mod_file_date: u16 = rdr.read2()?;
        assert(all.skip(12).skip(2) == all.skip(14)) by {
            assert(all.skip(12).skip(2) =~= all.skip(14));
        }
        let crc32: u32 = rdr.read4()?;
        assert(all.skip(14).skip(4) == all.skip(18)) by {
            assert(all.skip(14).skip(4) =~= all.skip(18));
        }
        let compressed_size: u32 = rdr.read4()?;
        assert(all.skip(18).skip(4) == all.skip(22)) by {
            assert(all.skip(18).skip(4) =~= all.skip(22));
        }
        let uncompressed_size: u32 = rdr.read4()?;
        assert(all.skip(22).skip(4) == all.skip(26)) by {
            assert(all.skip(22).skip(4) =~= all.skip(26));
        }
        let file_name_length: u16 = rdr.read2()?;
        assert(all.skip(26).skip(2) == all.skip(28)) by {
            assert(all.skip(26).skip(2) =~= all.skip(28));
        }
        let extra_field_length: u16 = rdr.read2()?;
        assert(all.skip(28).skip(2) == all.skip(30)) by {
            assert(all.skip(28).skip(2) =~= all.skip(30));
        }
        Ok(
            HeaderPrefix {
                extract_version,
                general_purpose_flag,
                compression_method,
                last_mod_file_time,
                last_mod_file_date,
                crc32,
                compressed_size,
                uncompressed_size,
                file_name_length,
                extra_field_length,
            },
        )
    }

    /// Reads a local file header: the signature, the fields of fixed
    /// length, the file name and the records of the extra field.
    ///
    /// The result is that of [`parse_header`] on what the reader has left.
    /// A header that was read has no data descriptor yet. A name or an
    /// extra field that is too long is refused before any of its bytes is
    /// read: the reader then stands right behind the fields of fixed length.
    pub fn read(rdr: &mut BufReader) -> (r: Result<LocalFileHeader, EPubError>)
        requires
            old(rdr).wf(),
        ensures
            final(rdr).faulty() == old(rdr).faulty(),
            match parse_header(old(rdr).remaining()) {
                Ok(parsed) => r matches Ok(header) && header@ == parsed.header && final(rdr).wf()
                    && final(rdr).remaining() == old(rdr).remaining().skip(parsed.len),
                Err(fault) => r matches Err(e) && reports_fault(e, fault, old(rdr).faulty()),
            },
            parse_header(old(rdr).remaining()) == Err::<ParsedHeader, HeaderFault>(
                HeaderFault::Oversize,
            ) ==> final(rdr).wf() && final(rdr).remaining() == old(rdr).remaining().skip(
                HEADER_PREFIX_LEN as int,
            ),
    {
        let ghost all = rdr.remaining();
        let prefix = Self::read_prefix(rdr)?;
        let extract_version: u16 = prefix.extract_version;
        let general_purpose_flag: u16 = prefix.general_purpose_flag;
        let compression_method: u16 = prefix.compression_method;
        let last_mod_file_time: u16 = prefix.last_mod_file_time;
        let last_mod_file_date: u16 = prefix.last_mod_file_date;
        let crc32: u32 = prefix.crc32;
        let compressed_size: u32 = prefix.compressed_size;
        let uncompressed_size: u32 = prefix.uncompressed_size;
        let file_name_length: usize = prefix.file_name_length as usize;
        let extra_field_length: usize = prefix.extra_field_length as usize;
        if file_name_length > MAX_FIELD_LEN || extra_field_length > MAX_FIELD_LEN {
            return Err(EPubError::TruncatedRead);
        }
        let v: Vec<u8> = rdr.read_bytes(file_name_length)?;
        proof {
            assert(all.skip(30).take(file_name_length as int) =~= all.subrange(
                30,
                30 + file_name_length,
            ));
            assert(all.skip(30).skip(file_name_length as int) =~= all.skip(30 + file_name_length));
        }
        let file_name: String = match string_from_utf8(v) {
            Some(file_name) => file_name,
            None => {
                return Err(EPubError::UTF8);
            },
        };
        proof {
            lemma_extra_faults(rdr.remaining(), extra_field_length as nat);
        }
        let extra_field: Option<Vec<ExtraHeader>> = if extra_field_length > 0 {
            Some(Self::read_extra(rdr, extra_field_length)?)
        } else {
            None
        };
        proof {
            if extra_field_length > 0 {
                assert(all.skip(30 + file_name_length).skip(extra_field_length as int) =~= all.skip(
                    30 + file_name_length + extra_field_length,
                ));
            }
        }
        let data_descriptor: Option<DataDescriptor> = None;
        let lfh = LocalFileHeader {
            extract_version,
            general_purpose_flag,
            compression_method,
            last_mod_file_time,
            last_mod_file_date,
            crc32,
            compressed_size,
            uncompressed_size,
            file_name,
            extra_field,
            data_descriptor,
        };
        Ok(lfh)
    }
}

/// A header takes at least its thirty bytes of fixed length, and no more
/// bytes than there are.
pub proof fn lemma_parsed_len(bytes: Seq<u8>)
    requires
        parse_header(bytes) is Ok,
    ensures
        HEADER_PREFIX_LEN <= parse_header(bytes)->Ok_0.len <= bytes.len(),
{
    let name_len = le_u16(bytes.skip(26)) as int;
    let extra_len = le_u16(bytes.skip(28)) as int;
    lemma_extra_len(bytes.skip(HEADER_PREFIX_LEN + name_len), extra_len as nat);
}

/// An extra field that can be read lies inside the bytes.
pub proof fn lemma_extra_len(bytes: Seq<u8>, left: nat)
    requires
        parse_extra(bytes, left) is Ok,
    ensures
        left <= bytes.len(),
    decreases left,
{
    if left > 0 {
        let len = le_u16(bytes.skip(2)) as int;
        lemma_extra_len(bytes.skip(4 + len), (left - 4 - len) as nat);
    }
}

/// The two bytes of `value`, least significant byte first.
pub open spec fn u16_le(value: u16) -> Seq<u8> {
    seq![(value % 256) as u8, (value / 256) as u8]
}

/// The four bytes of `value`, least significant byte first.
pub open spec fn u32_le(value: u32) -> Seq<u8> {
    seq![
        (value % 256) as u8,
        (value / 256 % 256) as u8,
        (value / 65536 % 256) as u8,
        (value / 16777216) as u8,
    ]
}

/// The bytes of the records of an extra field, one record after the other.
pub open spec fn serialize_extra(records: Seq<ExtraHeaderView>) -> Seq<u8>
    decreases records.len(),
{
    if records.len() == 0 {
        Seq::empty()
    } else {
        u16_le(records[0].id) + u16_le(records[0].data.len() as u16) + records[0].data
            + serialize_extra(records.skip(1))
    }
}

/// The records of the extra field of a header, none where it has no field.
pub open spec fn extra_records(header: LocalFileHeaderView) -> Seq<ExtraHeaderView> {
    match header.extra_field {
        Some(records) => records,
        None => Seq::empty(),
    }
}

/// Whether the lengths of a header fit into the fields that hold them, and
/// into what is accepted: the name and the extra field are no longer than
/// a field may be, and the length of the data of every record is a number
/// of two bytes.
pub open spec fn fits_header(header: LocalFileHeaderView) -> bool {
    &&& header.name_bytes().len() <= MAX_FIELD_LEN
    &&& serialize_extra(extra_records(header)).len() <= MAX_FIELD_LEN
    &&& forall|i: int|
        0 <= i < extra_records(header).len() ==> (#[trigger] extra_records(header)[i]).data.len()
            <= u16::MAX
}

/// Whether a header can stand in an archive and be read back: its lengths
/// fit, an extra field that is there has a record, and no data descriptor
/// is attached.
pub open spec fn is_serializable(header: LocalFileHeaderView) -> bool {
    &&& fits_header(header)
    &&& header.extra_field matches Some(records) ==> records.len() > 0
    &&& header.data_descriptor is None
}

/// The bytes of a local file header: the signature, the fields of fixed
/// length, the lengths of name and extra field, the name, the extra field.
pub open spec fn serialize_header(header: LocalFileHeaderView) -> Seq<u8> {
    serialize_prefix(header) + header.name_bytes() + serialize_extra(extra_records(header))
}

/// Two bytes written least significant byte first are read back as the
/// number that was written, whatever follows them.
pub proof fn lemma_le_u16_round_trip(value: u16, rest: Seq<u8>)
    ensures
        le_u16(u16_le(value) + rest) == value,
{
    let bytes = u16_le(value) + rest;
    assert(bytes[0] == (value % 256) as u8);
    assert(bytes[1] == (value / 256) as u8);
}

/// The records of an extra field are read back from their bytes, whatever
/// follows the field.
pub proof fn lemma_parse_serialize_extra(records: Seq<ExtraHeaderView>, rest: Seq<u8>)
    requires
        forall|i: int| 0 <= i < records.len() ==> (#[trigger] records[i]).data.len() <= u16::MAX,
    ensures
        parse_extra(serialize_extra(records) + rest, serialize_extra(records).len()) == Ok::<
            Seq<ExtraHeaderView>,
            HeaderFault,
        >(records),
    decreases records.len(),
{
    let bytes = serialize_extra(records) + rest;
    let left = serialize_extra(records).len();
    if records.len() == 0 {
        assert(records =~= Seq::<ExtraHeaderView>::empty());
    } else {
        let first = records[0];
        let others = records.skip(1);
        let len = first.data.len() as int;
        let tail = serialize_extra(others);
        assert(first.data.len() <= u16::MAX);
        assert(serialize_extra(records) == u16_le(first.id) + u16_le(len as u16) + first.data
            + tail);
        assert(bytes =~= u16_le(first.id) + (u16_le(len as u16) + first.data + tail + rest));
        lemma_le_u16_round_trip(first.id, u16_le(len as u16) + first.data + tail + rest);
        assert(bytes.skip(2) =~= u16_le(len as u16) + (first.data + tail + rest));
        lemma_le_u16_round_trip(len as u16, first.data + tail + rest);
        assert(bytes.subrange(4, 4 + len) =~= first.data);
        assert(bytes.skip(4 + len) =~= tail + rest);
        assert forall|i: int| 0 <= i < others.len() implies (#[trigger] others[i]).data.len()
            <= u16::MAX by {
            assert(others[i] == records[i + 1]);
        }
        lemma_parse_serialize_extra(others, rest);
        assert(left - 4 - len == tail.len());
        assert(seq![first] + others =~= records);
    }
}

/// The thirty bytes of fixed length at the start of a header.
pub open spec fn serialize_prefix(header: LocalFileHeaderView) -> Seq<u8> {
    u32_le(LOCAL_FILE_HEADER_SIGNATURE) + u16_le(header.extract_version) + u16_le(
        header.general_purpose_flag,
    ) + u16_le(header.compression_method) + u16_le(header.last_mod_file_time) + u16_le(
        header.last_mod_file_date,
    ) + u32_le(header.crc32) + u32_le(header.compressed_size) + u32_le(header.uncompressed_size)
        + u16_le(header.name_bytes().len() as u16) + u16_le(
        serialize_extra(extra_records(header)).len() as u16,
    )
}

/// A number of two bytes is read back from the place where it was written.
pub proof fn lemma_le_u16_at(bytes: Seq<u8>, at: int, value: u16)
    requires
        0 <= at,
        at + 2 <= bytes.len(),
        bytes.subrange(at, at + 2) == u16_le(value),
    ensures
        le_u16(bytes.skip(at)) == value,
{
    let field = bytes.subrange(at, at + 2);
    assert(bytes.skip(at)[0] == field[0]);
    assert(bytes.skip(at)[1] == field[1]);
}

/// A number of four bytes is read back from the place where it was written.
pub proof fn lemma_le_u32_at(bytes: Seq<u8>, at: int, value: u32)
    requires
        0 <= at,
        at + 4 <= bytes.len(),
        bytes.subrange(at, at + 4) == u32_le(value),
    ensures
        le_u32(bytes.skip(at)) == value,
{
    let field = bytes.subrange(at, at + 4);
    assert(bytes.skip(at)[0] == field[0]);
    assert(bytes.skip(at)[1] == field[1]);
    assert(bytes.skip(at)[2] == field[2]);
    assert(bytes.skip(at)[3] == field[3]);
}

/// The fields of fixed length are read back from the bytes of a header.
pub proof fn lemma_prefix_fields(header: LocalFileHeaderView, body: Seq<u8>)
    ensures
        ({
            let bytes = serialize_prefix(header) + body;
            &&& bytes.len() == HEADER_PREFIX_LEN + body.len()
            &&& bytes.skip(HEADER_PREFIX_LEN as int) == body
            &&& le_u32(bytes) == LOCAL_FILE_HEADER_SIGNATURE
            &&& le_u16(bytes.skip(4)) == header.extract_version
            &&& le_u16(bytes.skip(6)) == header.general_purpose_flag
            &&& le_u16(bytes.skip(8)) == header.compression_method
            &&& le_u16(bytes.skip(10)) == header.last_mod_file_time
            &&& le_u16(bytes.skip(12)) == header.last_mod_file_date
            &&& le_u32(bytes.skip(14)) == header.crc32
            &&& le_u32(bytes.skip(18)) == header.compressed_size
            &&& le_u32(bytes.skip(22)) == header.uncompressed_size
            &&& le_u16(bytes.skip(26)) == header.name_bytes().len() as u16
            &&& le_u16(bytes.skip(28)) == serialize_extra(extra_records(header)).len() as u16
        }),
{
    let bytes = serialize_prefix(header) + body;
    assert(bytes.len() == HEADER_PREFIX_LEN + body.len());
    assert(bytes.skip(HEADER_PREFIX_LEN as int) =~= body);
    assert(le_u32(bytes) == LOCAL_FILE_HEADER_SIGNATURE) by {
        assert(bytes.subrange(0, 4) =~= u32_le(LOCAL_FILE_HEADER_SIGNATURE));
        lemma_le_u32_at(bytes, 0, LOCAL_FILE_HEADER_SIGNATURE);
        assert(bytes.skip(0) =~= bytes);
    }
    assert(le_u16(bytes.skip(4)) == header.extract_version) by {
        assert(bytes.subrange(4, 6) =~= u16_le(header.extract_version));
        lemma_le_u16_at(bytes, 4, header.extract_version);
    }
    assert(le_u16(bytes.skip(6)) == header.general_purpose_flag) by {
        assert(bytes.subrange(6, 8) =~= u16_le(header.general_purpose_flag));
        lemma_le_u16_at(bytes, 6, header.general_purpose_flag);
    }
    assert(le_u16(bytes.skip(8)) == header.compression_method) by {
        assert(bytes.subrange(8, 10) =~= u16_le(header.compression_method));
        lemma_le_u16_at(bytes, 8, header.compression_method);
    }
    assert(le_u16(bytes.skip(10)) == header.last_mod_file_time) by {
        assert(bytes.subrange(10, 12) =~= u16_le(header.last_mod_file_time));
        lemma_le_u16_at(bytes, 10, header.last_mod_file_time);
    }
    assert(le_u16(bytes.skip(12)) == header.last_mod_file_date) by {
        assert(bytes.subrange(12, 14) =~= u16_le(header.last_mod_file_date));
        lemma_le_u16_at(bytes, 12, header.last_mod_file_date);
    }
    assert(le_u32(bytes.skip(14)) == header.crc32) by {
        assert(bytes.subrange(14, 18) =~= u32_le(header.crc32));
        lemma_le_u32_at(bytes, 14, header.crc32);
    }
    assert(le_u32(bytes.skip(18)) == header.compressed_size) by {
        assert(bytes.subrange(18, 22) =~= u32_le(header.compressed_size));
        lemma_le_u32_at(bytes, 18, header.compressed_size);
    }
    assert(le_u32(bytes.skip(22)) == header.uncompressed_size) by {
        assert(bytes.subrange(22, 26) =~= u32_le(header.uncompressed_size));
        lemma_le_u32_at(bytes, 22, header.uncompressed_size);
    }
    assert(le_u16(bytes.skip(26)) == header.name_bytes().len() as u16) by {
        assert(bytes.subrange(26, 28) =~= u16_le(header.name_bytes().len() as u16));
        lemma_le_u16_at(bytes, 26, header.name_bytes().len() as u16);
    }
    assert(le_u16(bytes.skip(28)) == serialize_extra(extra_records(header)).len() as u16) by {
        assert(bytes.subrange(28, 30) =~= u16_le(
            serialize_extra(extra_records(header)).len() as u16,
        ));
        lemma_le_u16_at(bytes, 28, serialize_extra(extra_records(header)).len() as u16);
    }
}

/// Where the name and the extra field lie in the bytes of a header.
proof fn lemma_header_layout(header: LocalFileHeaderView, rest: Seq<u8>)
    ensures
        ({
            let name = header.name_bytes();
            let extra = serialize_extra(extra_records(header));
            let bytes = serialize_header(header) + rest;
            &&& bytes == serialize_prefix(header) + (name + extra + rest)
            &&& bytes.len() == HEADER_PREFIX_LEN + name.len() + extra.len() + rest.len()
            &&& serialize_header(header).len() == HEADER_PREFIX_LEN + name.len() + extra.len()
            &&& bytes.subrange(HEADER_PREFIX_LEN as int, HEADER_PREFIX_LEN + name.len()) == name
            &&& bytes.skip(HEADER_PREFIX_LEN + name.len()) == extra + rest
        }),
{
    let name = header.name_bytes();
    let extra = serialize_extra(extra_records(header));
    let bytes = serialize_header(header) + rest;
    let prefix = serialize_prefix(header);
    assert(prefix.len() == HEADER_PREFIX_LEN);
    assert(bytes =~= prefix + (name + extra + rest));
    assert(bytes.subrange(HEADER_PREFIX_LEN as int, HEADER_PREFIX_LEN + name.len()) =~= name);
    assert(bytes.skip(HEADER_PREFIX_LEN + name.len()) =~= extra + rest);
}

/// A header that can be read back has an extra field exactly where the
/// bytes of its records are some.
proof fn lemma_extra_field_present(header: LocalFileHeaderView)
    requires
        header.extra_field matches Some(records) ==> records.len() > 0,
    ensures
        header.extra_field == if serialize_extra(extra_records(header)).len() > 0 {
            Some(extra_records(header))
        } else {
            None
        },
{
    let records = extra_records(header);
    if records.len() > 0 {
        let first = records[0];
        let head = u16_le(first.id) + u16_le(first.data.len() as u16);
        assert(head.len() == 4);
        assert(serialize_extra(records) == head + first.data + serialize_extra(records.skip(1)));
    } else {
        assert(serialize_extra(records) =~= Seq::<u8>::empty());
    }
}

/// A header that is written and read back is the header that was written:
/// reading the bytes of a header gives that header and takes exactly its
/// bytes, whatever follows them.
pub proof fn lemma_parse_serialize_header(header: LocalFileHeaderView, rest: Seq<u8>)
    requires
        is_serializable(header),
    ensures
        parse_header(serialize_header(header) + rest) == Ok::<ParsedHeader, HeaderFault>(
            ParsedHeader { header, len: serialize_header(header).len() as int },
        ),
{
    let name = header.name_bytes();
    let records = extra_records(header);
    let bytes = serialize_header(header) + rest;
    lemma_header_layout(header, rest);
    lemma_prefix_fields(header, name + serialize_extra(records) + rest);
    vstd::utf8::encode_utf8_valid_utf8(header.file_name);
    vstd::utf8::encode_utf8_decode_utf8(header.file_name);
    lemma_parse_serialize_extra(records, rest);
    lemma_extra_field_present(header);
    lemma_parse_header_by_parts(bytes, header);
}

/// Bytes whose parts are those of `header` are read as `header`.
proof fn lemma_parse_header_by_parts(bytes: Seq<u8>, header: LocalFileHeaderView)
    requires
        header.name_bytes().len() <= MAX_FIELD_LEN,
        serialize_extra(extra_records(header)).len() <= MAX_FIELD_LEN,
        header.data_descriptor is None,
        bytes.len() >= HEADER_PREFIX_LEN + header.name_bytes().len() + serialize_extra(
            extra_records(header),
        ).len(),
        le_u32(bytes) == LOCAL_FILE_HEADER_SIGNATURE,
        le_u16(bytes.skip(4)) == header.extract_version,
        le_u16(bytes.skip(6)) == header.general_purpose_flag,
        le_u16(bytes.skip(8)) == header.compression_method,
        le_u16(bytes.skip(10)) == header.last_mod_file_time,
        le_u16(bytes.skip(12)) == header.last_mod_file_date,
        le_u32(bytes.skip(14)) == header.crc32,
        le_u32(bytes.skip(18)) == header.compressed_size,
        le_u32(bytes.skip(22)) == header.uncompressed_size,
        le_u16(bytes.skip(26)) == header.name_bytes().len() as u16,
        le_u16(bytes.skip(28)) == serialize_extra(extra_records(header)).len() as u16,
        vstd::utf8::valid_utf8(
            bytes.subrange(
                HEADER_PREFIX_LEN as int,
                HEADER_PREFIX_LEN + header.name_bytes().len() as int,
            ),
        ),
        vstd::utf8::decode_utf8(
            bytes.subrange(
                HEADER_PREFIX_LEN as int,
                HEADER_PREFIX_LEN + header.name_bytes().len() as int,
            ),
        ) == header.file_name,
        parse_extra(
            bytes.skip(HEADER_PREFIX_LEN + header.name_bytes().len() as int),
            serialize_extra(extra_records(header)).len(),
        ) == Ok::<Seq<ExtraHeaderView>, HeaderFault>(extra_records(header)),
        header.extra_field == if serialize_extra(extra_records(header)).len() > 0 {
            Some(extra_records(header))
        } else {
            None
        },
    ensures
        parse_header(bytes) == Ok::<ParsedHeader, HeaderFault>(
            ParsedHeader {
                header,
                len: HEADER_PREFIX_LEN + header.name_bytes().len() + serialize_extra(
                    extra_records(header),
                ).len(),
            },
        ),
{
}

/// Pushes the two bytes of `value`, least significant byte first.
fn push_u16(v: &mut Vec<u8>, value: u16)
    ensures
        final(v)@ == old(v)@ + u16_le(value),
{
    v.push((value % 256) as u8);
    v.push((value / 256) as u8);
    assert(v@ =~= old(v)@ + u16_le(value));
}

/// Pushes the four bytes of `value`, least significant byte first.
fn push_u32(v: &mut Vec<u8>, value: u32)
    ensures
        final(v)@ == old(v)@ + u32_le(value),
{
    v.push((value % 256) as u8);
    v.push((value / 256 % 256) as u8);
    v.push((value / 65536 % 256) as u8);
    v.push((value / 16777216) as u8);
    assert(v@ =~= old(v)@ + u32_le(value));
}

impl LocalFileHeader {
    /// The bytes of the records of an extra field, unless they do not fit.
    fn extra_to_bytes(records: &Vec<ExtraHeader>) -> (r: Option<Vec<u8>>)
        ensures
            r is Some <==> serialize_extra(extra_views(records@)).len() <= MAX_FIELD_LEN
                && forall|i: int|
                0 <= i < records@.len() ==> (#[trigger] extra_views(records@)[i]).data.len()
                    <= u16::MAX,
            r matches Some(bytes) ==> bytes@ == serialize_extra(extra_views(records@)),
    {
        let ghost views = extra_views(records@);
        let mut out: Vec<u8> = Vec::new();
        let mut i: usize = 0;
        assert(views.skip(0) =~= views);
        assert(out@ + serialize_extra(views) =~= serialize_extra(views));
        while i < records.len()
            invariant
                i <= records@.len(),
                views == extra_views(records@),
                out@.len() <= MAX_FIELD_LEN,
                out@ + serialize_extra(views.skip(i as int)) == serialize_extra(views),
                forall|k: int| 0 <= k < i ==> (#[trigger] views[k]).data.len() <= u16::MAX,
            decreases records@.len() - i,
        {
            let record = &records[i];
            let ghost done = out@;
            let ghost rest = serialize_extra(views.skip(i + 1));
            proof {
                assert(views.skip(i as int)[0] == record@);
                assert(views.skip(i as int).skip(1) =~= views.skip(i + 1));
                assert(views[i as int] == record@);
            }
            if record.data.len() > 65535 {
                return None;
            }
            let ghost piece = u16_le(record.id) + u16_le(record.data@.len() as u16) + record.data@;
            assert(serialize_extra(views) =~= done + piece + rest);
            if out.len() + 4 + record.data.len() > MAX_FIELD_LEN {
                return None;
            }
            push_u16(&mut out, record.id);
            push_u16(&mut out, record.data.len() as u16);
            append_bytes(&mut out, record.data.as_slice());
            assert(out@ =~= done + piece);
            i += 1;
        }
        assert(serialize_extra(views.skip(i as int)) =~= Seq::<u8>::empty());
        assert(out@ =~= serialize_extra(views));
        Some(out)
    }

    /// The bytes of this header, as they stand in an archive, unless its
    /// lengths do not fit.
    ///
    /// Where the header has no data descriptor, and no extra field
    /// without records, reading the bytes gives the header back.
    pub fn to_bytes(&self) -> (r: Option<Vec<u8>>)
        ensures
            r is Some <==> fits_header(self@),
            r matches Some(bytes) ==> bytes@ == serialize_header(self@),
    {
        let name = self.file_name.as_str().as_bytes();
        let no_records: Vec<ExtraHeader> = Vec::new();
        proof {
            assert(extra_views(no_records@) =~= Seq::<ExtraHeaderView>::empty());
        }
        let extra: Option<Vec<u8>> = match &self.extra_field {
            Some(records) => Self::extra_to_bytes(records),
            None => Self::extra_to_bytes(&no_records),
        };
        let extra: Vec<u8> = match extra {
            Some(extra) => extra,
            None => {
                return None;
            },
        };
        if name.len() > MAX_FIELD_LEN {
            return None;
        }
        let mut bytes: Vec<u8> = Vec::new();
        push_u32(&mut bytes, LOCAL_FILE_HEADER_SIGNATURE);
        push_u16(&mut bytes, self.extract_version);
        push_u16(&mut bytes, self.general_purpose_flag);
        push_u16(&mut bytes, self.compression_method);
        push_u16(&mut bytes, self.last_mod_file_time);
        push_u16(&mut bytes, self.last_mod_file_date);
        push_u32(&mut bytes, self.crc32);
        push_u32(&mut bytes, self.compressed_size);
        push_u32(&mut bytes, self.uncompressed_size);
        push_u16(&mut bytes, name.len() as u16);
        push_u16(&mut bytes, extra.len() as u16);
        assert(bytes@ =~= serialize_prefix(self@));
        append_bytes(&mut bytes, name);
        append_bytes(&mut bytes, extra.as_slice());
        Some(bytes)
    }
}

} // verus!
