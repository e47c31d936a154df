use epub::header::{
    DataDescriptor, ExtraHeader, LocalFileHeader, CENTRAL_DIR_FILE_HEADER,
    LOCAL_FILE_HEADER_SIGNATURE,
};
use epub::inflate::classify_status;
use epub::io::{BufReader, InputFile, MAX_FIELD_LEN};
use epub::{EPubError, InflateStatus};

fn reader(data: &[u8]) -> BufReader {
    BufReader::new(InputFile::new(data.to_vec())).unwrap()
}

/// The bytes of a local file header, field by field.
fn header_bytes(
    flag: u16,
    method: u16,
    crc32: u32,
    compressed: u32,
    uncompressed: u32,
    name: &[u8],
    extra: &[(u16, Vec<u8>)],
) -> Vec<u8> {
    let mut extra_bytes: Vec<u8> = Vec::new();
    for (id, data) in extra {
        extra_bytes.extend_from_slice(&id.to_le_bytes());
        extra_bytes.extend_from_slice(&(data.len() as u16).to_le_bytes());
        extra_bytes.extend_from_slice(data);
    }
    let mut bytes: Vec<u8> = Vec::new();
    bytes.extend_from_slice(&0x04034b50u32.to_le_bytes());
    bytes.extend_from_slice(&20u16.to_le_bytes());
    bytes.extend_from_slice(&flag.to_le_bytes());
    bytes.extend_from_slice(&method.to_le_bytes());
    bytes.extend_from_slice(&0x6c31u16.to_le_bytes());
    bytes.extend_from_slice(&0x5a21u16.to_le_bytes());
    bytes.extend_from_slice(&crc32.to_le_bytes());
    bytes.extend_from_slice(&compressed.to_le_bytes());
    bytes.extend_from_slice(&uncompressed.to_le_bytes());
    bytes.extend_from_slice(&(name.len() as u16).to_le_bytes());
    bytes.extend_from_slice(&(extra_bytes.len() as u16).to_le_bytes());
    bytes.extend_from_slice(name);
    bytes.extend_from_slice(&extra_bytes);
    bytes
}

#[test]
fn signatures_are_those_of_the_format() {
    assert_eq!(LOCAL_FILE_HEADER_SIGNATURE, 0x04034b50);
    assert_eq!(CENTRAL_DIR_FILE_HEADER, 0x02014b50);
    assert!(LocalFileHeader::is_lfh(0x04034b50));
    assert!(!LocalFileHeader::is_lfh(0x02014b50));
    assert!(!LocalFileHeader::is_lfh(0));
}

#[test]
fn header_is_read_field_by_field() {
    let mut bytes = header_bytes(0, 8, 0xdeadbeef, 1234, 5678, b"OEBPS/toc.ncx", &[]);
    bytes.extend_from_slice(&[0xaa, 0xbb]);
    let mut rdr = reader(&bytes);
    let header = LocalFileHeader::read(&mut rdr).unwrap();
    assert_eq!(header.extract_version, 20);
    assert_eq!(header.general_purpose_flag, 0);
    assert_eq!(header.compression_method, 8);
    assert_eq!(header.last_mod_file_time, 0x6c31);
    assert_eq!(header.last_mod_file_date, 0x5a21);
    assert_eq!(header.crc32, 0xdeadbeef);
    assert_eq!(header.compressed_size, 1234);
    assert_eq!(header.uncompressed_size, 5678);
    assert_eq!(header.file_name, "OEBPS/toc.ncx");
    assert!(header.extra_field.is_none());
    assert!(header.data_descriptor.is_none());
    assert!(header.is_file());
    assert!(!header.is_dir());
    assert!(!header.have_data_descriptor());
    // the reader stands behind the header
    assert_eq!(rdr.read2().unwrap(), 0xbbaa);
}

#[test]
fn header_with_extra_fields_is_read_back() {
    let extra = vec![(0x5455u16, vec![1u8, 2, 3, 4, 5]), (0x7875u16, vec![]), (1u16, vec![9u8; 300])];
    let name = "ordner/größe.txt".as_bytes();
    let bytes = header_bytes(8, 0, 7, 0, 0, name, &extra);
    let mut rdr = reader(&bytes);
    let header = LocalFileHeader::read(&mut rdr).unwrap();
    assert_eq!(header.file_name, "ordner/größe.txt");
    assert!(header.have_data_descriptor());
    let records: Vec<ExtraHeader> = header.extra_field.unwrap();
    assert_eq!(records.len(), 3);
    for (record, (id, data)) in records.iter().zip(extra.iter()) {
        assert_eq!(record.id, *id);
        assert_eq!(&record.data, data);
    }
    assert!(rdr.at_end());
}

#[test]
fn header_across_block_boundaries_is_read_back() {
    let name = vec![b'n'; 700];
    let extra = vec![(7u16, vec![3u8; 900])];
    let mut bytes = vec![0u8; 500];
    bytes.extend_from_slice(&header_bytes(0, 8, 1, 2, 3, &name, &extra));
    bytes.extend_from_slice(&0x02014b50u32.to_le_bytes());
    let mut rdr = reader(&bytes);
    let mut skip = vec![0u8; 500];
    rdr.read_to_array(&mut skip).unwrap();
    assert_eq!(rdr.peek4().unwrap(), 0x04034b50);
    let header = LocalFileHeader::read(&mut rdr).unwrap();
    assert_eq!(header.file_name.as_bytes(), &name[..]);
    assert_eq!(header.extra_field.unwrap()[0].data, vec![3u8; 900]);
    assert_eq!(rdr.read4().unwrap(), 0x02014b50);
}

#[test]
fn wrong_signature_is_an_invalid_header() {
    let mut bytes = header_bytes(0, 0, 0, 0, 0, b"a", &[]);
    bytes[0] = 0x51;
    assert!(matches!(
        LocalFileHeader::read(&mut reader(&bytes)),
        Err(EPubError::InvalidLocalHeader)
    ));
    assert!(matches!(
        LocalFileHeader::read(&mut reader(&0x02014b50u32.to_le_bytes())),
        Err(EPubError::InvalidLocalHeader)
    ));
}

#[test]
fn long_file_name_is_refused_before_it_is_read() {
    // the length field claims 5000 bytes; they are not even there
    let mut bytes = header_bytes(0, 0, 0, 0, 0, b"", &[]);
    bytes[26..28].copy_from_slice(&5000u16.to_le_bytes());
    assert!(matches!(LocalFileHeader::read(&mut reader(&bytes)), Err(EPubError::TruncatedRead)));
    // on a failing medium the length is refused all the same
    let mut rdr = BufReader::new(InputFile::failing_after(bytes)).unwrap();
    assert!(matches!(LocalFileHeader::read(&mut rdr), Err(EPubError::TruncatedRead)));
    // the longest name that is accepted
    let name = vec![b'x'; MAX_FIELD_LEN];
    let bytes = header_bytes(0, 0, 0, 0, 0, &name, &[]);
    assert_eq!(LocalFileHeader::read(&mut reader(&bytes)).unwrap().file_name.len(), MAX_FIELD_LEN);
    let name = vec![b'x'; MAX_FIELD_LEN + 1];
    let bytes = header_bytes(0, 0, 0, 0, 0, &name, &[]);
    assert!(matches!(LocalFileHeader::read(&mut reader(&bytes)), Err(EPubError::TruncatedRead)));
}

#[test]
fn long_extra_field_is_refused() {
    let mut bytes = header_bytes(0, 0, 0, 0, 0, b"a", &[]);
    bytes[28..30].copy_from_slice(&((MAX_FIELD_LEN + 1) as u16).to_le_bytes());
    assert!(matches!(LocalFileHeader::read(&mut reader(&bytes)), Err(EPubError::TruncatedRead)));
}

#[test]
fn short_header_is_a_truncated_read() {
    let bytes = header_bytes(0, 0, 0, 0, 0, b"name.txt", &[(1, vec![1, 2, 3])]);
    for len in [0usize, 3, 4, 29, 30, 33, 37, 38, 41, 44] {
        let mut rdr = reader(&bytes[..len]);
        assert!(
            matches!(LocalFileHeader::read(&mut rdr), Err(EPubError::TruncatedRead)),
            "{} bytes",
            len
        );
    }
    assert!(LocalFileHeader::read(&mut reader(&bytes)).is_ok());
    let mut rdr = BufReader::new(InputFile::failing_after(bytes[..33].to_vec())).unwrap();
    assert!(matches!(LocalFileHeader::read(&mut rdr), Err(EPubError::IO)));
}

#[test]
fn file_name_must_be_utf8() {
    let bytes = header_bytes(0, 0, 0, 0, 0, &[b'a', 0xff, b'b'], &[]);
    assert!(matches!(LocalFileHeader::read(&mut reader(&bytes)), Err(EPubError::UTF8)));
}

#[test]
fn extra_field_must_be_filled_by_its_records() {
    // the record claims more data than the field holds
    let mut bytes = header_bytes(0, 0, 0, 0, 0, b"a", &[(1, vec![1, 2, 3])]);
    let at = bytes.len() - 5;
    bytes[at..at + 2].copy_from_slice(&4u16.to_le_bytes());
    bytes.extend_from_slice(&[0; 8]);
    assert!(matches!(LocalFileHeader::read(&mut reader(&bytes)), Err(EPubError::FormatError(_))));
    // the field ends inside the id and length of a record
    let mut bytes = header_bytes(0, 0, 0, 0, 0, b"a", &[(1, vec![1, 2, 3])]);
    bytes[28..30].copy_from_slice(&10u16.to_le_bytes());
    bytes.extend_from_slice(&[0; 8]);
    assert!(matches!(LocalFileHeader::read(&mut reader(&bytes)), Err(EPubError::FormatError(_))));
}

#[test]
fn directories_and_files_are_told_apart() {
    let dir = LocalFileHeader::read(&mut reader(&header_bytes(0, 0, 0, 0, 0, b"sub/", &[])))
        .unwrap();
    assert!(dir.is_dir());
    assert!(!dir.is_file());
    let empty = LocalFileHeader::read(&mut reader(&header_bytes(0, 0, 0, 0, 0, b"sub", &[])))
        .unwrap();
    assert!(!empty.is_dir());
    assert!(!empty.is_file());
    let half = LocalFileHeader::read(&mut reader(&header_bytes(0, 8, 0, 2, 0, b"sub/", &[])))
        .unwrap();
    assert!(!half.is_dir());
    assert!(!half.is_file());
    let nameless = LocalFileHeader::read(&mut reader(&header_bytes(0, 0, 0, 0, 0, b"", &[])))
        .unwrap();
    assert!(!nameless.is_dir());
}

#[test]
fn data_descriptor_flag_is_bit_three() {
    for (flag, expected) in [(0u16, false), (0x0008, true), (0x0010, false), (0x0808, true)] {
        let header =
            LocalFileHeader::read(&mut reader(&header_bytes(flag, 0, 0, 0, 0, b"a", &[]))).unwrap();
        assert_eq!(header.have_data_descriptor(), expected);
    }
}

#[test]
fn data_descriptor_is_three_numbers() {
    let mut bytes: Vec<u8> = Vec::new();
    bytes.extend_from_slice(&0x11223344u32.to_le_bytes());
    bytes.extend_from_slice(&100u32.to_le_bytes());
    bytes.extend_from_slice(&200u32.to_le_bytes());
    bytes.push(0x7f);
    let mut rdr = reader(&bytes);
    let descriptor = DataDescriptor::read(&mut rdr).unwrap();
    assert_eq!(
        descriptor,
        DataDescriptor { crc32: 0x11223344, compressed_size: 100, uncompressed_size: 200 }
    );
    assert_eq!(rdr.read1().unwrap(), 0x7f);
    assert!(matches!(DataDescriptor::read(&mut reader(&bytes[..11])), Err(EPubError::TruncatedRead)));
}

#[test]
fn decompressor_status_decides_how_the_pipeline_goes_on() {
    assert_eq!(classify_status(InflateStatus::HasMoreOutput), Ok(true));
    assert_eq!(classify_status(InflateStatus::NeedsMoreInput), Ok(false));
    assert_eq!(classify_status(InflateStatus::Done), Ok(false));
    for status in [
        InflateStatus::Failed,
        InflateStatus::FailedCannotMakeProgress,
        InflateStatus::BadParam,
        InflateStatus::Adler32Mismatch,
        InflateStatus::Other,
    ] {
        assert_eq!(classify_status(status), Err(EPubError::Decompress(status)));
    }
}

#[test]
fn header_that_is_written_is_read_back() {
    let headers = vec![
        LocalFileHeader {
            extract_version: 20,
            general_purpose_flag: 8,
            compression_method: 8,
            last_mod_file_time: 0x6c31,
            last_mod_file_date: 0x5a21,
            crc32: 0xdeadbeef,
            compressed_size: 0x01020304,
            uncompressed_size: 0xfffefdfc,
            file_name: String::from("OEBPS/größe.xhtml"),
            extra_field: Some(vec![
                ExtraHeader { id: 0x5455, data: vec![1, 2, 3, 4, 5] },
                ExtraHeader { id: 0xffff, data: vec![] },
                ExtraHeader { id: 0, data: vec![0xee; 600] },
            ]),
            data_descriptor: None,
        },
        LocalFileHeader {
            extract_version: 0,
            general_purpose_flag: 0,
            compression_method: 0,
            last_mod_file_time: 0,
            last_mod_file_date: 0,
            crc32: 0,
            compressed_size: 0,
            uncompressed_size: 0,
            file_name: String::new(),
            extra_field: None,
            data_descriptor: None,
        },
    ];
    for header in headers {
        let mut bytes = header.to_bytes().unwrap();
        let len = bytes.len();
        bytes.extend_from_slice(b"what follows the header");
        let mut rdr = reader(&vec![0u8; 400]
            .into_iter()
            .chain(bytes.iter().copied())
            .collect::<Vec<u8>>());
        let mut skip = vec![0u8; 400];
        rdr.read_to_array(&mut skip).unwrap();
        let read = LocalFileHeader::read(&mut rdr).unwrap();
        assert_eq!(format!("{:?}", read), format!("{:?}", header));
        assert_eq!(read.to_bytes().unwrap(), bytes[..len]);
        let mut rest = vec![0u8; 23];
        rdr.read_to_array(&mut rest).unwrap();
        assert_eq!(rest, b"what follows the header");
    }
}

#[test]
fn header_is_written_field_by_field() {
    let header = LocalFileHeader {
        extract_version: 20,
        general_purpose_flag: 0,
        compression_method: 8,
        last_mod_file_time: 0x6c31,
        last_mod_file_date: 0x5a21,
        crc32: 0xdeadbeef,
        compressed_size: 1234,
        uncompressed_size: 5678,
        file_name: String::from("a.txt"),
        extra_field: Some(vec![ExtraHeader { id: 7, data: vec![9, 8] }]),
        data_descriptor: Some(DataDescriptor { crc32: 1, compressed_size: 2, uncompressed_size: 3 }),
    };
    let expected = header_bytes(0, 8, 0xdeadbeef, 1234, 5678, b"a.txt", &[(7, vec![9, 8])]);
    assert_eq!(header.to_bytes().unwrap(), expected);
}

#[test]
fn header_with_long_fields_is_not_written() {
    let mut header = LocalFileHeader {
        extract_version: 20,
        general_purpose_flag: 0,
        compression_method: 0,
        last_mod_file_time: 0,
        last_mod_file_date: 0,
        crc32: 0,
        compressed_size: 0,
        uncompressed_size: 0,
        file_name: "n".repeat(MAX_FIELD_LEN + 1),
        extra_field: None,
        data_descriptor: None,
    };
    assert!(header.to_bytes().is_none());
    header.file_name = "n".repeat(MAX_FIELD_LEN);
    assert!(header.to_bytes().is_some());
    header.extra_field = Some(vec![ExtraHeader { id: 1, data: vec![0; MAX_FIELD_LEN - 3] }]);
    assert!(header.to_bytes().is_none());
    header.extra_field = Some(vec![ExtraHeader { id: 1, data: vec![0; MAX_FIELD_LEN - 4] }]);
    assert!(header.to_bytes().is_some());
    header.extra_field = Some(vec![ExtraHeader { id: 1, data: vec![0; 70000] }]);
    assert!(header.to_bytes().is_none());
}
