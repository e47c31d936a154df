use epub::container::{Container, DataDescriptor, Entry, EntryKind, MAX_ENTRIES, MAX_PATH_LEN};
use epub::crc::crc32;
use epub::io::InputFile;
use epub::{EPubError, InflateStatus};

const CENTRAL: u32 = 0x02014b50;

/// The bytes of one entry: its header, its payload, and its data
/// descriptor where the flag announces one. The checksum is that of
/// `plain`; with a data descriptor it stands there, and not in the header.
fn entry(flag: u16, method: u16, name: &str, payload: &[u8], plain: &[u8]) -> Vec<u8> {
    let checksum = crc32(plain);
    let mut bytes: Vec<u8> = Vec::new();
    bytes.extend_from_slice(&0x04034b50u32.to_le_bytes());
    bytes.extend_from_slice(&20u16.to_le_bytes());
    bytes.extend_from_slice(&flag.to_le_bytes());
    bytes.extend_from_slice(&method.to_le_bytes());
    bytes.extend_from_slice(&0u16.to_le_bytes());
    bytes.extend_from_slice(&0u16.to_le_bytes());
    bytes.extend_from_slice(&(if flag & 8 != 0 { 0 } else { checksum }).to_le_bytes());
    bytes.extend_from_slice(&(payload.len() as u32).to_le_bytes());
    bytes.extend_from_slice(&(plain.len() as u32).to_le_bytes());
    bytes.extend_from_slice(&(name.len() as u16).to_le_bytes());
    bytes.extend_from_slice(&0u16.to_le_bytes());
    bytes.extend_from_slice(name.as_bytes());
    bytes.extend_from_slice(payload);
    if flag & 8 != 0 {
        bytes.extend_from_slice(&checksum.to_le_bytes());
        bytes.extend_from_slice(&(payload.len() as u32).to_le_bytes());
        bytes.extend_from_slice(&(plain.len() as u32).to_le_bytes());
    }
    bytes
}

fn stored(name: &str, data: &[u8]) -> Vec<u8> {
    entry(0, 0, name, data, data)
}

fn deflated(name: &str, data: &[u8]) -> Vec<u8> {
    entry(0, 8, name, &miniz_oxide::deflate::compress_to_vec(data, 6), data)
}

fn archive(entries: &[Vec<u8>]) -> Vec<u8> {
    let mut bytes: Vec<u8> = entries.concat();
    bytes.extend_from_slice(&CENTRAL.to_le_bytes());
    bytes.extend_from_slice(b"the central directory is not read");
    bytes
}

fn expand(bytes: Vec<u8>) -> Result<Container, EPubError> {
    let mut container = Container::new("dest");
    container.expand("book.epub", InputFile::new(bytes))?;
    Ok(container)
}

fn check(entry: &Entry, path: &str, kind: EntryKind, data: &[u8]) {
    assert_eq!(entry.path, path);
    assert_eq!(entry.kind, kind);
    assert!(entry.data == data);
}

#[test]
fn directory_entry_creates_a_directory() {
    let container = expand(archive(&[entry(0, 0, "sub/", b"", b"")])).unwrap();
    let entries = container.entries();
    assert_eq!(entries.len(), 2);
    check(&entries[0], "dest/sub", EntryKind::Directory, b"");
    check(&entries[1], "dest/fentry.txt", EntryKind::File, b"book.epub\n");
}

#[test]
fn stored_file_is_expanded_with_its_bytes() {
    let container = expand(archive(&[stored("a.txt", b"hi\n")])).unwrap();
    let entries = container.entries();
    assert_eq!(entries.len(), 2);
    check(&entries[0], "dest/a.txt", EntryKind::File, &[0x68, 0x69, 0x0a]);
    assert_eq!(entries[0].data_descriptor, None);
    check(&entries[1], "dest/fentry.txt", EntryKind::File, b"book.epub\na.txt\n");
}

#[test]
fn corrupted_signature_is_a_format_error() {
    // where the first header is expected
    let mut bytes = archive(&[stored("a.txt", b"hi\n")]);
    bytes[..4].copy_from_slice(&[0, 0, 0, 0]);
    assert!(matches!(expand(bytes), Err(EPubError::FormatError(_))));
    // where the central directory is expected
    let mut bytes = archive(&[stored("a.txt", b"hi\n")]);
    let at = stored("a.txt", b"hi\n").len();
    bytes[at..at + 4].copy_from_slice(&[0, 0, 0, 0]);
    assert!(matches!(expand(bytes), Err(EPubError::FormatError(_))));
}

#[test]
fn archive_without_entries_is_only_listed() {
    let container = expand(archive(&[])).unwrap();
    assert_eq!(container.entries().len(), 1);
    check(&container.entries()[0], "dest/fentry.txt", EntryKind::File, b"book.epub\n");
}

#[test]
fn entries_are_expanded_in_their_order() {
    let text: Vec<u8> = (0..100_000).map(|i| b"chapter one "[i % 12]).collect();
    let bytes = archive(&[
        stored("mimetype", b"application/epub+zip"),
        entry(0, 0, "META-INF/", b"", b""),
        deflated("META-INF/container.xml", b"<container/>"),
        entry(0, 0, "OEBPS/", b"", b""),
        deflated("OEBPS/ch1.xhtml", &text),
        stored("OEBPS/empty", b""),
        entry(8, 0, "OEBPS/img/", b"", b""),
        entry(8, 0, "OEBPS/img/dot.gif", b"GIF89a", b"GIF89a"),
    ]);
    let container = expand(bytes).unwrap();
    let entries = container.entries();
    assert_eq!(entries.len(), 8);
    check(&entries[0], "dest/mimetype", EntryKind::File, b"application/epub+zip");
    check(&entries[1], "dest/META-INF", EntryKind::Directory, b"");
    check(&entries[2], "dest/META-INF/container.xml", EntryKind::File, b"<container/>");
    check(&entries[3], "dest/OEBPS", EntryKind::Directory, b"");
    check(&entries[4], "dest/OEBPS/ch1.xhtml", EntryKind::File, &text);
    // a file without bytes is neither file nor directory, and is passed over
    check(&entries[5], "dest/OEBPS/img", EntryKind::Directory, b"");
    let descriptor = DataDescriptor { crc32: 0, compressed_size: 0, uncompressed_size: 0 };
    assert_eq!(entries[5].data_descriptor, Some(descriptor));
    check(&entries[6], "dest/OEBPS/img/dot.gif", EntryKind::File, b"GIF89a");
    let descriptor =
        DataDescriptor { crc32: crc32(b"GIF89a"), compressed_size: 6, uncompressed_size: 6 };
    assert_eq!(entries[6].data_descriptor, Some(descriptor));
    check(
        &entries[7],
        "dest/fentry.txt",
        EntryKind::File,
        b"book.epub\nmimetype\nMETA-INF/container.xml\nOEBPS/ch1.xhtml\nOEBPS/img/dot.gif\n",
    );
}

#[test]
fn expansion_starts_anew_each_time() {
    let mut container = Container::new("dest");
    container.expand("one.epub", InputFile::new(archive(&[stored("a", b"1")]))).unwrap();
    container.expand("two.epub", InputFile::new(archive(&[stored("b", b"2")]))).unwrap();
    assert_eq!(container.entries().len(), 2);
    check(&container.entries()[0], "dest/b", EntryKind::File, b"2");
    check(&container.entries()[1], "dest/fentry.txt", EntryKind::File, b"two.epub\nb\n");
}

#[test]
fn empty_archive_is_refused() {
    assert!(matches!(expand(Vec::new()), Err(EPubError::EmptyFile)));
    let mut container = Container::new("dest");
    let r = container.expand("book.epub", InputFile::failing_after(Vec::new()));
    assert_eq!(r, Err(EPubError::IO));
}

#[test]
fn archive_that_ends_early_is_truncated() {
    let whole = archive(&[stored("a.txt", b"hello")]);
    let end = stored("a.txt", b"hello").len();
    for len in [1usize, 3, 4, 20, 35, 36, 39, end - 1, end, end + 3] {
        assert!(matches!(expand(whole[..len].to_vec()), Err(EPubError::TruncatedRead)), "{}", len);
        let mut container = Container::new("dest");
        let r = container.expand("book.epub", InputFile::failing_after(whole[..len].to_vec()));
        assert_eq!(r, Err(EPubError::IO), "{}", len);
    }
    assert!(expand(whole[..end + 4].to_vec()).is_ok());
    // the data descriptor is part of the entry
    let whole = archive(&[entry(8, 0, "a.txt", b"hello", b"hello")]);
    let end = entry(8, 0, "a.txt", b"hello", b"hello").len();
    assert!(matches!(expand(whole[..end - 1].to_vec()), Err(EPubError::TruncatedRead)));
}

#[test]
fn unsupported_flags_and_methods_are_refused() {
    for flag in [1u16, 0x0010, 0x0009, 0x0800, 0x0808] {
        let r = expand(archive(&[entry(flag & !8, 0, "a", b"x", b"x"), entry(flag, 0, "b", b"y", b"y")]));
        assert!(matches!(r, Err(EPubError::Unimplemented)), "flag {:x}", flag);
    }
    for method in [1u16, 9, 12, 14, 99] {
        let r = expand(archive(&[entry(0, method, "a", b"x", b"x")]));
        assert!(matches!(r, Err(EPubError::Unimplemented)), "method {}", method);
    }
    // sizes that are left to the data descriptor are not supported
    let r = expand(archive(&[entry(8, 8, "a", b"", b"")]));
    assert!(matches!(r, Err(EPubError::Unimplemented)));
}

#[test]
fn names_that_lead_out_of_the_directory_are_refused() {
    for name in ["/etc/passwd", "../up", "a/../../b", "a/b/..", "..", "dots..txt", "/"] {
        let r = expand(archive(&[stored("ok", b"1"), stored(name, b"x")]));
        assert!(matches!(r, Err(EPubError::FormatError(_))), "{}", name);
        let r = expand(archive(&[entry(0, 0, name, b"", b"")]));
        assert!(matches!(r, Err(EPubError::FormatError(_))), "{}", name);
    }
    for name in ["a.b.c", ".hidden", "a/.b/c.", "./a"] {
        assert!(expand(archive(&[stored(name, b"x")])).is_ok(), "{}", name);
    }
}

#[test]
fn long_paths_are_refused() {
    // "dest" and the separator take five bytes
    let name = "n".repeat(MAX_PATH_LEN - 5);
    let container = expand(archive(&[stored(&name, b"x")])).unwrap();
    assert_eq!(container.entries()[0].path.len(), MAX_PATH_LEN);
    let name = "n".repeat(MAX_PATH_LEN - 4);
    assert!(matches!(expand(archive(&[stored(&name, b"x")])), Err(EPubError::PathTooLong)));
    let name = format!("{}/", "d".repeat(MAX_PATH_LEN));
    assert!(matches!(
        expand(archive(&[entry(0, 0, &name, b"", b"")])),
        Err(EPubError::PathTooLong)
    ));
}

#[test]
fn archives_with_too_many_entries_are_refused() {
    let mut entries: Vec<Vec<u8>> = Vec::new();
    for i in 0..MAX_ENTRIES {
        entries.push(stored(&format!("f{}", i), b"x"));
    }
    let container = expand(archive(&entries)).unwrap();
    assert_eq!(container.entries().len(), MAX_ENTRIES + 1);
    entries.push(entry(0, 0, "one/", b"", b""));
    assert!(matches!(expand(archive(&entries)), Err(EPubError::TooManyEntries)));
}

#[test]
fn stored_entries_have_one_size() {
    let r = expand(archive(&[entry(0, 0, "a", b"abc", b"abcd")]));
    assert!(matches!(r, Err(EPubError::FormatError(_))));
}

#[test]
fn broken_deflate_stream_is_reported() {
    let r = expand(archive(&[entry(0, 8, "a", &[0x07, 0, 0, 0], b"0123456789")]));
    assert_eq!(r.err(), Some(EPubError::Decompress(InflateStatus::Failed)));
}

#[test]
fn faulty_header_ends_the_expansion() {
    let mut bad = stored("a", b"x");
    bad[26..28].copy_from_slice(&5000u16.to_le_bytes());
    assert!(matches!(expand(archive(&[bad])), Err(EPubError::TruncatedRead)));
    let mut bad = stored("ab", b"x");
    bad[30] = 0xff;
    assert!(matches!(expand(archive(&[bad])), Err(EPubError::UTF8)));
}

#[test]
fn paths_are_joined_with_a_separator() {
    let container = Container::new("/books/one");
    assert_eq!(container.expanded_file_path("META-INF/container.xml"), "/books/one/META-INF/container.xml");
    assert_eq!(Container::new("").expanded_file_path("a"), "/a");
    assert!(container.entries().is_empty());
}


#[test]
fn checksum_of_a_known_text() {
    assert_eq!(crc32(b"123456789"), 0xcbf43926);
    assert_eq!(crc32(b""), 0);
    assert_eq!(crc32(b"a"), 0xe8b7be43);
    assert_eq!(crc32(b"The quick brown fox jumps over the lazy dog"), 0x414fa339);
}

#[test]
fn stored_data_is_taken_whatever_the_checksum() {
    // the scenario of a stored file with a checksum field of zero
    let mut bytes = archive(&[stored("a.txt", b"hi\n")]);
    bytes[14..18].copy_from_slice(&[0, 0, 0, 0]);
    let container = expand(bytes).unwrap();
    check(&container.entries()[0], "dest/a.txt", EntryKind::File, &[0x68, 0x69, 0x0a]);
    // more than one chunk of the copy, across a block boundary
    let data = vec![0x41u8; 300];
    assert_eq!(crc32(&data), 0xbba03323);
    let mut bytes = archive(&[stored("b.bin", &data)]);
    bytes[14..18].copy_from_slice(&[0, 0, 0, 0]);
    let container = expand(bytes).unwrap();
    assert_eq!(container.entries().len(), 2);
    check(&container.entries()[0], "dest/b.bin", EntryKind::File, &data);
    // with a data descriptor the descriptor's checksum does not count either
    let mut bytes = archive(&[entry(8, 0, "a.txt", b"hello", b"hello")]);
    let at = entry(8, 0, "a.txt", b"hello", b"hello").len() - 12;
    bytes[at] ^= 1;
    let container = expand(bytes).unwrap();
    check(&container.entries()[0], "dest/a.txt", EntryKind::File, b"hello");
}

#[test]
fn inflated_data_must_have_the_declared_checksum() {
    let mut bytes = archive(&[deflated("a.txt", b"hello hello hello hello")]);
    bytes[17] ^= 0x80;
    assert!(matches!(expand(bytes), Err(EPubError::FormatError(_))));
    // with a data descriptor the checksum of the header does not count
    let plain = b"deflate deflate deflate";
    let payload = miniz_oxide::deflate::compress_to_vec(plain, 6);
    let mut bytes = archive(&[entry(8, 8, "a.txt", &payload, plain)]);
    bytes[14] = 0x55;
    assert!(expand(bytes).is_ok());
    let mut bytes = archive(&[entry(8, 8, "a.txt", &payload, plain)]);
    let at = entry(8, 8, "a.txt", &payload, plain).len() - 12;
    bytes[at] ^= 1;
    assert!(matches!(expand(bytes), Err(EPubError::FormatError(_))));
}

#[test]
fn data_descriptor_must_give_the_sizes_of_the_header() {
    let end = entry(8, 0, "a.txt", b"hello", b"hello").len();
    for at in [end - 8, end - 4] {
        let mut bytes = archive(&[entry(8, 0, "a.txt", b"hello", b"hello")]);
        bytes[at] = 6;
        assert!(matches!(expand(bytes), Err(EPubError::FormatError(_))));
    }
    let plain = b"deflate deflate deflate";
    let payload = miniz_oxide::deflate::compress_to_vec(plain, 6);
    assert!(expand(archive(&[entry(8, 8, "a.txt", &payload, plain)])).is_ok());
    let mut bytes = archive(&[entry(8, 8, "a.txt", &payload, plain)]);
    let at = entry(8, 8, "a.txt", &payload, plain).len() - 4;
    bytes[at] += 1;
    assert!(matches!(expand(bytes), Err(EPubError::FormatError(_))));
}
