use epub::container::EntryKind;
use epub::crc::crc32;
use epub::io::InputFile;
use epub::{BookState, EPubError, EPubFile};

fn stored(name: &str, data: &[u8]) -> Vec<u8> {
    let mut bytes: Vec<u8> = Vec::new();
    bytes.extend_from_slice(&0x04034b50u32.to_le_bytes());
    bytes.extend_from_slice(&[20, 0, 0, 0, 0, 0, 0, 0, 0, 0]);
    bytes.extend_from_slice(&crc32(data).to_le_bytes());
    bytes.extend_from_slice(&(data.len() as u32).to_le_bytes());
    bytes.extend_from_slice(&(data.len() as u32).to_le_bytes());
    bytes.extend_from_slice(&(name.len() as u16).to_le_bytes());
    bytes.extend_from_slice(&0u16.to_le_bytes());
    bytes.extend_from_slice(name.as_bytes());
    bytes.extend_from_slice(data);
    bytes
}

const CONTAINER: &str = "<container><rootfiles>\n<rootfile full-path=\"OEBPS/content.opf\" media-type=\"application/oebps-package+xml\"/>\n</rootfiles></container>\n";

const OPF: &str = "<package version=\"2.0\" unique-identifier=\"id\">\n<manifest>\n<item id=\"ch1\" href=\"ch1.xhtml\" media-type=\"application/xhtml+xml\"/>\n<item id=\"ncx\" href=\"toc.ncx\" media-type=\"application/x-dtbncx+xml\"/>\n</manifest>\n<spine toc=\"ncx\"><itemref idref=\"ch1\"/></spine>\n</package>\n";

const NCX: &str = "<ncx><docTitle><text>Title</text></docTitle><navMap>\n<navPoint id=\"n1\" playOrder=\"1\"><navLabel><text>One</text></navLabel><content src=\"ch1.xhtml\"/></navPoint>\n</navMap></ncx>\n";

fn archive() -> Vec<u8> {
    let mut bytes = stored("META-INF/container.xml", CONTAINER.as_bytes());
    bytes.extend_from_slice(&stored("OEBPS/content.opf", OPF.as_bytes()));
    bytes.extend_from_slice(&stored("OEBPS/toc.ncx", NCX.as_bytes()));
    bytes.extend_from_slice(&0x02014b50u32.to_le_bytes());
    bytes
}

fn file(text: &str) -> InputFile {
    InputFile::new(text.as_bytes().to_vec())
}

#[test]
fn paths_of_a_book() {
    let book = EPubFile::new("RUSTPR~1.EPU", "CUR_BOOK");
    assert_eq!(book.epub_filepath, "RUSTPR~1.EPU");
    assert_eq!(book.memo_path(), "CUR_BOOK/epub_file.txt");
    assert_eq!(book.container_path(), "CUR_BOOK/expanded");
    assert_eq!(EPubFile::CUR_BOOK_DIR, "CUR_BOOK");
    assert_eq!(EPubFile::EXPAND_DIR, "/expanded");
    assert_eq!(EPubFile::EPUB_FILE_MEMO, "/epub_file.txt");
    assert_eq!(book.state(), BookState::Unopened);
    let memo = book.memo();
    assert_eq!(memo.path, "CUR_BOOK/epub_file.txt");
    assert_eq!(memo.kind, EntryKind::File);
    assert_eq!(memo.data, b"RUSTPR~1.EPU");
}

#[test]
fn memo_tells_whether_the_book_was_expanded() {
    let book = EPubFile::new("book.epub", "dir");
    assert_eq!(book.has_expanded(None), Ok(false));
    assert_eq!(book.has_expanded(Some(file("book.epub"))), Ok(true));
    assert_eq!(book.has_expanded(Some(InputFile::new(book.memo().data))), Ok(true));
    assert_eq!(book.has_expanded(Some(file("other.epub"))), Ok(false));
    assert_eq!(book.has_expanded(Some(file("book.epub\n"))), Ok(false));
    assert_eq!(book.has_expanded(Some(file("other.epub\nbook.epub"))), Ok(false));
    assert_eq!(book.has_expanded(Some(file(""))), Ok(false));
    assert_eq!(book.has_expanded(Some(InputFile::new(vec![0xff]))), Err(EPubError::UTF8));
    let failing = InputFile::failing_after(b"book.epub".to_vec());
    assert_eq!(book.has_expanded(Some(failing)), Err(EPubError::IO));
}

#[test]
fn book_is_expanded_and_read_step_by_step() {
    let mut book = EPubFile::new("book.epub", "dir");
    assert_eq!(book.get_package().err(), Some(EPubError::EPubFileNotExpanded));
    assert_eq!(book.get_toc().err(), Some(EPubError::EPubFileNotExpanded));
    assert_eq!(book.read_container(file(CONTAINER)).err(), Some(EPubError::EPubFileNotExpanded));
    assert!(book.container().is_none());

    book.expand(InputFile::new(archive())).unwrap();
    assert_eq!(book.state(), BookState::Expanded);
    let entries = book.container().unwrap().entries();
    assert_eq!(entries.len(), 4);
    assert_eq!(entries[0].path, "dir/expanded/META-INF/container.xml");
    assert_eq!(entries[1].path, "dir/expanded/OEBPS/content.opf");
    assert_eq!(entries[2].path, "dir/expanded/OEBPS/toc.ncx");
    assert_eq!(entries[3].path, "dir/expanded/fentry.txt");
    assert_eq!(
        entries[3].data,
        b"book.epub\nMETA-INF/container.xml\nOEBPS/content.opf\nOEBPS/toc.ncx\n"
    );

    // a book that was just expanded needs no memo
    let path = book.open_container(None).unwrap();
    assert_eq!(path, entries_path(&book, 0));
    let container_file = InputFile::new(book.container().unwrap().entries()[0].data.clone());
    let root = book.read_container(container_file).unwrap().unwrap();
    assert_eq!(root.full_path, "dir/expanded/OEBPS/content.opf");
    assert_eq!(book.read_toc(file(NCX)), Err(EPubError::EPubFileNotExpanded));

    let toc_path = book.read_package(&root, file(OPF)).unwrap();
    assert_eq!(toc_path.as_deref(), Some("dir/expanded/OEBPS//toc.ncx"));
    assert_eq!(book.state(), BookState::MetadataLoaded);
    assert_eq!(book.get_package().unwrap().version, "2.0");
    assert_eq!(book.get_package().unwrap().base_dir, "dir/expanded/OEBPS/");
    assert_eq!(book.get_toc().err(), Some(EPubError::EPubFileNotExpanded));

    book.read_toc(file(NCX)).unwrap();
    let toc = book.get_toc().unwrap();
    assert_eq!(toc.doc_title, "Title");
    assert_eq!(toc.nav_points.len(), 1);
    assert_eq!(toc.nav_points[0].label, "One");

    // expanding again drops what was read
    book.expand(InputFile::new(archive())).unwrap();
    assert_eq!(book.state(), BookState::Expanded);
    assert!(book.get_toc().is_err());
}

fn entries_path(book: &EPubFile, index: usize) -> String {
    book.container().unwrap().entries()[index].path.clone()
}

#[test]
fn book_that_was_expanded_before_is_opened_by_its_memo() {
    let mut book = EPubFile::new("book.epub", "dir");
    assert_eq!(book.open_container(None), Err(EPubError::EPubFileNotExpanded));
    assert_eq!(book.open_container(Some(file("other.epub"))), Err(EPubError::EPubFileNotExpanded));
    assert_eq!(book.state(), BookState::Unopened);
    assert_eq!(book.open_container(Some(InputFile::new(vec![0xc0]))), Err(EPubError::UTF8));
    let path = book.open_container(Some(file("book.epub"))).unwrap();
    assert_eq!(path, "dir/expanded/META-INF/container.xml");
    assert_eq!(book.state(), BookState::Expanded);
    assert!(book.container().unwrap().entries().is_empty());
    let root = book.read_container(file(CONTAINER)).unwrap().unwrap();
    let toc_path = book.read_package(&root, file("<package><spine toc=\"x\"/></package>")).unwrap();
    assert_eq!(toc_path, None);
    assert_eq!(book.state(), BookState::MetadataLoaded);
}

#[test]
fn failed_expansion_leaves_the_book_unopened() {
    let mut book = EPubFile::new("book.epub", "dir");
    book.expand(InputFile::new(archive())).unwrap();
    let mut bytes = archive();
    bytes.truncate(100);
    assert_eq!(book.expand(InputFile::new(bytes)), Err(EPubError::TruncatedRead));
    assert_eq!(book.state(), BookState::Unopened);
    assert_eq!(book.expand(InputFile::new(Vec::new())), Err(EPubError::EmptyFile));
    assert_eq!(book.state(), BookState::Unopened);
}
