//! Reading EPUB books from block storage.
//!
//! An EPUB file is a ZIP archive. This crate walks the archive entry by
//! entry through a double-buffered block reader, inflates or copies every
//! entry into the expanded book, and reads the book's package and
//! navigation documents.

use vstd::prelude::*;

pub mod arena;
pub mod container;
pub mod crc;
pub mod error;
pub mod header;
pub mod inflate;
pub mod io;
pub mod mbr;
pub mod navigation;
pub mod package;
pub mod path;
pub mod sax;

pub use crate::error::{EPubError, InflateStatus};

use crate::container::{
    archive_plan, entries_match, entry_path, is_rootfile_read, reports_walk_fault, Container,
    Entry, EntryKind, EntryView, Rootfile,
};
use crate::io::{lines_error, split_lines, BufReader, InputFile};
use crate::navigation::{is_toc_read, Toc, TocView};
use crate::package::{is_package_read, toc_path_of, Package, PackageView};
use crate::sax::{is_text_file, same_text, text_view};

verus! {

/// What is known of a book.
#[derive(Debug, Clone, Copy, PartialEq, Eq, Structural)]
pub enum BookState {
    /// the book was not expanded, or it is not known whether it was
    Unopened,
    /// the book was expanded
    Expanded,
    /// the book was expanded, and its package document was read
    MetadataLoaded,
}

/// An epub file
#[derive(Debug)]
pub struct EPubFile {
    pub epub_filepath: String,
    expanded_filepath: String,
    container: Option<Container>,
    package: Option<Package>,
    toc: Option<Toc>,
}

impl EPubFile {
    /// The directory of the book that is being read.
    pub const CUR_BOOK_DIR: &'static str = "CUR_BOOK";

    /// The directory, under that of the book, that the archive is expanded into.
    pub const EXPAND_DIR: &'static str = "/expanded";

    /// The file, under the directory of the book, that names the archive
    /// that was expanded.
    pub const EPUB_FILE_MEMO: &'static str = "/epub_file.txt";

    /// The path of the archive.
    pub closed spec fn archive_path(&self) -> Seq<char> {
        self.epub_filepath@
    }

    /// The directory of the expanded book.
    pub closed spec fn expanded_dir(&self) -> Seq<char> {
        self.expanded_filepath@
    }

    /// The directory that the archive is expanded into.
    pub open spec fn container_dir(&self) -> Seq<char> {
        self.expanded_dir() + EPubFile::EXPAND_DIR@
    }

    /// What was expanded, once the book was expanded or found expanded;
    /// nothing is listed for a book that was found expanded.
    pub closed spec fn roster(&self) -> Option<Seq<EntryView>> {
        match self.container {
            Some(container) => Some(container.roster()),
            None => None,
        }
    }

    /// The package, once it was read.
    pub closed spec fn package_view(&self) -> Option<PackageView> {
        match self.package {
            Some(package) => Some(package@),
            None => None,
        }
    }

    /// The table of contents, once it was read.
    pub closed spec fn toc_view(&self) -> Option<TocView> {
        match self.toc {
            Some(toc) => Some(toc@),
            None => None,
        }
    }

    /// What is known of the book.
    pub open spec fn spec_state(&self) -> BookState {
        if self.roster() is None {
            BookState::Unopened
        } else if self.package_view() is None {
            BookState::Expanded
        } else {
            BookState::MetadataLoaded
        }
    }

    /// Whether nothing was read that cannot be used: there is no package
    /// without an expanded book, and no table of contents without a package.
    pub closed spec fn wf(&self) -> bool {
        &&& self.package_view() is Some ==> self.roster() is Some
        &&& self.toc_view() is Some ==> self.package_view() is Some
        &&& self.container matches Some(container) ==> container.dir_path()
            == self.container_dir()
    }

    /// create EPubFile with a filename path
    pub fn new(epub_filepath: &str, expanded_filepath: &str) -> (book: EPubFile)
        ensures
            book.wf(),
            book.archive_path() == epub_filepath@,
            book.expanded_dir() == expanded_filepath@,
            book.spec_state() == BookState::Unopened,
            book.toc_view() is None,
    {
        EPubFile {
            epub_filepath: String::from_str(epub_filepath),
            expanded_filepath: String::from_str(expanded_filepath),
            container: None,
            package: None,
            toc: None,
        }
    }

    /// What is known of the book.
    #[verifier::when_used_as_spec(spec_state)]
    pub fn state(&self) -> (state: BookState)
        ensures
            state == self.spec_state(),
    {
        if self.container.is_none() {
            BookState::Unopened
        } else if self.package.is_none() {
            BookState::Expanded
        } else {
            BookState::MetadataLoaded
        }
    }

    /// The path of the file that names the archive that was expanded.
    pub fn memo_path(&self) -> (path: String)
        ensures
            path@ == self.expanded_dir() + EPubFile::EPUB_FILE_MEMO@,
    {
        let mut path: String = String::from_str(self.expanded_filepath.as_str());
        path.append(EPubFile::EPUB_FILE_MEMO);
        path
    }

    /// The path of the directory that the archive is expanded into.
    pub fn container_path(&self) -> (path: String)
        ensures
            path@ == self.container_dir(),
    {
        let mut path: String = String::from_str(self.expanded_filepath.as_str());
        path.append(EPubFile::EXPAND_DIR);
        path
    }

    /// Whether the lines of a memo name the archive `epub_filepath`: the
    /// first line is its path.
    pub open spec fn memo_names(lines: Seq<Seq<u8>>, epub_filepath: Seq<char>) -> bool {
        lines.len() > 0 && vstd::utf8::decode_utf8(lines[0]) == epub_filepath
    }

    /// check if epub file has already been expanded
    ///
    /// `memo` is the file at [`EPubFile::memo_path`], if it can be opened.
    /// The book was expanded where the first line of that file is the
    /// path of the archive.
    pub fn has_expanded(&self, memo: Option<InputFile>) -> (r: Result<bool, EPubError>)
        requires
            memo matches Some(file) ==> file.wf(),
        ensures
            match memo {
                None => r == Ok::<bool, EPubError>(false),
                Some(file) => if is_text_file(file) {
                    r == Ok::<bool, EPubError>(
                        EPubFile::memo_names(split_lines(file.remaining()), self.archive_path()),
                    )
                } else {
                    r == Err::<bool, EPubError>(
                        lines_error(split_lines(file.remaining()), file.faulty()),
                    )
                },
            },
    {
        match memo {
            Some(f) => {
                proof {
                    if f.remaining().len() == 0 {
                        assert(split_lines(f.remaining()) =~= Seq::<Seq<u8>>::empty());
                    }
                }
                let mut rdr: BufReader = BufReader::new(f)?;
                let lines: Vec<String> = rdr.read_lines()?;
                if lines.len() > 0 {
                    Ok(same_text(lines[0].as_str(), self.epub_filepath.as_str()))
                } else {
                    Ok(false)
                }
            },
            None => Ok(false),
        }
    }

    /// The memo that records the expansion: the file at
    /// [`EPubFile::memo_path`] with the path of the archive in it.
    pub fn memo(&self) -> (memo: Entry)
        ensures
            memo@ == (EntryView {
                path: self.expanded_dir() + EPubFile::EPUB_FILE_MEMO@,
                kind: EntryKind::File,
                data: vstd::utf8::encode_utf8(self.archive_path()),
                data_descriptor: None,
            }),
    {
        let bytes = self.epub_filepath.as_str().as_bytes();
        Entry {
            path: self.memo_path(),
            kind: EntryKind::File,
            data: vstd::slice::slice_to_vec(bytes),
            data_descriptor: None,
        }
    }

    /// expand the epub file into a directory
    ///
    /// What was read of the book before is dropped. The archive is
    /// expanded as [`Container::expand`] says, into the directory
    /// [`EPubFile::container_path`]. Where that fails, the book is unopened.
    pub fn expand(&mut self, epub_file: InputFile) -> (r: Result<(), EPubError>)
        requires
            epub_file.wf(),
        ensures
            final(self).wf(),
            final(self).archive_path() == old(self).archive_path(),
            final(self).expanded_dir() == old(self).expanded_dir(),
            final(self).package_view() is None,
            final(self).toc_view() is None,
            r is Ok <==> final(self).roster() is Some,
            epub_file.remaining().len() == 0 ==> r == Err::<(), EPubError>(
                if epub_file.faulty() {
                    EPubError::IO
                } else {
                    EPubError::EmptyFile
                },
            ),
            epub_file.remaining().len() > 0 ==> ({
                let plan = archive_plan(
                    old(self).container_dir(),
                    epub_file.remaining(),
                    0,
                    epub_file.faulty(),
                );
                &&& r is Ok <==> plan.fault is None
                &&& r matches Err(e) ==> plan.fault matches Some(fault) && reports_walk_fault(
                    e,
                    fault,
                    epub_file.faulty(),
                )
                &&& r is Ok ==> {
                    &&& final(self).roster()->Some_0.len() == plan.entries.len() + 1
                    &&& entries_match(final(self).roster()->Some_0.drop_last(), plan.entries)
                    &&& final(self).roster()->Some_0.last() == Container::file_list_entry(
                        old(self).container_dir(),
                        vstd::utf8::encode_utf8(old(self).archive_path()),
                        plan.entries,
                    )
                }
            }),
    {
        // clear out cached stuff, in case this is called twice
        self.container = None;
        self.package = None;
        self.toc = None;
        let container_filepath: String = self.container_path();
        let mut con: Container = Container::new(container_filepath.as_str());
        con.expand(self.epub_filepath.as_str(), epub_file)?;
        self.container = Some(con);
        Ok(())
    }

    /// The container of the expanded book, once the book was expanded or
    /// found expanded.
    pub fn container(&self) -> (r: Option<&Container>)
        ensures
            r is Some <==> self.roster() is Some,
            r matches Some(container) ==> Some(container.roster()) == self.roster(),
    {
        self.container.as_ref()
    }

    /// Makes sure that the book was expanded, and returns the path of the
    /// file that names the package document.
    ///
    /// `memo` is the file at [`EPubFile::memo_path`], if it can be opened.
    /// A book whose container is known already needs no memo. Any other
    /// book was expanded where [`EPubFile::has_expanded`] says so.
    pub fn open_container(&mut self, memo: Option<InputFile>) -> (r: Result<String, EPubError>)
        requires
            old(self).wf(),
            memo matches Some(file) ==> file.wf(),
        ensures
            final(self).wf(),
            final(self).archive_path() == old(self).archive_path(),
            final(self).expanded_dir() == old(self).expanded_dir(),
            final(self).package_view() == old(self).package_view(),
            final(self).toc_view() == old(self).toc_view(),
            r is Ok <==> final(self).roster() is Some,
            r matches Ok(path) ==> path@ == entry_path(
                old(self).container_dir(),
                Container::EPUB_CONTAINER_FILE@,
            ),
            old(self).roster() is Some ==> r is Ok && final(self).roster() == old(self).roster(),
            old(self).roster() is None ==> match memo {
                None => r == Err::<String, EPubError>(EPubError::EPubFileNotExpanded),
                Some(file) => if !is_text_file(file) {
                    r == Err::<String, EPubError>(
                        lines_error(split_lines(file.remaining()), file.faulty()),
                    )
                } else if EPubFile::memo_names(
                    split_lines(file.remaining()),
                    old(self).archive_path(),
                ) {
                    r is Ok && final(self).roster() == Some(Seq::<EntryView>::empty())
                } else {
                    r == Err::<String, EPubError>(EPubError::EPubFileNotExpanded)
                },
            },
    {
        if self.container.is_none() {
            if self.has_expanded(memo)? {
                let container_filepath: String = self.container_path();
                self.container = Some(Container::new(container_filepath.as_str()));
            } else {
                return Err(EPubError::EPubFileNotExpanded);
            }
        }
        match &self.container {
            Some(con) => Ok(con.expanded_file_path(Container::EPUB_CONTAINER_FILE)),
            None => Err(EPubError::EPubFileNotExpanded),
        }
    }

    /// read the container metadata from the epub
    ///
    /// `container_file` is the file at the path that
    /// [`EPubFile::open_container`] has returned. The result is the root
    /// file that it names, as [`Container::get_container_rootfile`] says. A
    /// book that was not expanded is refused.
    pub fn read_container(&mut self, container_file: InputFile) -> (r: Result<
        Option<Rootfile>,
        EPubError,
    >)
        requires
            old(self).wf(),
            container_file.wf(),
        ensures
            *final(self) == *old(self),
            old(self).roster() is None ==> r == Err::<Option<Rootfile>, EPubError>(
                EPubError::EPubFileNotExpanded,
            ),
            old(self).roster() is Some ==> is_rootfile_read(
                r,
                old(self).container_dir(),
                container_file,
            ),
    {
        match &self.container {
            Some(con) => con.get_container_rootfile(container_file),
            None => Err(EPubError::EPubFileNotExpanded),
        }
    }

    /// Whether `r` and the package `kept` are the outcome of reading the
    /// package document `file` with the name `name`: the package is read as
    /// [`is_package_read`] says and kept, and the path of its table of
    /// contents is returned.
    pub open spec fn is_package_kept(
        r: Result<Option<String>, EPubError>,
        kept: Option<PackageView>,
        name: Seq<char>,
        file: InputFile,
    ) -> bool {
        match r {
            Ok(path) => exists|package: Package|
                #![auto]
                is_package_read(Ok(package), name, file) && kept == Some(package@) && text_view(path)
                    == toc_path_of(package@),
            Err(e) => is_package_read(Err(e), name, file),
        }
    }

    /// Reads the package document, and returns the path of the table of
    /// contents that it names, if it names one.
    ///
    /// `opf_file` is the file at the full path of `root_file`. The package
    /// is read as [`Package::read`] says, and kept. A book that was not
    /// expanded is refused.
    pub fn read_package(&mut self, root_file: &Rootfile, opf_file: InputFile) -> (r: Result<
        Option<String>,
        EPubError,
    >)
        requires
            old(self).wf(),
            opf_file.wf(),
        ensures
            final(self).wf(),
            final(self).archive_path() == old(self).archive_path(),
            final(self).expanded_dir() == old(self).expanded_dir(),
            final(self).roster() == old(self).roster(),
            final(self).toc_view() == old(self).toc_view(),
            r is Err ==> final(self).package_view() == old(self).package_view(),
            old(self).roster() is None ==> r == Err::<Option<String>, EPubError>(
                EPubError::EPubFileNotExpanded,
            ),
            old(self).roster() is Some ==> EPubFile::is_package_kept(
                r,
                final(self).package_view(),
                root_file.full_path@,
                opf_file,
            ),
    {
        if self.container.is_none() {
            return Err(EPubError::EPubFileNotExpanded);
        }
        let pkg: Package = Package::read(root_file.full_path.as_str(), opf_file)?;
        let tocpath: Option<String> = pkg.toc_path();
        self.package = Some(pkg);
        Ok(tocpath)
    }

    /// Reads the table of contents, and keeps it.
    ///
    /// `toc_file` is the file at the path that [`EPubFile::read_package`]
    /// has returned. The table of contents is read as [`Toc::read`] says. A
    /// book whose package was not read is refused.
    pub fn read_toc(&mut self, toc_file: InputFile) -> (r: Result<(), EPubError>)
        requires
            old(self).wf(),
            toc_file.wf(),
        ensures
            final(self).wf(),
            final(self).archive_path() == old(self).archive_path(),
            final(self).expanded_dir() == old(self).expanded_dir(),
            final(self).roster() == old(self).roster(),
            final(self).package_view() == old(self).package_view(),
            r is Err ==> final(self).toc_view() == old(self).toc_view(),
            old(self).package_view() is None ==> r == Err::<(), EPubError>(
                EPubError::EPubFileNotExpanded,
            ),
            old(self).package_view() is Some ==> match r {
                Ok(()) => exists|toc: Toc|
                    #![auto]
                    is_toc_read(Ok(toc), toc_file) && final(self).toc_view() == Some(toc@),
                Err(e) => is_toc_read(Err(e), toc_file),
            },
    {
        if self.package.is_none() {
            return Err(EPubError::EPubFileNotExpanded);
        }
        let toc: Toc = Toc::read(toc_file)?;
        self.toc = Some(toc);
        Ok(())
    }

    /// The package of the book, once it was read.
    pub fn get_package(&self) -> (r: Result<&Package, EPubError>)
        ensures
            match self.package_view() {
                Some(package) => r matches Ok(got) && got@ == package,
                None => r matches Err(e) && e == EPubError::EPubFileNotExpanded,
            },
    {
        match &self.package {
            Some(package) => Ok(package),
            None => Err(EPubError::EPubFileNotExpanded),
        }
    }

    /// The table of contents of the book, once it was read.
    pub fn get_toc(&self) -> (r: Result<&Toc, EPubError>)
        ensures
            match self.toc_view() {
                Some(toc) => r matches Ok(got) && got@ == toc,
                None => r matches Err(e) && e == EPubError::EPubFileNotExpanded,
            },
    {
        match &self.toc {
            Some(toc) => Ok(toc),
            None => Err(EPubError::EPubFileNotExpanded),
        }
    }
}

} // verus!
