//! The report of a scan.

use crate::text::texts;
use vstd::prelude::*;

verus! {

/// The report: the directories that hold files, and the files that failed.
#[derive(Debug)]
pub struct Document {
    pub schema_version: String,
    pub last_updated: String,
    pub directories: Vec<DirectoryEntry>,
    pub errors: Vec<ErrorEntry>,
}

/// A directory, by its path relative to the scan root, with its files.
#[derive(Debug)]
pub struct DirectoryEntry {
    pub directory_path: String,
    pub files: Vec<FileEntry>,
}

/// A file with the signatures found in it.
#[derive(Debug)]
pub struct FileEntry {
    pub file_name: String,
    pub relative_file_path: String,
    pub last_scanned: String,
    pub signatures: Vec<String>,
    pub summary: Option<String>,
}

/// A file whose extraction failed, with the reason.
#[derive(Debug)]
pub struct ErrorEntry {
    pub path: String,
    pub error: String,
}

/// A `FileEntry` as specifications see it.
pub struct FileView {
    pub file_name: Seq<char>,
    pub relative_file_path: Seq<char>,
    pub last_scanned: Seq<char>,
    pub signatures: Seq<Seq<char>>,
    pub summary: Option<Seq<char>>,
}

/// A `DirectoryEntry` as specifications see it.
pub struct DirectoryView {
    pub directory_path: Seq<char>,
    pub files: Seq<FileView>,
}

/// An `ErrorEntry` as specifications see it.
pub struct ErrorEntryView {
    pub path: Seq<char>,
    pub error: Seq<char>,
}

/// A `Document` as specifications see it.
pub struct DocumentView {
    pub schema_version: Seq<char>,
    pub last_updated: Seq<char>,
    pub directories: Seq<DirectoryView>,
    pub errors: Seq<ErrorEntryView>,
}

impl View for FileEntry {
    type V = FileView;

    open spec fn view(&self) -> FileView {
        FileView {
            file_name: self.file_name@,
            relative_file_path: self.relative_file_path@,
            last_scanned: self.last_scanned@,
            signatures: texts(self.signatures),
            summary: match self.summary {
                Some(s) => Some(s@),
                None => None,
            },
        }
    }
}

/// The views of a list of file entries.
pub open spec fn file_views(files: Vec<FileEntry>) -> Seq<FileView> {
    files@.map_values(|f: FileEntry| f@)
}

impl View for DirectoryEntry {
    type V = DirectoryView;

    open spec fn view(&self) -> DirectoryView {
        DirectoryView { directory_path: self.directory_path@, files: file_views(self.files) }
    }
}

/// The views of a list of directory entries.
pub open spec fn directory_views(directories: Vec<DirectoryEntry>) -> Seq<DirectoryView> {
    directories@.map_values(|d: DirectoryEntry| d@)
}

impl View for ErrorEntry {
    type V = ErrorEntryView;

    open spec fn view(&self) -> ErrorEntryView {
        ErrorEntryView { path: self.path@, error: self.error@ }
    }
}

/// The views of a list of error entries.
pub open spec fn error_views(errors: Vec<ErrorEntry>) -> Seq<ErrorEntryView> {
    errors@.map_values(|e: ErrorEntry| e@)
}

impl View for Document {
    type V = DocumentView;

    open spec fn view(&self) -> DocumentView {
        DocumentView {
            schema_version: self.schema_version@,
            last_updated: self.last_updated@,
            directories: directory_views(self.directories),
            errors: error_views(self.errors),
        }
    }
}

impl Document {
    /// Moves the errors of a scan into the document, after those it holds.
    pub fn merge_errors(&mut self, errors: &mut Vec<ErrorEntry>)
        ensures
            final(self)@.errors == old(self)@.errors + error_views(*old(errors)),
            final(self)@.directories == old(self)@.directories,
            final(self)@.schema_version == old(self)@.schema_version,
            final(self)@.last_updated == old(self)@.last_updated,
            final(errors)@.len() == 0,
    {
        self.errors.append(errors);
        assert(error_views(self.errors) =~= old(self)@.errors + error_views(*old(errors)));
    }
}

impl Default for Document {
    /// The empty report: no version, no time, no entries.
    fn default() -> (d: Document)
        ensures
            d@.schema_version.len() == 0,
            d@.last_updated.len() == 0,
            d@.directories.len() == 0,
            d@.errors.len() == 0,
    {
        Document {
            schema_version: String::new(),
            last_updated: String::new(),
            directories: Vec::new(),
            errors: Vec::new(),
        }
    }
}

} // verus!
