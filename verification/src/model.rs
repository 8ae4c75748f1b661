//! The data an archive is made of, and the mathematical values that the
//! contracts of the reader and the builder speak of.

use vstd::prelude::*;

verus! {

/// Why a buffer is not an archive, or why an archive cannot be built. Where a
/// manifest entry is at fault the error carries its index.
#[derive(Debug, Clone, Copy, PartialEq, Eq)]
pub enum FormatError {
    /// The buffer does not open with the magic value.
    InvalidMagic,
    /// The buffer ends before the fixed header does.
    TruncatedHeader,
    /// The buffer ends inside the manifest, while reading the entry given (or
    /// the entry count, reported as entry 0).
    TruncatedManifest(usize),
    /// The name of the entry given is not UTF-8.
    InvalidUtf8Name(usize),
    /// The payload of the entry given does not lie within the buffer.
    PayloadOutOfBounds(usize),
    /// The file given states a size that is not the length of its data.
    SizeMismatch(usize),
}

/// A manifest record as a mathematical value.
pub struct EntryView {
    pub name: Seq<char>,
    pub size: u32,
    pub size_copy: u32,
    pub offset: u32,
}

/// A file with its bytes as a mathematical value.
pub struct FileView {
    pub name: Seq<char>,
    pub size: u32,
    pub data: Seq<u8>,
}

/// A parsed archive as a mathematical value.
pub struct ArchiveView {
    pub version: u8,
    pub file_count: u32,
    pub file_list: Seq<EntryView>,
    pub file_data: Seq<FileView>,
}

/// One record of the manifest: where a file's payload lies and what it is
/// called. The record stores the size twice; `size` is the first copy, which
/// the reader and the builder go by, and `size_copy` the second.
#[derive(Debug, Clone, PartialEq, Eq)]
pub struct FarFileInfo {
    pub name: String,
    pub size: u32,
    pub size_copy: u32,
    pub offset: u32,
}

/// A file held in memory: its name, the size it states and its bytes.
#[derive(Debug, Clone, PartialEq, Eq)]
pub struct FarFile {
    pub name: String,
    pub size: u32,
    pub data: Vec<u8>,
}

/// An archive's version and manifest, with the files' bytes once they are
/// loaded.
#[derive(Debug, Clone, PartialEq, Eq)]
pub struct FarArchive {
    pub version: u8,
    pub file_count: u32,
    pub file_list: Vec<FarFileInfo>,
    pub file_data: Vec<FarFile>,
}

impl View for FarFileInfo {
    type V = EntryView;

    open spec fn view(&self) -> EntryView {
        EntryView {
            name: self.name@,
            size: self.size,
            size_copy: self.size_copy,
            offset: self.offset,
        }
    }
}

impl View for FarFile {
    type V = FileView;

    open spec fn view(&self) -> FileView {
        FileView { name: self.name@, size: self.size, data: self.data@ }
    }
}

/// The records of `entries` as mathematical values, in the same order.
pub open spec fn entry_views(entries: Seq<FarFileInfo>) -> Seq<EntryView> {
    Seq::new(entries.len(), |i: int| entries[i]@)
}

/// The files of `files` as mathematical values, in the same order.
pub open spec fn file_views(files: Seq<FarFile>) -> Seq<FileView> {
    Seq::new(files.len(), |i: int| files[i]@)
}

impl View for FarArchive {
    type V = ArchiveView;

    open spec fn view(&self) -> ArchiveView {
        ArchiveView {
            version: self.version,
            file_count: self.file_count,
            file_list: entry_views(self.file_list@),
            file_data: file_views(self.file_data@),
        }
    }
}

impl FarArchive {
    /// The entry count is the number of entries held.
    pub open spec fn well_formed(&self) -> bool {
        self.file_count == self.file_list@.len()
    }
}

} // verus!
