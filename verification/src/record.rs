//! The rows of a snapshot: the output of the walk.

use vstd::prelude::*;
use crate::listing::{EntryMetadata, FileType, TreeNodeView};

verus! {

/// What a row says that its entry is.
#[derive(Clone, Copy, Debug, PartialEq, Eq)]
pub enum EntryKind {
    File,
    Directory,
}

impl EntryKind {
    /// The kind under which an entry of the given type is recorded: a regular
    /// file as a file, everything else as a directory.
    pub open spec fn of_type(file_type: FileType) -> EntryKind {
        if file_type is File {
            EntryKind::File
        } else {
            EntryKind::Directory
        }
    }

    /// The word that stands for the kind in a document.
    pub open spec fn label(self) -> Seq<char> {
        match self {
            EntryKind::File => "file"@,
            EntryKind::Directory => "directory"@,
        }
    }

    /// Computes [`EntryKind::of_type`].
    pub fn from_file_type(file_type: FileType) -> (kind: EntryKind)
        ensures
            kind == EntryKind::of_type(file_type),
    {
        match file_type {
            FileType::File => EntryKind::File,
            FileType::Directory => EntryKind::Directory,
            FileType::Other => EntryKind::Directory,
        }
    }

    /// Returns [`EntryKind::label`]: `"file"` or `"directory"`.
    pub fn as_str(&self) -> (word: &'static str)
        ensures
            word@ == self.label(),
    {
        match self {
            EntryKind::File => "file",
            EntryKind::Directory => "directory",
        }
    }
}

/// One row of a snapshot.
#[derive(Clone, Debug, PartialEq, Eq)]
pub struct FileInfo {
    /// Base name of the entry.
    pub key: String,
    pub kind: EntryKind,
    /// Base name of the entry, as `key`.
    pub name: String,
    /// Creation time in seconds since the epoch, 0 where unknown.
    pub ctime: u64,
    /// Modification time in seconds since the epoch, 0 where unknown.
    pub mtime: u64,
    /// Size in bytes, 0 for a row of kind directory.
    pub size: u64,
    /// The ordinal of the row. It comes from the counter of the walk, not
    /// from the file system.
    pub inode: u64,
}

/// The mathematical value of a [`FileInfo`].
pub struct FileInfoView {
    pub key: Seq<char>,
    pub kind: EntryKind,
    pub name: Seq<char>,
    pub ctime: nat,
    pub mtime: nat,
    pub size: nat,
    pub inode: nat,
}

impl View for FileInfo {
    type V = FileInfoView;

    open spec fn view(&self) -> FileInfoView {
        FileInfoView {
            key: self.key@,
            kind: self.kind,
            name: self.name@,
            ctime: self.ctime as nat,
            mtime: self.mtime as nat,
            size: self.size as nat,
            inode: self.inode as nat,
        }
    }
}

impl FileInfoView {
    /// What holds of every row that a walk writes: key and name agree, and a
    /// row of kind directory has size 0.
    pub open spec fn well_formed(self) -> bool {
        &&& self.key == self.name
        &&& self.kind is Directory ==> self.size == 0
    }
}

/// Seconds since the epoch of a time that may be unavailable: the epoch
/// itself where it is.
pub open spec fn seconds_or_epoch(time: Option<u64>) -> nat {
    match time {
        Some(seconds) => seconds as nat,
        None => 0,
    }
}

/// The row of an entry named `name` with metadata `metadata` that was
/// discovered when the counter stood at `ordinal`.
pub open spec fn discovery_row(name: Seq<char>, metadata: EntryMetadata, ordinal: nat) -> FileInfoView {
    FileInfoView {
        key: name,
        kind: EntryKind::of_type(metadata.file_type),
        name: name,
        ctime: seconds_or_epoch(metadata.created),
        mtime: seconds_or_epoch(metadata.modified),
        size: if metadata.file_type is File {
            metadata.len as nat
        } else {
            0
        },
        inode: ordinal,
    }
}

/// The row that closes a subdirectory named `label`, where `ordinal` is the
/// value of the counter once the subdirectory has been walked. It carries
/// nothing of the directory's own metadata.
pub open spec fn summary_row(label: Seq<char>, ordinal: nat) -> FileInfoView {
    FileInfoView {
        key: label,
        kind: EntryKind::Directory,
        name: label,
        ctime: 0,
        mtime: 0,
        size: 0,
        inode: ordinal,
    }
}

impl FileInfo {
    /// Builds the row of a discovered entry.
    pub fn discovered(name: &String, metadata: &EntryMetadata, ordinal: u64) -> (row: FileInfo)
        ensures
            row@ == discovery_row(name@, *metadata, ordinal as nat),
    {
        let kind = EntryKind::from_file_type(metadata.file_type);
        let ctime: u64 = match metadata.created {
            Some(seconds) => seconds,
            None => 0,
        };
        let mtime: u64 = match metadata.modified {
            Some(seconds) => seconds,
            None => 0,
        };
        let size: u64 = match metadata.file_type {
            FileType::File => metadata.len,
            _ => 0,
        };
        FileInfo { key: name.clone(), kind, name: name.clone(), ctime, mtime, size, inode: ordinal }
    }

    /// Builds the row that closes a subdirectory.
    pub fn summary(label: String, ordinal: u64) -> (row: FileInfo)
        ensures
            row@ == summary_row(label@, ordinal as nat),
    {
        FileInfo {
            key: label.clone(),
            kind: EntryKind::Directory,
            name: label,
            ctime: 0,
            mtime: 0,
            size: 0,
            inode: ordinal,
        }
    }
}

/// The snapshot of one directory.
#[derive(Clone, Debug, PartialEq, Eq)]
pub struct DirectoryInfo {
    /// Base name of the directory.
    pub identifier: String,
    /// The rows of its entries, in the order of the listing.
    pub tuples: Vec<FileInfo>,
    /// Always 0: the ordinals of a walk live in its counter and in the rows.
    pub inode: u64,
}

/// The mathematical value of a [`DirectoryInfo`].
pub struct DirectoryInfoView {
    pub identifier: Seq<char>,
    pub tuples: Seq<FileInfoView>,
    pub inode: nat,
}

impl View for DirectoryInfo {
    type V = DirectoryInfoView;

    open spec fn view(&self) -> DirectoryInfoView {
        DirectoryInfoView {
            identifier: self.identifier@,
            tuples: self.tuples@.map_values(|row: FileInfo| row@),
            inode: self.inode as nat,
        }
    }
}

} // verus!
