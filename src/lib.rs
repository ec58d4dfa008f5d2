use vstd::prelude::*;

pub mod conventional;
pub mod crawler;
pub mod datafiles;
pub mod dirs;
pub mod registry;
pub mod registry_cache;
pub mod retriever;
pub mod text;

pub use crate::conventional::{conventional_hash, hash, make_path_conventional};
pub use crate::crawler::{shadowed_files, Files, ShadowedFile};
pub use crate::dirs::Dirs;
pub use crate::registry::{CacheMetadata, DataInitError, FoRegistry};
pub use crate::retriever::{recognize_type, FileType};

verus! {

/// A modification time: whole seconds since the Unix epoch and the
/// nanoseconds past them.
#[derive(Clone, Copy, Debug, PartialEq, Eq, Structural)]
pub struct ChangeTime {
    pub secs: u64,
    pub nanos: u32,
}

impl ChangeTime {
    /// `self` is not later than `other`.
    pub open spec fn spec_not_after(self, other: ChangeTime) -> bool {
        self.secs < other.secs || (self.secs == other.secs && self.nanos <= other.nanos)
    }

    pub fn not_after(&self, other: &ChangeTime) -> (r: bool)
        ensures
            r == self.spec_not_after(*other),
    {
        self.secs < other.secs || (self.secs == other.secs && self.nanos <= other.nanos)
    }

    /// The earlier of two times.
    pub open spec fn spec_min(self, other: ChangeTime) -> ChangeTime {
        if self.spec_not_after(other) {
            self
        } else {
            other
        }
    }

    pub fn min(&self, other: &ChangeTime) -> (r: ChangeTime)
        ensures
            r == self.spec_min(*other),
    {
        if self.not_after(other) {
            *self
        } else {
            *other
        }
    }
}

/// Where the bytes of a registered file physically live.
#[derive(Debug)]
pub enum FileLocation {
    Archive { index: u16, original_path: String, compressed_size: u64 },
    Local { original_path: String },
}

/// The mathematical value of a [`FileLocation`].
pub enum LocationView {
    Archive { index: u16, original_path: Seq<char>, compressed_size: u64 },
    Local { original_path: Seq<char> },
}

impl View for FileLocation {
    type V = LocationView;

    open spec fn view(&self) -> LocationView {
        match self {
            FileLocation::Archive { index, original_path, compressed_size } => LocationView::Archive {
                index: *index,
                original_path: original_path@,
                compressed_size: *compressed_size,
            },
            FileLocation::Local { original_path } => LocationView::Local {
                original_path: original_path@,
            },
        }
    }
}

impl FileLocation {
    pub fn duplicate(&self) -> (r: FileLocation)
        ensures
            r@ == self@,
    {
        match self {
            FileLocation::Archive { index, original_path, compressed_size } => FileLocation::Archive {
                index: *index,
                original_path: original_path.clone(),
                compressed_size: *compressed_size,
            },
            FileLocation::Local { original_path } => FileLocation::Local {
                original_path: original_path.clone(),
            },
        }
    }

    pub fn is_local(&self) -> (r: bool)
        ensures
            r == (self@ is Local),
    {
        match self {
            FileLocation::Local { .. } => true,
            _ => false,
        }
    }
}

/// A registered file: where it lives and its conventional path.
#[derive(Debug)]
pub struct FileInfo {
    pub location: FileLocation,
    pub conventional_path: String,
}

/// The mathematical value of a [`FileInfo`].
pub struct InfoView {
    pub location: LocationView,
    pub conventional_path: Seq<char>,
}

impl View for FileInfo {
    type V = InfoView;

    open spec fn view(&self) -> InfoView {
        InfoView { location: self.location@, conventional_path: self.conventional_path@ }
    }
}

impl FileInfo {
    pub fn new_in_archive(
        conventional_path: String,
        archive_index: u16,
        original_path: String,
        compressed_size: u64,
    ) -> (r: FileInfo)
        ensures
            r@ == (InfoView {
                location: LocationView::Archive {
                    index: archive_index,
                    original_path: original_path@,
                    compressed_size,
                },
                conventional_path: conventional_path@,
            }),
    {
        FileInfo {
            location: FileLocation::Archive {
                index: archive_index,
                original_path,
                compressed_size,
            },
            conventional_path,
        }
    }

    pub fn new_local(conventional_path: String, original_path: String) -> (r: FileInfo)
        ensures
            r@ == (InfoView {
                location: LocationView::Local { original_path: original_path@ },
                conventional_path: conventional_path@,
            }),
    {
        FileInfo { location: FileLocation::Local { original_path }, conventional_path }
    }

    pub fn duplicate(&self) -> (r: FileInfo)
        ensures
            r@ == self@,
    {
        FileInfo {
            location: self.location.duplicate(),
            conventional_path: self.conventional_path.clone(),
        }
    }

    /// The registry key of this file.
    pub fn hash(&self) -> (r: u32)
        ensures
            r == conventional::path_key(self.conventional_path@),
    {
        conventional::key_of(self.conventional_path.as_str())
    }

    pub fn conventional_path(&self) -> (r: &str)
        ensures
            r@ == self.conventional_path@,
    {
        self.conventional_path.as_str()
    }
}

/// An archive of the registry: its path and its modification time.
#[derive(Debug)]
pub struct FoArchive {
    pub changed: ChangeTime,
    pub path: String,
}

/// Whether a registered path is a file or a directory.
#[derive(Clone, Copy, Debug, PartialEq, Eq, PartialOrd, Ord, Hash, Structural)]
pub enum FoMetadata {
    File,
    Dir,
}

/// The encoding of decoded image data.
#[derive(Clone, Copy, Debug, PartialEq, Eq, Hash, Structural)]
pub enum DataType {
    Png,
    Rgba,
}

} // verus!
