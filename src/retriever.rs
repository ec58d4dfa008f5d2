use vstd::prelude::*;

use crate::conventional::path_key;
use crate::registry::FoRegistry;
use crate::text::push_char;
use crate::{FileInfo, FileLocation, LocationView};

verus! {

/// The kind of content that a path's extension announces.
#[derive(Debug, PartialEq)]
pub enum FileType {
    Png,
    Frm,
    Gif,
    FoFrm,
    Unsupported(String),
    Unknown,
}

/// The mathematical value of a [`FileType`].
pub enum FileTypeView {
    Png,
    Frm,
    Gif,
    FoFrm,
    Unsupported(Seq<char>),
    Unknown,
}

impl View for FileType {
    type V = FileTypeView;

    open spec fn view(&self) -> FileTypeView {
        match self {
            FileType::Png => FileTypeView::Png,
            FileType::Frm => FileTypeView::Frm,
            FileType::Gif => FileTypeView::Gif,
            FileType::FoFrm => FileTypeView::FoFrm,
            FileType::Unsupported(e) => FileTypeView::Unsupported(e@),
            FileType::Unknown => FileTypeView::Unknown,
        }
    }
}

/// A character with ASCII capitals made small.
pub open spec fn ascii_lower_char(c: char) -> char {
    if 'A' <= c && c <= 'Z' {
        ((c as u8) + 32u8) as char
    } else {
        c
    }
}

pub open spec fn ascii_lower(s: Seq<char>) -> Seq<char> {
    s.map_values(|c: char| ascii_lower_char(c))
}

/// The file type announced by an extension, compared without regard to
/// ASCII case.
pub open spec fn type_of(ext: Option<Seq<char>>) -> FileTypeView {
    match ext {
        None => FileTypeView::Unknown,
        Some(e) => {
            let l = ascii_lower(e);
            if l == seq!['p', 'n', 'g'] {
                FileTypeView::Png
            } else if l == seq!['f', 'r', 'm'] {
                FileTypeView::Frm
            } else if l == seq!['g', 'i', 'f'] {
                FileTypeView::Gif
            } else if l == seq!['f', 'o', 'f', 'r', 'm'] {
                FileTypeView::FoFrm
            } else {
                FileTypeView::Unsupported(l)
            }
        },
    }
}

/// The extension of a path as std's `Path::extension` reads it, where it
/// is valid Unicode.
pub uninterp spec fn extension_of(path: Seq<char>) -> Option<Seq<char>>;

/// Relies on `std::path::Path::extension`: the text after the last `.` of
/// the final component, if that component has one not at its start.
#[verifier::external_body]
fn path_extension(path: &str) -> (r: Option<String>)
    ensures
        r matches Some(e) ==> extension_of(path@) == Some(e@),
        r is None ==> extension_of(path@) is None,
{
    std::path::Path::new(path).extension().and_then(|e| e.to_str()).map(|e| e.to_owned())
}

fn lower_ascii(s: &str) -> (r: String)
    ensures
        r@ == ascii_lower(s@),
{
    let mut out = String::new();
    for c in it: s.chars()
        invariant
            it.seq() == s@,
            out@ == ascii_lower(s@.take(it.index() as int)),
    {
        let ghost k = it.index();
        let l = if 'A' <= c && c <= 'Z' {
            ((c as u8) + 32u8) as char
        } else {
            c
        };
        push_char(&mut out, l);
        assert(s@.take(k + 1) == s@.take(k as int).push(c));
    }
    assert(s@.take(s@.len() as int) == s@);
    out
}

fn is_word(s: &String, word: &str) -> (r: bool)
    ensures
        r == (s@ == word@),
{
    *s == word.to_owned()
}

/// The file type announced by an extension.
pub fn type_of_extension(ext: &str) -> (r: FileType)
    ensures
        r@ == type_of(Some(ext@)),
{
    let l = lower_ascii(ext);
    proof {
        reveal_strlit("png");
        reveal_strlit("frm");
        reveal_strlit("gif");
        reveal_strlit("fofrm");
        assert("png"@ =~= seq!['p', 'n', 'g']);
        assert("frm"@ =~= seq!['f', 'r', 'm']);
        assert("gif"@ =~= seq!['g', 'i', 'f']);
        assert("fofrm"@ =~= seq!['f', 'o', 'f', 'r', 'm']);
    }
    if is_word(&l, "png") {
        FileType::Png
    } else if is_word(&l, "frm") {
        FileType::Frm
    } else if is_word(&l, "gif") {
        FileType::Gif
    } else if is_word(&l, "fofrm") {
        FileType::FoFrm
    } else {
        FileType::Unsupported(l)
    }
}

/// The file type announced by the extension of `path`.
pub fn recognize_type(path: &str) -> (r: FileType)
    ensures
        r@ == type_of(extension_of(path@)),
{
    match path_extension(path) {
        Some(e) => type_of_extension(e.as_str()),
        None => FileType::Unknown,
    }
}

/// Where the bytes of a registered file are to be read.
#[derive(Debug)]
pub enum Source {
    /// The entry `entry_name` of the archive `index`, a file at `archive_path`.
    Archive { index: u16, archive_path: String, entry_name: String },
    /// A file of the local tree.
    Local { path: String },
}

/// Why a path could not be located.
#[derive(Debug, PartialEq, Eq, Structural)]
pub enum LocateError {
    /// No file is registered under the path's key.
    NotFound,
    /// The file names an archive that the registry does not hold.
    InvalidArchiveIndex,
}

impl FoRegistry {
    /// Where the bytes of `path` are to be read. The path must already be
    /// conventional: it is hashed as it stands.
    pub fn locate(&self, path: &str) -> (r: Result<Source, LocateError>)
        ensures
            !self.files@.contains_key(path_key(path@)) ==> r == Err::<Source, LocateError>(
                LocateError::NotFound,
            ),
            self.files@.contains_key(path_key(path@)) ==> match self.files@[path_key(
                path@,
            )].location {
                LocationView::Local { original_path } => r matches Ok(Source::Local { path: p })
                    && p@ == original_path,
                LocationView::Archive { index, original_path, .. } => if index
                    < self.archives@.len() {
                    r matches Ok(Source::Archive { index: i, archive_path, entry_name }) && i
                        == index && archive_path@ == self.archives@[index as int].path@
                        && entry_name@ == original_path
                } else {
                    r == Err::<Source, LocateError>(LocateError::InvalidArchiveIndex)
                },
            },
    {
        match self.files.file_info(path) {
            None => Err(LocateError::NotFound),
            Some(info) => match &info.location {
                FileLocation::Local { original_path } => Ok(
                    Source::Local { path: original_path.clone() },
                ),
                FileLocation::Archive { index, original_path, .. } => {
                    if (*index as usize) < self.archives.len() {
                        Ok(
                            Source::Archive {
                                index: *index,
                                archive_path: self.archives[*index as usize].path.clone(),
                                entry_name: original_path.clone(),
                            },
                        )
                    } else {
                        Err(LocateError::InvalidArchiveIndex)
                    }
                },
            },
        }
    }

    /// The file behind a conventional path: the archive that holds it, or
    /// the local file.
    pub fn file_location(&self, path: &str) -> (r: Option<&String>)
        ensures
            !self.files@.contains_key(path_key(path@)) ==> r is None,
            self.files@.contains_key(path_key(path@)) ==> match self.files@[path_key(
                path@,
            )].location {
                LocationView::Local { original_path } => r matches Some(p) && p@ == original_path,
                LocationView::Archive { index, .. } => if index < self.archives@.len() {
                    r matches Some(p) && p@ == self.archives@[index as int].path@
                } else {
                    r is None
                },
            },
    {
        match self.files.file_info(path) {
            None => None,
            Some(info) => info.location(self),
        }
    }
}

impl FileInfo {
    /// The archive that holds this file, or the local file itself.
    pub fn location<'a>(&'a self, data: &'a FoRegistry) -> (r: Option<&'a String>)
        ensures
            match self.location@ {
                LocationView::Local { original_path } => r matches Some(p) && p@ == original_path,
                LocationView::Archive { index, .. } => if index < data.archives@.len() {
                    r matches Some(p) && p@ == data.archives@[index as int].path@
                } else {
                    r is None
                },
            },
    {
        match &self.location {
            FileLocation::Archive { index, .. } => {
                if (*index as usize) < data.archives.len() {
                    Some(&data.archives[*index as usize].path)
                } else {
                    None
                }
            },
            FileLocation::Local { original_path } => Some(original_path),
        }
    }
}

} // verus!
