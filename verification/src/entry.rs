//! Listing rows and the download tasks made from them.

use vstd::prelude::*;
use crate::text::{decimal_value, is_decimal, parse_decimal, same_text};

verus! {

/// One row of a remote listing as it arrives: every field is text.
#[derive(Debug, PartialEq, Eq)]
pub struct RawEntry {
    pub id: String,
    pub title: String,
    pub ext: String,
    pub can_download: String,
    pub size: String,
    pub path: String,
}

/// The characters of a [`RawEntry`], field by field.
pub struct RawEntryView {
    pub id: Seq<char>,
    pub title: Seq<char>,
    pub ext: Seq<char>,
    pub can_download: Seq<char>,
    pub size: Seq<char>,
    pub path: Seq<char>,
}

impl View for RawEntry {
    type V = RawEntryView;

    open spec fn view(&self) -> RawEntryView {
        RawEntryView {
            id: self.id@,
            title: self.title@,
            ext: self.ext@,
            can_download: self.can_download@,
            size: self.size@,
            path: self.path@,
        }
    }
}

/// One child of a remote directory: a file, or a directory to be expanded.
#[derive(Debug, PartialEq, Eq)]
pub struct RemoteEntry {
    pub id: u64,
    pub title: String,
    pub extension: String,
    pub downloadable: bool,
    pub declared_size: u64,
    pub remote_path: String,
}

/// The mathematical content of a [`RemoteEntry`].
pub struct EntryView {
    pub id: u64,
    pub title: Seq<char>,
    pub extension: Seq<char>,
    pub downloadable: bool,
    pub declared_size: nat,
    pub remote_path: Seq<char>,
}

/// The extension that marks a row as a directory rather than a file.
pub open spec fn dir_sentinel() -> Seq<char> {
    seq!['d', 'i', 'r']
}

impl EntryView {
    /// Whether the row stands for a directory.
    pub open spec fn is_directory(self) -> bool {
        self.extension == dir_sentinel()
    }
}

impl View for RemoteEntry {
    type V = EntryView;

    open spec fn view(&self) -> EntryView {
        EntryView {
            id: self.id,
            title: self.title@,
            extension: self.extension@,
            downloadable: self.downloadable,
            declared_size: self.declared_size as nat,
            remote_path: self.remote_path@,
        }
    }
}

impl DeepView for RemoteEntry {
    type V = EntryView;

    open spec fn deep_view(&self) -> EntryView {
        self@
    }
}

impl Clone for RemoteEntry {
    fn clone(&self) -> (r: Self)
        ensures
            r == *self,
    {
        RemoteEntry {
            id: self.id,
            title: self.title.clone(),
            extension: self.extension.clone(),
            downloadable: self.downloadable,
            declared_size: self.declared_size,
            remote_path: self.remote_path.clone(),
        }
    }
}

impl RemoteEntry {
    /// Whether the row stands for a directory.
    pub fn is_directory(&self) -> (r: bool)
        ensures
            r == self@.is_directory(),
    {
        proof {
            reveal_strlit("dir");
        }
        assert("dir"@ =~= dir_sentinel());
        same_text(self.extension.as_str(), "dir")
    }
}

/// Why a listing row could not be understood.
#[derive(Clone, Copy, Debug, PartialEq, Eq, Structural)]
pub enum DecodeError {
    /// The identifier is not an unsigned decimal number of at most 64 bits.
    BadId,
    /// The size is not an unsigned decimal number of at most 64 bits.
    BadSize,
}

/// Whether `s` writes a number that fits in 64 bits.
pub open spec fn is_u64_text(s: Seq<char>) -> bool {
    is_decimal(s) && decimal_value(s) <= u64::MAX
}

/// What a raw row decodes to. The identifier is judged before the size; a
/// row is directly downloadable unless its flag is exactly `"0"`.
pub open spec fn decoded(raw: RawEntryView) -> Result<EntryView, DecodeError> {
    if !is_u64_text(raw.id) {
        Err(DecodeError::BadId)
    } else if !is_u64_text(raw.size) {
        Err(DecodeError::BadSize)
    } else {
        Ok(
            EntryView {
                id: decimal_value(raw.id) as u64,
                title: raw.title,
                extension: raw.ext,
                downloadable: raw.can_download != seq!['0'],
                declared_size: decimal_value(raw.size),
                remote_path: raw.path,
            },
        )
    }
}

/// Turns a raw row into a typed entry, or says which field is malformed.
pub fn decode_entry(raw: RawEntry) -> (r: Result<RemoteEntry, DecodeError>)
    ensures
        match r {
            Ok(e) => decoded(raw@) == Ok::<EntryView, DecodeError>(e@),
            Err(x) => decoded(raw@) == Err::<EntryView, DecodeError>(x),
        },
{
    let id = match parse_decimal(raw.id.as_str()) {
        Some(n) => n,
        None => {
            return Err(DecodeError::BadId);
        },
    };
    let declared_size = match parse_decimal(raw.size.as_str()) {
        Some(n) => n,
        None => {
            return Err(DecodeError::BadSize);
        },
    };
    proof {
        reveal_strlit("0");
    }
    assert("0"@ =~= seq!['0']);
    let downloadable = !same_text(raw.can_download.as_str(), "0");
    Ok(
        RemoteEntry {
            id,
            title: raw.title,
            extension: raw.ext,
            downloadable,
            declared_size,
            remote_path: raw.path,
        },
    )
}

/// A file to fetch, with the directory it was found under.
#[derive(Debug, PartialEq, Eq)]
pub struct FileTask {
    pub entry: RemoteEntry,
    /// Relative to the course root; `"."` is the root itself.
    pub local_relative_dir: String,
}

/// The mathematical content of a [`FileTask`].
pub struct TaskView {
    pub entry: EntryView,
    pub dir: Seq<char>,
}

impl View for FileTask {
    type V = TaskView;

    open spec fn view(&self) -> TaskView {
        TaskView { entry: self.entry@, dir: self.local_relative_dir@ }
    }
}

impl DeepView for FileTask {
    type V = TaskView;

    open spec fn deep_view(&self) -> TaskView {
        self@
    }
}

impl Clone for FileTask {
    fn clone(&self) -> (r: Self)
        ensures
            r == *self,
    {
        FileTask { entry: self.entry.clone(), local_relative_dir: self.local_relative_dir.clone() }
    }
}

} // verus!
