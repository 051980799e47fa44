//! Archive entries, the four container formats and what each of them keeps.

use vstd::prelude::*;

use crate::path::copy_bytes;

verus! {

/// A container format.
#[derive(Clone, Copy, Debug, PartialEq, Eq, Hash, Structural)]
pub enum Format {
    Ar,
    Cpio,
    Tar,
    Zip,
}

/// The compression scheme that wraps an archive's byte stream. It is found
/// when the archive is opened and applied again, unchanged, when it is closed.
#[derive(Clone, Copy, Debug, PartialEq, Eq, Hash, Structural)]
pub enum CompressionKind {
    Bzip,
    Deflate,
    Gzip,
    Xz,
    Zlib,
    Zstd,
    /// The stream is stored as it is.
    Stored,
}

/// A piece of metadata that an entry may lack.
#[derive(Clone, Copy, Debug, PartialEq, Eq, Hash, Structural)]
pub enum MetadataField {
    Uid,
    Gid,
    Mode,
    Mtime,
}

/// Why a codec refuses.
#[derive(Clone, Copy, Debug, PartialEq, Eq, Hash, Structural)]
pub enum CodecFault {
    /// The archive's bytes are not an archive of the format.
    Malformed,
    /// The format has no entries of this kind.
    UnsupportedEntry,
    /// The entry is larger than the format can record.
    TooLarge,
}

/// `std::io::Error`, the error of the readers and writers of the outside
/// crates. Nothing of its inside is known here.
#[verifier::external_type_specification]
#[verifier::external_body]
pub struct ExIoError(std::io::Error);

/// What can go wrong between opening an archive and closing it.
#[derive(Clone, Copy, Debug, PartialEq, Eq, Hash, Structural)]
pub enum ArchiveError {
    /// The backing store or the memory filesystem could not be read or written.
    Io,
    /// The archive could not be decoded or encoded.
    Codec(CodecFault),
    /// A piece of metadata that the format records is not to be had.
    Metadata(MetadataField),
}

/// Something worth telling that stops neither open nor close.
#[derive(Clone, Copy, Debug, PartialEq, Eq, Hash, Structural)]
pub enum Diagnostic {
    /// The entry at this place of the archive lacks a piece of metadata that
    /// its format records; a default stands in for it.
    MissingMetadata { entry: usize, field: MetadataField },
    /// Nothing could be learnt about the path at this place of the order; it
    /// is taken for a regular file.
    Unreadable { place: usize },
    /// The path at this place of the order is neither file, directory nor
    /// symbolic link; it is taken for a regular file.
    UnknownType { place: usize },
}

/// What an entry is.
#[derive(Clone, Debug, PartialEq, Eq)]
pub enum EntryKind {
    Regular,
    Directory,
    /// A symbolic link and the target string it carries.
    Symlink { target: Vec<u8> },
    /// A hard link and the stored name of the entry it repeats.
    HardLink { target: Vec<u8> },
}

/// [`EntryKind`] as a mathematical value.
pub enum KindView {
    Regular,
    Directory,
    Symlink { target: Seq<u8> },
    HardLink { target: Seq<u8> },
}

impl View for EntryKind {
    type V = KindView;

    open spec fn view(&self) -> KindView {
        match self {
            EntryKind::Regular => KindView::Regular,
            EntryKind::Directory => KindView::Directory,
            EntryKind::Symlink { target } => KindView::Symlink { target: target@ },
            EntryKind::HardLink { target } => KindView::HardLink { target: target@ },
        }
    }
}

/// The metadata of an entry. A field is `None` where the archive does not
/// say, or where the format does not record it.
#[derive(Clone, Copy, Debug, PartialEq, Eq, Hash, Structural)]
pub struct EntryMetadata {
    pub uid: Option<u32>,
    pub gid: Option<u32>,
    pub mode: Option<u32>,
    /// Seconds since the epoch.
    pub mtime: Option<u64>,
}

/// An entry of an archive: a stored name, a kind, the content of a regular
/// file (empty for the other kinds) and metadata.
#[derive(Clone, Debug, PartialEq, Eq)]
pub struct Entry {
    pub name: Vec<u8>,
    pub kind: EntryKind,
    pub content: Vec<u8>,
    pub metadata: EntryMetadata,
}

/// [`Entry`] as a mathematical value.
pub struct EntryView {
    pub name: Seq<u8>,
    pub kind: KindView,
    pub content: Seq<u8>,
    pub metadata: EntryMetadata,
}

impl View for Entry {
    type V = EntryView;

    open spec fn view(&self) -> EntryView {
        EntryView {
            name: self.name@,
            kind: self.kind@,
            content: self.content@,
            metadata: self.metadata,
        }
    }
}

/// What the reader of a format without directories and links hands over for
/// one file, and what its writer takes: a stored name, the numbers of the
/// header and the content.
#[derive(Clone, Debug, PartialEq, Eq)]
pub struct RawRecord {
    pub name: Vec<u8>,
    pub uid: u32,
    pub gid: u32,
    pub mode: u32,
    pub mtime: u64,
    pub content: Vec<u8>,
}

/// [`RawRecord`] as a mathematical value.
pub struct RecordView {
    pub name: Seq<u8>,
    pub uid: u32,
    pub gid: u32,
    pub mode: u32,
    pub mtime: u64,
    pub content: Seq<u8>,
}

impl View for RawRecord {
    type V = RecordView;

    open spec fn view(&self) -> RecordView {
        RecordView {
            name: self.name@,
            uid: self.uid,
            gid: self.gid,
            mode: self.mode,
            mtime: self.mtime,
            content: self.content@,
        }
    }
}

/// The views of a vector of records.
pub open spec fn record_views(records: Seq<RawRecord>) -> Seq<RecordView> {
    Seq::new(records.len(), |i: int| records[i]@)
}

impl Entry {
    /// The size that the entry's header records: the length of the content.
    pub fn size(&self) -> (size: u64)
        ensures
            size == self@.content.len(),
    {
        self.content.len() as u64
    }
}

/// The views of a vector of entries.
pub open spec fn entry_views(entries: Seq<Entry>) -> Seq<EntryView> {
    Seq::new(entries.len(), |i: int| entries[i]@)
}

/// Which pieces of metadata a format records.
#[derive(Clone, Copy, Debug, PartialEq, Eq, Hash, Structural)]
pub struct Carried {
    pub uid: bool,
    pub gid: bool,
    pub mode: bool,
    pub mtime: bool,
}

/// Whether the archives of a format can hold an entry of this kind. Only tar
/// has entries for directories and links; in the others directories are
/// implied by the names of the files.
pub open spec fn supports(format: Format, kind: KindView) -> bool {
    format == Format::Tar || kind is Regular
}

/// The metadata that a format records: ar owner, group, mode and
/// modification time; cpio and tar owner, group and mode; zip the mode.
pub open spec fn carried(format: Format) -> Carried {
    match format {
        Format::Ar => Carried { uid: true, gid: true, mode: true, mtime: true },
        Format::Cpio => Carried { uid: true, gid: true, mode: true, mtime: false },
        Format::Tar => Carried { uid: true, gid: true, mode: true, mtime: false },
        Format::Zip => Carried { uid: false, gid: false, mode: true, mtime: false },
    }
}

/// What a format keeps of a piece of metadata: the value where the format
/// records the field, else nothing.
pub open spec fn recorded<T>(records: bool, value: Option<T>) -> Option<T> {
    if records {
        value
    } else {
        None
    }
}

/// Whether a format stores names without the leading separator.
pub open spec fn stores_relative_names(format: Format) -> bool {
    format == Format::Ar || format == Format::Tar
}

/// Whether the content of a decoded file loses one trailing NUL byte. Only
/// cpio content does.
pub open spec fn trims_trailing_nul(format: Format) -> bool {
    format == Format::Cpio
}

/// The content without its last byte where that byte is NUL; any other
/// content as it is.
pub open spec fn without_trailing_nul(content: Seq<u8>) -> Seq<u8> {
    if content.len() > 0 && content.last() == 0 {
        content.drop_last()
    } else {
        content
    }
}

impl Format {
    /// Whether the archives of this format can hold an entry of this kind.
    pub fn supports(self, kind: &EntryKind) -> (yes: bool)
        ensures
            yes == supports(self, kind@),
    {
        match self {
            Format::Tar => true,
            _ => match kind {
                EntryKind::Regular => true,
                _ => false,
            },
        }
    }

    /// The metadata that this format records.
    pub fn carried(self) -> (fields: Carried)
        ensures
            fields == carried(self),
    {
        match self {
            Format::Ar => Carried { uid: true, gid: true, mode: true, mtime: true },
            Format::Cpio => Carried { uid: true, gid: true, mode: true, mtime: false },
            Format::Tar => Carried { uid: true, gid: true, mode: true, mtime: false },
            Format::Zip => Carried { uid: false, gid: false, mode: true, mtime: false },
        }
    }

    /// Whether this format stores names without the leading separator.
    pub fn stores_relative_names(self) -> (yes: bool)
        ensures
            yes == stores_relative_names(self),
    {
        match self {
            Format::Ar => true,
            Format::Tar => true,
            _ => false,
        }
    }

    /// Whether the content of a decoded file loses one trailing NUL byte.
    pub fn trims_trailing_nul(self) -> (yes: bool)
        ensures
            yes == trims_trailing_nul(self),
    {
        match self {
            Format::Cpio => true,
            _ => false,
        }
    }
}

/// The content of a decoded file without one trailing NUL byte, if it ends
/// in one.
pub fn trim_trailing_nul(content: &[u8]) -> (trimmed: Vec<u8>)
    ensures
        trimmed@ == without_trailing_nul(content@),
{
    let n = content.len();
    let keep = if n > 0 && content[n - 1] == 0 { n - 1 } else { n };
    let mut trimmed: Vec<u8> = Vec::new();
    let mut i: usize = 0;
    while i < keep
        invariant
            i <= keep <= content.len(),
            trimmed@ == content@.take(i as int),
        decreases keep - i,
    {
        trimmed.push(content[i]);
        i += 1;
        assert(trimmed@ == content@.take(i as int));
    }
    assert(content@.take(n as int) == content@);
    assert(n > 0 ==> content@.take(n - 1) == content@.drop_last());
    trimmed
}


/// The value of an owner, group or mode, zero where there is none.
pub open spec fn number_or_zero(value: Option<u32>) -> u32 {
    match value {
        Some(number) => number,
        None => 0,
    }
}

/// The value of a modification time, zero where there is none.
pub open spec fn time_or_zero(value: Option<u64>) -> u64 {
    match value {
        Some(number) => number,
        None => 0,
    }
}

/// The record that is written for an entry: its name, its content and its
/// metadata, zero standing for what the entry lacks.
pub open spec fn record_of(entry: EntryView) -> RecordView {
    RecordView {
        name: entry.name,
        uid: number_or_zero(entry.metadata.uid),
        gid: number_or_zero(entry.metadata.gid),
        mode: number_or_zero(entry.metadata.mode),
        mtime: time_or_zero(entry.metadata.mtime),
        content: entry.content,
    }
}

/// Whether every entry is a regular file.
pub open spec fn all_regular(entries: Seq<EntryView>) -> bool {
    forall|i: int| 0 <= i < entries.len() ==> (#[trigger] entries[i]).kind is Regular
}

/// The record that is written for an entry.
pub fn record_for(entry: &Entry) -> (record: RawRecord)
    ensures
        record@ == record_of(entry@),
{
    RawRecord {
        name: copy_bytes(entry.name.as_slice()),
        uid: match entry.metadata.uid {
            Some(number) => number,
            None => 0,
        },
        gid: match entry.metadata.gid {
            Some(number) => number,
            None => 0,
        },
        mode: match entry.metadata.mode {
            Some(number) => number,
            None => 0,
        },
        mtime: match entry.metadata.mtime {
            Some(number) => number,
            None => 0,
        },
        content: copy_bytes(entry.content.as_slice()),
    }
}

/// Whether every entry is a regular file.
pub fn check_all_regular(entries: &Vec<Entry>) -> (yes: bool)
    ensures
        yes == all_regular(entry_views(entries@)),
{
    let mut i: usize = 0;
    while i < entries.len()
        invariant
            i <= entries.len(),
            forall|j: int| 0 <= j < i ==> (#[trigger] entry_views(entries@)[j]).kind is Regular,
        decreases entries.len() - i,
    {
        match &entries[i].kind {
            EntryKind::Regular => {},
            _ => {
                assert(!(entry_views(entries@)[i as int].kind is Regular));
                return false;
            },
        }
        i += 1;
    }
    true
}

} // verus!
