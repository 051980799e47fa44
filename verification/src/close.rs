//! Closing: from what the memory filesystem says about each path to the
//! entries that are encoded, in the order of the path set.

use vstd::prelude::*;

use crate::entry::{
    carried, recorded, stores_relative_names, ArchiveError, Diagnostic, Entry, EntryKind,
    EntryMetadata, EntryView, Format, KindView, MetadataField,
};
use crate::kept::kept_time;
use crate::path::{absolute, copy_bytes, relative, ArchivePath};

verus! {

/// What the metadata of a path says.
#[derive(Clone, Copy, Debug, PartialEq, Eq, Hash, Structural)]
pub struct NodeInfo {
    pub is_symlink: bool,
    pub is_dir: bool,
    pub is_file: bool,
    /// The permission bits.
    pub mode: u32,
    /// The owner, if it is to be had.
    pub uid: Option<u32>,
    /// The group, if it is to be had.
    pub gid: Option<u32>,
    /// The modification time in seconds since the epoch, if it is to be had.
    pub mtime: Option<u64>,
}

/// What the memory filesystem says about one path: the target, if the path
/// could be read as a symbolic link; the metadata, if it could be read; the
/// content, if the path could be read as a file.
#[derive(Clone, Debug, PartialEq, Eq)]
pub struct Observation {
    pub link_target: Option<Vec<u8>>,
    pub info: Option<NodeInfo>,
    pub content: Option<Vec<u8>>,
}

/// [`Observation`] as a mathematical value.
pub struct ObservationView {
    pub link_target: Option<Seq<u8>>,
    pub info: Option<NodeInfo>,
    pub content: Option<Seq<u8>>,
}

impl View for Observation {
    type V = ObservationView;

    open spec fn view(&self) -> ObservationView {
        ObservationView {
            link_target: match self.link_target {
                Some(target) => Some(target@),
                None => None,
            },
            info: self.info,
            content: match self.content {
                Some(content) => Some(content@),
                None => None,
            },
        }
    }
}

/// The observation of a path about which nothing could be learnt.
pub open spec fn unreadable() -> ObservationView {
    ObservationView { link_target: None, info: None, content: None }
}

/// The observation that belongs to the path at `place`: the one at that
/// place of the list, and [`unreadable`] where the list is too short.
pub open spec fn observation_at(observations: Seq<ObservationView>, place: int) -> ObservationView {
    if 0 <= place < observations.len() {
        observations[place]
    } else {
        unreadable()
    }
}

/// The views of a vector of observations.
pub open spec fn observation_views(observations: Seq<Observation>) -> Seq<ObservationView> {
    Seq::new(observations.len(), |i: int| observations[i]@)
}

/// What a path is taken for when the archive is closed.
#[derive(Clone, Copy, Debug, PartialEq, Eq, Hash, Structural)]
pub enum NodeClass {
    Regular,
    Directory,
    Symlink,
}

/// The class of a path. A path that can be read as a link is a symbolic
/// link. Otherwise its metadata decides: symbolic link, directory or file,
/// asked in that order. A path whose metadata says none of these, or cannot
/// be read, is taken for a regular file.
pub open spec fn classify(link_read: bool, info: Option<NodeInfo>) -> NodeClass {
    if link_read {
        NodeClass::Symlink
    } else {
        match info {
            Some(node) => if node.is_symlink {
                NodeClass::Symlink
            } else if node.is_dir {
                NodeClass::Directory
            } else {
                NodeClass::Regular
            },
            None => NodeClass::Regular,
        }
    }
}

/// The diagnostic that goes with the class of the path at `place`: one where
/// the path was taken for a regular file for want of anything better.
pub open spec fn classification_diagnostics(place: usize, link_read: bool, info: Option<NodeInfo>) -> Seq<Diagnostic> {
    if link_read {
        Seq::<Diagnostic>::empty()
    } else {
        match info {
            Some(node) => if !node.is_symlink && !node.is_dir && !node.is_file {
                seq![Diagnostic::UnknownType { place }]
            } else {
                Seq::<Diagnostic>::empty()
            },
            None => seq![Diagnostic::Unreadable { place }],
        }
    }
}

/// Whether a format writes an entry for a path of this class. Every format
/// writes its files; tar writes directories and symbolic links too, the
/// others leave directories to be implied by the names of the files.
pub open spec fn emits(format: Format, class: NodeClass) -> bool {
    class == NodeClass::Regular || format == Format::Tar
}

/// The name under which a format stores a path.
pub open spec fn stored_name(format: Format, path: Seq<Seq<u8>>) -> Seq<u8> {
    if stores_relative_names(format) {
        relative(path)
    } else {
        absolute(path)
    }
}

/// The modification time that is written for a path: the time that is
/// kept for it since the archive was opened, else the time that the memory
/// filesystem reports.
pub open spec fn written_time(kept: Option<u64>, seen: Option<u64>) -> Option<u64> {
    if kept is Some {
        kept
    } else {
        seen
    }
}

/// The metadata that a format records for a file or directory, or the piece
/// that it records and that is not to be had: owner, group and modification
/// time are asked in that order. The modification time is the one of
/// [`written_time`].
pub open spec fn node_metadata(format: Format, node: NodeInfo, kept: Option<u64>) -> Result<
    EntryMetadata,
    ArchiveError,
> {
    let records = carried(format);
    let time = written_time(kept, node.mtime);
    if records.uid && node.uid is None {
        Err(ArchiveError::Metadata(MetadataField::Uid))
    } else if records.gid && node.gid is None {
        Err(ArchiveError::Metadata(MetadataField::Gid))
    } else if records.mtime && time is None {
        Err(ArchiveError::Metadata(MetadataField::Mtime))
    } else {
        Ok(
            EntryMetadata {
                uid: recorded(records.uid, node.uid),
                gid: recorded(records.gid, node.gid),
                mode: recorded(records.mode, Some(node.mode)),
                mtime: recorded(records.mtime, time),
            },
        )
    }
}

/// The mode that stands in for the mode of a path about which nothing
/// could be learnt: read and write for the owner, read for the others.
pub const DEFAULT_MODE: u32 = 0o644;

/// The metadata that stands in for the metadata of a path about which
/// nothing could be learnt: of what the format records, owner and group
/// zero, the default mode, and the kept modification time or zero.
pub open spec fn fallback_metadata(format: Format, kept: Option<u64>) -> EntryMetadata {
    let records = carried(format);
    EntryMetadata {
        uid: recorded(records.uid, Some(0u32)),
        gid: recorded(records.gid, Some(0u32)),
        mode: recorded(records.mode, Some(DEFAULT_MODE)),
        mtime: recorded(records.mtime, written_time(kept, Some(0u64))),
    }
}

/// The content that is written for a file: what could be read, and nothing
/// where nothing could.
pub open spec fn content_or_empty(content: Option<Seq<u8>>) -> Seq<u8> {
    match content {
        Some(bytes) => bytes,
        None => Seq::<u8>::empty(),
    }
}

/// The metadata of an entry that has none of its own.
pub open spec fn no_metadata() -> EntryMetadata {
    EntryMetadata { uid: None, gid: None, mode: None, mtime: None }
}

/// The entry that a format writes for a path, `None` where it writes none,
/// or the reason why the entry cannot be had. `kept` is the modification
/// time that is kept for the path, if one is.
///
/// - A symbolic link carries its target; a path whose metadata says link
///   and whose target could not be read gives an I/O error.
/// - A path about which nothing could be learnt, neither target nor
///   metadata, is written as a regular file with what content could be read
///   and with [`fallback_metadata`]: one such path does not stop the close.
/// - A directory carries the metadata that the format records.
/// - A regular file carries its content and the metadata that the format
///   records; a file whose content could not be read gives an I/O error.
pub open spec fn emitted_entry(
    format: Format,
    path: Seq<Seq<u8>>,
    kept: Option<u64>,
    observed: ObservationView,
) -> Result<Option<EntryView>, ArchiveError> {
    let class = classify(observed.link_target is Some, observed.info);
    let name = stored_name(format, path);
    if !emits(format, class) {
        Ok(None)
    } else if class == NodeClass::Symlink {
        if observed.link_target is Some {
            Ok(
                Some(
                    EntryView {
                        name,
                        kind: KindView::Symlink { target: observed.link_target->0 },
                        content: Seq::<u8>::empty(),
                        metadata: no_metadata(),
                    },
                ),
            )
        } else {
            Err(ArchiveError::Io)
        }
    } else if observed.info is None {
        Ok(
            Some(
                EntryView {
                    name,
                    kind: KindView::Regular,
                    content: content_or_empty(observed.content),
                    metadata: fallback_metadata(format, kept),
                },
            ),
        )
    } else if class == NodeClass::Directory {
        match node_metadata(format, observed.info->0, kept) {
            Ok(metadata) => Ok(
                Some(EntryView { name, kind: KindView::Directory, content: Seq::<u8>::empty(), metadata }),
            ),
            Err(error) => Err(error),
        }
    } else if observed.content is None {
        Err(ArchiveError::Io)
    } else {
        match node_metadata(format, observed.info->0, kept) {
            Ok(metadata) => Ok(
                Some(EntryView { name, kind: KindView::Regular, content: observed.content->0, metadata }),
            ),
            Err(error) => Err(error),
        }
    }
}

/// The entries that are encoded when an archive is closed: for each path of
/// the order but the root, in that order, the entry that the format writes
/// for it, if it writes one. `times` holds the modification times that are
/// kept since the archive was opened. The first path whose entry cannot be
/// had decides the error.
pub open spec fn close_entries(
    format: Format,
    order: Seq<Seq<Seq<u8>>>,
    times: Map<Seq<Seq<u8>>, u64>,
    observations: Seq<ObservationView>,
) -> Result<Seq<EntryView>, ArchiveError>
    decreases order.len(),
{
    if order.len() == 0 {
        Ok(Seq::<EntryView>::empty())
    } else {
        match close_entries(format, order.drop_last(), times, observations) {
            Err(error) => Err(error),
            Ok(front) => if order.last().len() == 0 {
                Ok(front)
            } else {
                match emitted_entry(
                    format,
                    order.last(),
                    kept_time(times, order.last()),
                    observation_at(observations, order.len() - 1),
                ) {
                    Err(error) => Err(error),
                    Ok(None) => Ok(front),
                    Ok(Some(entry)) => Ok(front.push(entry)),
                }
            },
        }
    }
}

/// The diagnostics of a close: for each path of the order but the root, in
/// that order, what its classification has to tell.
pub open spec fn close_diagnostics(order: Seq<Seq<Seq<u8>>>, observations: Seq<ObservationView>) -> Seq<Diagnostic>
    decreases order.len(),
{
    if order.len() == 0 {
        Seq::<Diagnostic>::empty()
    } else if order.last().len() == 0 {
        close_diagnostics(order.drop_last(), observations)
    } else {
        let observed = observation_at(observations, order.len() - 1);
        close_diagnostics(order.drop_last(), observations) + classification_diagnostics(
            (order.len() - 1) as usize,
            observed.link_target is Some,
            observed.info,
        )
    }
}

/// The class of a path, from whether it could be read as a link and from its
/// metadata.
pub fn determine_file_type(link_read: bool, info: &Option<NodeInfo>) -> (class: NodeClass)
    ensures
        class == classify(link_read, *info),
{
    if link_read {
        NodeClass::Symlink
    } else {
        match info {
            Some(node) => {
                if node.is_symlink {
                    NodeClass::Symlink
                } else if node.is_dir {
                    NodeClass::Directory
                } else {
                    NodeClass::Regular
                }
            },
            None => NodeClass::Regular,
        }
    }
}

/// Whether a format writes an entry for a path of this class.
pub fn format_emits(format: Format, class: NodeClass) -> (yes: bool)
    ensures
        yes == emits(format, class),
{
    match class {
        NodeClass::Regular => true,
        _ => match format {
            Format::Tar => true,
            _ => false,
        },
    }
}

/// The metadata that a format records for a file or directory. `kept` is
/// the modification time that is kept for the path, if one is.
pub fn metadata_for(format: Format, node: &NodeInfo, kept: Option<u64>) -> (outcome: Result<
    EntryMetadata,
    ArchiveError,
>)
    ensures
        outcome == node_metadata(format, *node, kept),
{
    let records = format.carried();
    let time = if kept.is_some() { kept } else { node.mtime };
    if records.uid && node.uid.is_none() {
        return Err(ArchiveError::Metadata(MetadataField::Uid));
    }
    if records.gid && node.gid.is_none() {
        return Err(ArchiveError::Metadata(MetadataField::Gid));
    }
    if records.mtime && time.is_none() {
        return Err(ArchiveError::Metadata(MetadataField::Mtime));
    }
    Ok(
        EntryMetadata {
            uid: if records.uid { node.uid } else { None },
            gid: if records.gid { node.gid } else { None },
            mode: if records.mode { Some(node.mode) } else { None },
            mtime: if records.mtime { time } else { None },
        },
    )
}

/// The metadata that stands in for the metadata of a path about which
/// nothing could be learnt.
pub fn metadata_fallback(format: Format, kept: Option<u64>) -> (metadata: EntryMetadata)
    ensures
        metadata == fallback_metadata(format, kept),
{
    let records = format.carried();
    let time: u64 = match kept {
        Some(seconds) => seconds,
        None => 0,
    };
    EntryMetadata {
        uid: if records.uid { Some(0) } else { None },
        gid: if records.gid { Some(0) } else { None },
        mode: if records.mode { Some(DEFAULT_MODE) } else { None },
        mtime: if records.mtime { Some(time) } else { None },
    }
}

/// The outcome of [`emit_entry`] as a mathematical value.
pub open spec fn emission_view(outcome: Result<Option<Entry>, ArchiveError>) -> Result<Option<EntryView>, ArchiveError> {
    match outcome {
        Ok(Some(entry)) => Ok(Some(entry@)),
        Ok(None) => Ok(None),
        Err(error) => Err(error),
    }
}

/// The name under which a format stores a path.
pub fn name_for(format: Format, path: &ArchivePath) -> (name: Vec<u8>)
    ensures
        name@ == stored_name(format, path@),
{
    if format.stores_relative_names() {
        path.to_relative_bytes()
    } else {
        path.to_bytes()
    }
}

/// The entry that a format writes for a path, `None` where it writes none,
/// or the reason why the entry cannot be had. `kept` is the modification
/// time that is kept for the path, if one is.
pub fn emit_entry(format: Format, path: &ArchivePath, kept: Option<u64>, observed: &Observation) -> (outcome: Result<
    Option<Entry>,
    ArchiveError,
>)
    ensures
        emission_view(outcome) == emitted_entry(format, path@, kept, observed@),
{
    let class = determine_file_type(observed.link_target.is_some(), &observed.info);
    if !format_emits(format, class) {
        return Ok(None);
    }
    let name = name_for(format, path);
    match class {
        NodeClass::Symlink => match &observed.link_target {
            Some(target) => Ok(
                Some(
                    Entry {
                        name,
                        kind: EntryKind::Symlink { target: copy_bytes(target.as_slice()) },
                        content: Vec::new(),
                        metadata: EntryMetadata { uid: None, gid: None, mode: None, mtime: None },
                    },
                ),
            ),
            None => Err(ArchiveError::Io),
        },
        NodeClass::Directory => match &observed.info {
            None => Err(ArchiveError::Io),
            Some(node) => match metadata_for(format, node, kept) {
                Ok(metadata) => Ok(Some(Entry { name, kind: EntryKind::Directory, content: Vec::new(), metadata })),
                Err(error) => Err(error),
            },
        },
        NodeClass::Regular => match &observed.info {
            None => {
                let content = match &observed.content {
                    Some(bytes) => copy_bytes(bytes.as_slice()),
                    None => Vec::new(),
                };
                Ok(
                    Some(
                        Entry { name, kind: EntryKind::Regular, content, metadata: metadata_fallback(format, kept) },
                    ),
                )
            },
            Some(node) => match &observed.content {
                None => Err(ArchiveError::Io),
                Some(content) => match metadata_for(format, node, kept) {
                    Ok(metadata) => Ok(
                        Some(
                            Entry {
                                name,
                                kind: EntryKind::Regular,
                                content: copy_bytes(content.as_slice()),
                                metadata,
                            },
                        ),
                    ),
                    Err(error) => Err(error),
                },
            },
        },
    }
}

} // verus!
