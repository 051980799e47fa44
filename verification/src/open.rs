//! Opening: from the decoded entries of an archive to the operations that
//! bring them into the memory filesystem.

use vstd::prelude::*;

use crate::entry::{
    carried, recorded, supports, trim_trailing_nul, trims_trailing_nul, without_trailing_nul,
    ArchiveError, CodecFault, Diagnostic, Entry, EntryKind, EntryMetadata, EntryView, Format,
    KindView, MetadataField,
};
use crate::kept::with_time;
use crate::path::{components, copy_bytes, ArchivePath};

verus! {

/// An operation on the memory filesystem. The surrounding program performs
/// the operations of a plan in order and stops at the first that fails,
/// unless the operation is marked as tolerant.
#[derive(Clone, Debug, PartialEq, Eq)]
pub enum FsAction {
    /// Create the directory and every directory above it that is missing.
    /// Where `tolerant` is set, a failure is passed over.
    CreateDirAll { path: ArchivePath, tolerant: bool },
    /// Create the file, or empty it, and write the content.
    WriteFile { path: ArchivePath, content: Vec<u8> },
    /// Set the permission bits.
    SetPermissions { path: ArchivePath, mode: u32 },
    /// Set owner and group.
    Chown { path: ArchivePath, uid: u32, gid: u32 },
    /// Create a symbolic link at `link` that carries `target`.
    Symlink { target: Vec<u8>, link: ArchivePath },
    /// Duplicate the content of `from` at `to`.
    Copy { from: ArchivePath, to: ArchivePath },
}

/// [`FsAction`] as a mathematical value, each path as its components.
pub enum ActionView {
    CreateDirAll { path: Seq<Seq<u8>>, tolerant: bool },
    WriteFile { path: Seq<Seq<u8>>, content: Seq<u8> },
    SetPermissions { path: Seq<Seq<u8>>, mode: u32 },
    Chown { path: Seq<Seq<u8>>, uid: u32, gid: u32 },
    Symlink { target: Seq<u8>, link: Seq<Seq<u8>> },
    Copy { from: Seq<Seq<u8>>, to: Seq<Seq<u8>> },
}

impl View for FsAction {
    type V = ActionView;

    open spec fn view(&self) -> ActionView {
        match self {
            FsAction::CreateDirAll { path, tolerant } => ActionView::CreateDirAll { path: path@, tolerant: *tolerant },
            FsAction::WriteFile { path, content } => ActionView::WriteFile { path: path@, content: content@ },
            FsAction::SetPermissions { path, mode } => ActionView::SetPermissions { path: path@, mode: *mode },
            FsAction::Chown { path, uid, gid } => ActionView::Chown { path: path@, uid: *uid, gid: *gid },
            FsAction::Symlink { target, link } => ActionView::Symlink { target: target@, link: link@ },
            FsAction::Copy { from, to } => ActionView::Copy { from: from@, to: to@ },
        }
    }
}

/// The views of a vector of operations.
pub open spec fn action_views(actions: Seq<FsAction>) -> Seq<ActionView> {
    Seq::new(actions.len(), |i: int| actions[i]@)
}

/// The operation that makes sure the directory above `path` exists. The root
/// has no directory above it.
pub open spec fn parent_creation(path: Seq<Seq<u8>>, tolerant: bool) -> Seq<ActionView> {
    if path.len() == 0 {
        Seq::<ActionView>::empty()
    } else {
        seq![ActionView::CreateDirAll { path: path.drop_last(), tolerant }]
    }
}

/// The operations that apply an entry's metadata: the permission bits where
/// the mode is known, then owner and group where one of them is known, zero
/// standing in for the other. There is no operation for the modification
/// time: the memory filesystem keeps times of its own and cannot be told
/// one, so the session keeps the decoded time for the path instead.
pub open spec fn metadata_actions(format: Format, path: Seq<Seq<u8>>, metadata: EntryMetadata) -> Seq<ActionView> {
    let mode = recorded(carried(format).mode, metadata.mode);
    let uid = recorded(carried(format).uid, metadata.uid);
    let gid = recorded(carried(format).gid, metadata.gid);
    let permissions = if mode is Some {
        seq![ActionView::SetPermissions { path, mode: mode->0 }]
    } else {
        Seq::<ActionView>::empty()
    };
    let owner = if uid is Some || gid is Some {
        seq![
            ActionView::Chown {
                path,
                uid: if uid is Some { uid->0 } else { 0 },
                gid: if gid is Some { gid->0 } else { 0 },
            },
        ]
    } else {
        Seq::<ActionView>::empty()
    };
    permissions + owner
}

/// The content that a decoded file gets in the memory filesystem.
pub open spec fn decoded_content(format: Format, content: Seq<u8>) -> Seq<u8> {
    if trims_trailing_nul(format) {
        without_trailing_nul(content)
    } else {
        content
    }
}

/// The operations that bring one decoded entry into the memory filesystem.
///
/// - A regular file: its directory is created, the file is written, its
///   metadata is applied.
/// - A directory: it is created with all above it, its metadata is applied.
/// - A symbolic link: the directories of the link and of the target are
///   created, failures passed over, then the link.
/// - A hard link: the content of the target is duplicated at the new path.
pub open spec fn entry_actions(format: Format, entry: EntryView) -> Seq<ActionView> {
    let path = components(entry.name);
    match entry.kind {
        KindView::Regular => parent_creation(path, false) + seq![
            ActionView::WriteFile { path, content: decoded_content(format, entry.content) },
        ] + metadata_actions(format, path, entry.metadata),
        KindView::Directory => seq![ActionView::CreateDirAll { path, tolerant: false }] + metadata_actions(
            format,
            path,
            entry.metadata,
        ),
        KindView::Symlink { target } => parent_creation(path, true) + parent_creation(components(target), true)
            + seq![ActionView::Symlink { target, link: path }],
        KindView::HardLink { target } => seq![ActionView::Copy { from: components(target), to: path }],
    }
}

/// The diagnostic for a field, if the format records it and the entry lacks it.
pub open spec fn missing<T>(records: bool, value: Option<T>, entry: usize, field: MetadataField) -> Seq<Diagnostic> {
    if records && value is None {
        seq![Diagnostic::MissingMetadata { entry, field }]
    } else {
        Seq::<Diagnostic>::empty()
    }
}

/// The diagnostics for the entry at place `index` of its archive: one for
/// each piece of metadata that the format records and a file or directory
/// lacks, in the order owner, group, mode, modification time.
pub open spec fn entry_diagnostics(format: Format, index: usize, entry: EntryView) -> Seq<Diagnostic> {
    if entry.kind is Regular || entry.kind is Directory {
        missing(carried(format).uid, entry.metadata.uid, index, MetadataField::Uid) + missing(
            carried(format).gid,
            entry.metadata.gid,
            index,
            MetadataField::Gid,
        ) + missing(carried(format).mode, entry.metadata.mode, index, MetadataField::Mode) + missing(
            carried(format).mtime,
            entry.metadata.mtime,
            index,
            MetadataField::Mtime,
        )
    } else {
        Seq::<Diagnostic>::empty()
    }
}

/// Whether the format has entries of the kind of each of these entries.
pub open spec fn all_supported(format: Format, entries: Seq<EntryView>) -> bool {
    forall|i: int| 0 <= i < entries.len() ==> supports(format, (#[trigger] entries[i]).kind)
}

/// The operations for a whole archive: those of each entry, in decode order.
pub open spec fn plan_actions(format: Format, entries: Seq<EntryView>) -> Seq<ActionView>
    decreases entries.len(),
{
    if entries.len() == 0 {
        Seq::<ActionView>::empty()
    } else {
        plan_actions(format, entries.drop_last()) + entry_actions(format, entries.last())
    }
}

/// The diagnostics for a whole archive: those of each entry, in decode order.
pub open spec fn plan_diagnostics(format: Format, entries: Seq<EntryView>) -> Seq<Diagnostic>
    decreases entries.len(),
{
    if entries.len() == 0 {
        Seq::<Diagnostic>::empty()
    } else {
        plan_diagnostics(format, entries.drop_last()) + entry_diagnostics(
            format,
            (entries.len() - 1) as usize,
            entries.last(),
        )
    }
}

/// The modification times that are kept when an archive is opened: each
/// entry, in decode order, sets the time of its path to the one it carries
/// where the format records modification times, and clears it otherwise.
pub open spec fn opened_times(format: Format, entries: Seq<EntryView>) -> Map<Seq<Seq<u8>>, u64>
    decreases entries.len(),
{
    if entries.len() == 0 {
        Map::<Seq<Seq<u8>>, u64>::empty()
    } else {
        with_time(
            opened_times(format, entries.drop_last()),
            components(entries.last().name),
            recorded(carried(format).mtime, entries.last().metadata.mtime),
        )
    }
}

/// The canonical paths of the entries, in decode order.
pub open spec fn decoded_paths(entries: Seq<EntryView>) -> Seq<Seq<Seq<u8>>> {
    Seq::new(entries.len(), |i: int| components(entries[i].name))
}

fn push_parent_creation(actions: &mut Vec<FsAction>, path: &ArchivePath, tolerant: bool)
    ensures
        action_views(final(actions)@) == action_views(old(actions)@) + parent_creation(path@, tolerant),
{
    match path.parent() {
        None => {
            assert(action_views(actions@) == action_views(actions@) + Seq::<ActionView>::empty());
        },
        Some(parent) => {
            let ghost before = action_views(actions@);
            actions.push(FsAction::CreateDirAll { path: parent, tolerant });
            assert(action_views(actions@) == before + parent_creation(path@, tolerant));
        },
    }
}

fn push_metadata_actions(actions: &mut Vec<FsAction>, format: Format, path: &ArchivePath, metadata: &EntryMetadata)
    ensures
        action_views(final(actions)@) == action_views(old(actions)@) + metadata_actions(format, path@, *metadata),
{
    let records = format.carried();
    let ghost before = action_views(actions@);
    let mode = if records.mode { metadata.mode } else { None };
    let uid = if records.uid { metadata.uid } else { None };
    let gid = if records.gid { metadata.gid } else { None };
    if let Some(bits) = mode {
        actions.push(FsAction::SetPermissions { path: path.duplicate(), mode: bits });
    }
    let ghost middle = action_views(actions@);
    if uid.is_some() || gid.is_some() {
        let owner = match uid {
            Some(id) => id,
            None => 0,
        };
        let group = match gid {
            Some(id) => id,
            None => 0,
        };
        actions.push(FsAction::Chown { path: path.duplicate(), uid: owner, gid: group });
    }
    assert(action_views(actions@) == before + metadata_actions(format, path@, *metadata));
}

/// The operations that bring one decoded entry into the memory filesystem,
/// or the refusal of an entry whose kind the format does not have.
pub fn materialize(format: Format, entry: &Entry) -> (outcome: Result<Vec<FsAction>, ArchiveError>)
    ensures
        supports(format, entry@.kind) ==> (outcome matches Ok(actions) && action_views(actions@) == entry_actions(
            format,
            entry@,
        )),
        !supports(format, entry@.kind) ==> outcome == Err::<Vec<FsAction>, ArchiveError>(
            ArchiveError::Codec(CodecFault::UnsupportedEntry),
        ),
{
    if !format.supports(&entry.kind) {
        return Err(ArchiveError::Codec(CodecFault::UnsupportedEntry));
    }
    let path = ArchivePath::parse(entry.name.as_slice());
    let mut actions: Vec<FsAction> = Vec::new();
    assert(action_views(actions@) == Seq::<ActionView>::empty());
    match &entry.kind {
        EntryKind::Regular => {
            push_parent_creation(&mut actions, &path, false);
            let content = if format.trims_trailing_nul() {
                trim_trailing_nul(entry.content.as_slice())
            } else {
                copy_bytes(entry.content.as_slice())
            };
            let ghost before = action_views(actions@);
            actions.push(FsAction::WriteFile { path: path.duplicate(), content });
            assert(action_views(actions@) == before + seq![
                ActionView::WriteFile { path: path@, content: decoded_content(format, entry@.content) },
            ]);
            push_metadata_actions(&mut actions, format, &path, &entry.metadata);
        },
        EntryKind::Directory => {
            actions.push(FsAction::CreateDirAll { path: path.duplicate(), tolerant: false });
            assert(action_views(actions@) == seq![ActionView::CreateDirAll { path: path@, tolerant: false }]);
            push_metadata_actions(&mut actions, format, &path, &entry.metadata);
        },
        EntryKind::Symlink { target } => {
            push_parent_creation(&mut actions, &path, true);
            let aim = ArchivePath::parse(target.as_slice());
            push_parent_creation(&mut actions, &aim, true);
            let ghost before = action_views(actions@);
            actions.push(FsAction::Symlink { target: copy_bytes(target.as_slice()), link: path });
            assert(action_views(actions@) == before + seq![
                ActionView::Symlink { target: target@, link: components(entry@.name) },
            ]);
        },
        EntryKind::HardLink { target } => {
            let source = ArchivePath::parse(target.as_slice());
            actions.push(FsAction::Copy { from: source, to: path });
            assert(action_views(actions@) == seq![
                ActionView::Copy { from: components(target@), to: components(entry@.name) },
            ]);
        },
    }
    Ok(actions)
}

fn push_missing<T>(
    diagnostics: &mut Vec<Diagnostic>,
    records: bool,
    value: &Option<T>,
    entry: usize,
    field: MetadataField,
)
    ensures
        final(diagnostics)@ == old(diagnostics)@ + missing(records, *value, entry, field),
{
    if records && value.is_none() {
        diagnostics.push(Diagnostic::MissingMetadata { entry, field });
        assert(diagnostics@ == old(diagnostics)@ + seq![Diagnostic::MissingMetadata { entry, field }]);
    } else {
        assert(diagnostics@ == old(diagnostics)@ + Seq::<Diagnostic>::empty());
    }
}

/// The diagnostics for the entry at place `index` of its archive.
pub fn diagnose(format: Format, index: usize, entry: &Entry) -> (diagnostics: Vec<Diagnostic>)
    ensures
        diagnostics@ == entry_diagnostics(format, index, entry@),
{
    let mut diagnostics: Vec<Diagnostic> = Vec::new();
    let holds_metadata = match &entry.kind {
        EntryKind::Regular => true,
        EntryKind::Directory => true,
        _ => false,
    };
    if holds_metadata {
        let records = format.carried();
        push_missing(&mut diagnostics, records.uid, &entry.metadata.uid, index, MetadataField::Uid);
        push_missing(&mut diagnostics, records.gid, &entry.metadata.gid, index, MetadataField::Gid);
        push_missing(&mut diagnostics, records.mode, &entry.metadata.mode, index, MetadataField::Mode);
        push_missing(&mut diagnostics, records.mtime, &entry.metadata.mtime, index, MetadataField::Mtime);
    }
    diagnostics
}

} // verus!
