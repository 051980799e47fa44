//! The archive session: what is known of an open archive besides the memory
//! filesystem itself, and how every operation changes it.

use vstd::prelude::*;

use crate::close::{
    classification_diagnostics, close_diagnostics, close_entries, emit_entry, observation_at,
    observation_views, unreadable, NodeInfo, Observation, ObservationView,
};
use crate::entry::{
    carried, entry_views, supports, ArchiveError, CodecFault, CompressionKind, Diagnostic,
    Entry, EntryView, Format,
};
use crate::open::{
    action_views, all_supported, decoded_paths, diagnose, materialize, opened_times,
    plan_actions, plan_diagnostics, ActionView, FsAction,
};
use crate::ordered::{is_order, with_path, with_paths, without_path, without_paths, OrderedPathSet};
use crate::kept::KeptTimes;
use crate::path::{components, copy_bytes, ArchivePath};

verus! {

/// An open archive: its format, the compression that was found on its byte
/// stream, the name of the backing file and the ordered set of its paths. The
/// memory filesystem that holds the content belongs to the surrounding
/// program.
pub struct ArchiveSession {
    format: Format,
    compression: CompressionKind,
    backing: Vec<u8>,
    paths: OrderedPathSet,
    times: KeptTimes,
}

/// [`ArchiveSession`] as a mathematical value.
pub struct SessionView {
    pub format: Format,
    pub compression: CompressionKind,
    pub backing: Seq<u8>,
    /// The paths of the archive in the order in which they will be encoded.
    pub order: Seq<Seq<Seq<u8>>>,
    /// The modification times that were decoded with the archive, for the
    /// paths that were not written, renamed or removed since.
    pub times: Map<Seq<Seq<u8>>, u64>,
}

impl View for ArchiveSession {
    type V = SessionView;

    closed spec fn view(&self) -> SessionView {
        SessionView {
            format: self.format,
            compression: self.compression,
            backing: self.backing@,
            order: self.paths@,
            times: self.times@,
        }
    }
}

/// What opening hands to the surrounding program: the operations that fill
/// the memory filesystem, and what there is to tell.
#[derive(Clone, Debug, PartialEq, Eq)]
pub struct OpenPlan {
    pub actions: Vec<FsAction>,
    pub diagnostics: Vec<Diagnostic>,
}

/// What closing hands to the surrounding program: the entries to encode, in
/// order; the compression to apply to the encoded stream; the name of the file
/// to overwrite; and what there is to tell.
#[derive(Clone, Debug, PartialEq, Eq)]
pub struct ClosePlan {
    pub entries: Vec<Entry>,
    pub compression: CompressionKind,
    pub backing: Vec<u8>,
    pub diagnostics: Vec<Diagnostic>,
}

/// A path and the directories above it, from the root down: what
/// `create_dir_all` adds.
pub open spec fn lineage(path: Seq<Seq<u8>>) -> Seq<Seq<Seq<u8>>> {
    Seq::new(path.len() + 1, |i: int| path.take(i))
}

/// The directories above a path, from the root down, without the path
/// itself: what `remove_dir_all` takes out.
pub open spec fn forebears(path: Seq<Seq<u8>>) -> Seq<Seq<Seq<u8>>> {
    Seq::new(path.len(), |i: int| path.take(i))
}

/// What a filesystem operation does to the set of paths.
pub enum Change {
    /// A path comes into being: `create_dir`, `write`, the destination of
    /// `copy`, the link of `symlink` and `hard_link`, and a file opened for
    /// creation.
    Add(Seq<Seq<u8>>),
    /// A path ceases to be: `remove_file` and `remove_dir`.
    Remove(Seq<Seq<u8>>),
    /// `create_dir_all`: a directory comes into being with all above it.
    AddLineage(Seq<Seq<u8>>),
    /// `remove_dir_all`: the directories above a path cease to be tracked.
    RemoveForebears(Seq<Seq<u8>>),
    /// `rename`: the first path ceases to be, the second comes into being.
    Rename(Seq<Seq<u8>>, Seq<Seq<u8>>),
    /// A file that exists is opened for writing.
    Touch(Seq<Seq<u8>>),
}

/// The order after a change. Paths that come into being go last unless the
/// order holds them already; paths that cease to be are taken out and the
/// others keep their order.
pub open spec fn changed_order(order: Seq<Seq<Seq<u8>>>, change: Change) -> Seq<Seq<Seq<u8>>> {
    match change {
        Change::Add(path) => with_path(order, path),
        Change::Remove(path) => without_path(order, path),
        Change::AddLineage(path) => with_paths(order, lineage(path)),
        Change::RemoveForebears(path) => without_paths(order, forebears(path)),
        Change::Rename(from, to) => with_path(without_path(order, from), to),
        Change::Touch(path) => order,
    }
}

/// The kept modification times after a change. A path that comes into
/// being, ceases to be or is opened for writing loses the time that was
/// kept for it; directories that come and go with `create_dir_all` and
/// `remove_dir_all` leave the times alone.
pub open spec fn changed_times(times: Map<Seq<Seq<u8>>, u64>, change: Change) -> Map<Seq<Seq<u8>>, u64> {
    match change {
        Change::Add(path) => times.remove(path),
        Change::Remove(path) => times.remove(path),
        Change::AddLineage(path) => times,
        Change::RemoveForebears(path) => times,
        Change::Rename(from, to) => times.remove(from).remove(to),
        Change::Touch(path) => times.remove(path),
    }
}

/// The session after a change: the order and the kept times change, the
/// rest stays.
pub open spec fn changed(session: SessionView, change: Change) -> SessionView {
    SessionView {
        order: changed_order(session.order, change),
        times: changed_times(session.times, change),
        ..session
    }
}

/// The session after several changes, one after the other.
pub open spec fn changed_by(session: SessionView, changes: Seq<Change>) -> SessionView
    decreases changes.len(),
{
    if changes.len() == 0 {
        session
    } else {
        changed(changed_by(session, changes.drop_last()), changes.last())
    }
}

/// An error in the entries of a front part of the order is the error of the
/// whole order.
pub proof fn lemma_close_error_stays(
    format: Format,
    order: Seq<Seq<Seq<u8>>>,
    times: Map<Seq<Seq<u8>>, u64>,
    observations: Seq<ObservationView>,
    front: int,
)
    requires
        0 <= front <= order.len(),
        close_entries(format, order.take(front), times, observations) is Err,
    ensures
        close_entries(format, order, times, observations) == close_entries(
            format,
            order.take(front),
            times,
            observations,
        ),
    decreases order.len() - front,
{
    if front == order.len() {
        assert(order.take(front) == order);
    } else {
        assert(order.take(front + 1).drop_last() == order.take(front));
        lemma_close_error_stays(format, order, times, observations, front + 1);
    }
}

fn push_classification_diagnostics(
    diagnostics: &mut Vec<Diagnostic>,
    place: usize,
    link_read: bool,
    info: &Option<NodeInfo>,
)
    ensures
        final(diagnostics)@ == old(diagnostics)@ + classification_diagnostics(place, link_read, *info),
{
    let ghost before = diagnostics@;
    if !link_read {
        match info {
            Some(node) => {
                if !node.is_symlink && !node.is_dir && !node.is_file {
                    diagnostics.push(Diagnostic::UnknownType { place });
                }
            },
            None => {
                diagnostics.push(Diagnostic::Unreadable { place });
            },
        }
    }
    assert(diagnostics@ == before + classification_diagnostics(place, link_read, *info));
}

impl ArchiveSession {
    /// What holds of every session that this module hands out: its order
    /// holds no path twice and only canonical paths.
    pub closed spec fn wf(&self) -> bool {
        self.paths.wf()
    }

    /// The order of a well-formed session is an order.
    pub proof fn lemma_wf(&self)
        requires
            self.wf(),
        ensures
            is_order(self@.order),
    {
        self.paths.lemma_wf();
    }

    /// The session for an archive whose backing file does not exist yet: no
    /// entries, no compression.
    pub fn open_absent(format: Format, backing: &[u8]) -> (session: ArchiveSession)
        ensures
            session.wf(),
            session@ == (SessionView {
                format,
                compression: CompressionKind::Stored,
                backing: backing@,
                order: Seq::<Seq<Seq<u8>>>::empty(),
                times: Map::<Seq<Seq<u8>>, u64>::empty(),
            }),
    {
        ArchiveSession {
            format,
            compression: CompressionKind::Stored,
            backing: copy_bytes(backing),
            paths: OrderedPathSet::new(),
            times: KeptTimes::new(),
        }
    }

    /// The session for an archive that was decoded into `entries`, and the
    /// plan that fills the memory filesystem. Each entry's canonical path goes
    /// into the order, in decode order, and the modification time that the
    /// entry carries is kept for the path where the format records such
    /// times. An entry of a kind that the format does not have refuses the
    /// whole archive.
    pub fn open(format: Format, backing: &[u8], compression: CompressionKind, entries: &Vec<Entry>) -> (outcome: Result<
        (ArchiveSession, OpenPlan),
        ArchiveError,
    >)
        ensures
            all_supported(format, entry_views(entries@)) ==> (outcome matches Ok((session, plan)) && session.wf()
                && session@ == (SessionView {
                format,
                compression,
                backing: backing@,
                order: with_paths(Seq::<Seq<Seq<u8>>>::empty(), decoded_paths(entry_views(entries@))),
                times: opened_times(format, entry_views(entries@)),
            }) && action_views(plan.actions@) == plan_actions(format, entry_views(entries@))
                && plan.diagnostics@ == plan_diagnostics(format, entry_views(entries@))),
            !all_supported(format, entry_views(entries@)) ==> (outcome matches Err(error) && error
                == ArchiveError::Codec(CodecFault::UnsupportedEntry)),
    {
        let ghost views = entry_views(entries@);
        let mut paths = OrderedPathSet::new();
        let mut times = KeptTimes::new();
        let records_time = format.carried().mtime;
        let mut actions: Vec<FsAction> = Vec::new();
        let mut diagnostics: Vec<Diagnostic> = Vec::new();
        let mut i: usize = 0;
        proof {
            assert(views.take(0) == Seq::<EntryView>::empty());
            assert(decoded_paths(views.take(0)) == Seq::<Seq<Seq<u8>>>::empty());
            assert(action_views(actions@) == Seq::<ActionView>::empty());
        }
        while i < entries.len()
            invariant
                i <= entries.len(),
                views == entry_views(entries@),
                paths.wf(),
                all_supported(format, views.take(i as int)),
                paths@ == with_paths(Seq::<Seq<Seq<u8>>>::empty(), decoded_paths(views.take(i as int))),
                times@ == opened_times(format, views.take(i as int)),
                records_time == carried(format).mtime,
                action_views(actions@) == plan_actions(format, views.take(i as int)),
                diagnostics@ == plan_diagnostics(format, views.take(i as int)),
            decreases entries.len() - i,
        {
            let entry = &entries[i];
            let ghost front = views.take(i as int);
            let ghost longer = views.take(i + 1);
            proof {
                assert(longer.drop_last() == front);
                assert(longer.last() == entry@);
                assert(decoded_paths(longer).drop_last() == decoded_paths(front));
                assert(decoded_paths(longer).last() == components(entry@.name));
            }
            match materialize(format, entry) {
                Err(error) => {
                    assert(!supports(format, views[i as int].kind));
                    return Err(error);
                },
                Ok(mut more) => {
                    let ghost before = action_views(actions@);
                    let ghost added = action_views(more@);
                    actions.append(&mut more);
                    assert(action_views(actions@) == before + added);
                },
            }
            let mut notes = diagnose(format, i, entry);
            diagnostics.append(&mut notes);
            let path = ArchivePath::parse(entry.name.as_slice());
            paths.insert(&path);
            times.set(&path, if records_time { entry.metadata.mtime } else { None });
            i += 1;
            proof {
                assert forall|j: int| 0 <= j < longer.len() implies supports(format, (#[trigger] longer[j]).kind) by {
                    if j < i - 1 {
                        assert(longer[j] == front[j]);
                    }
                }
            }
        }
        proof {
            assert(views.take(entries.len() as int) == views);
        }
        let session = ArchiveSession { format, compression, backing: copy_bytes(backing), paths, times };
        Ok((session, OpenPlan { actions, diagnostics }))
    }

    /// The format of the archive.
    pub fn format(&self) -> (format: Format)
        ensures
            format == self@.format,
    {
        self.format
    }

    /// The compression that was found when the archive was opened.
    pub fn compression(&self) -> (compression: CompressionKind)
        ensures
            compression == self@.compression,
    {
        self.compression
    }

    /// The name of the backing file.
    pub fn backing(&self) -> (backing: &Vec<u8>)
        ensures
            backing@ == self@.backing,
    {
        &self.backing
    }

    /// The paths of the archive in the order in which they will be encoded.
    pub fn snapshot(&self) -> (paths: Vec<ArchivePath>)
        requires
            self.wf(),
        ensures
            paths@.len() == self@.order.len(),
            forall|i: int| 0 <= i < paths@.len() ==> (#[trigger] paths@[i])@ == self@.order[i],
    {
        self.paths.snapshot()
    }

    /// Notes that a path came into being. The path is made canonical; if the
    /// order holds it already it keeps its place, else it goes last. The
    /// modification time that was kept for it is forgotten.
    pub fn add_path(&mut self, path: &[u8])
        requires
            old(self).wf(),
        ensures
            final(self).wf(),
            final(self)@ == changed(old(self)@, Change::Add(components(path@))),
    {
        let canonical = ArchivePath::parse(path);
        self.paths.insert(&canonical);
        self.times.forget(&canonical);
    }

    /// Notes that a path ceased to be. The path is made canonical and taken
    /// out of the order; the others keep their order. The modification time
    /// that was kept for it is forgotten.
    pub fn remove_path(&mut self, path: &[u8])
        requires
            old(self).wf(),
        ensures
            final(self).wf(),
            final(self)@ == changed(old(self)@, Change::Remove(components(path@))),
    {
        let canonical = ArchivePath::parse(path);
        self.paths.remove(&canonical);
        self.times.forget(&canonical);
    }

    /// `create_dir`: the directory comes into being.
    pub fn create_dir(&mut self, path: &[u8])
        requires
            old(self).wf(),
        ensures
            final(self).wf(),
            final(self)@ == changed(old(self)@, Change::Add(components(path@))),
    {
        self.add_path(path);
    }

    /// `create_dir_all`: the directory comes into being with every directory
    /// above it, the root first and the directory itself last.
    pub fn create_dir_all(&mut self, path: &[u8])
        requires
            old(self).wf(),
        ensures
            final(self).wf(),
            final(self)@ == changed(old(self)@, Change::AddLineage(components(path@))),
    {
        let canonical = ArchivePath::parse(path);
        let chain = canonical.ancestors();
        let ghost line = lineage(canonical@);
        let ghost start = self.paths@;
        let mut i: usize = 0;
        assert(line.take(0) == Seq::<Seq<Seq<u8>>>::empty());
        while i < chain.len()
            invariant
                i <= chain.len(),
                chain@.len() == line.len(),
                line == lineage(canonical@),
                forall|j: int| 0 <= j < chain@.len() ==> (#[trigger] chain@[j])@ == line[j],
                self.paths.wf(),
                self.paths@ == with_paths(start, line.take(i as int)),
                self.format == old(self).format,
                self.compression == old(self).compression,
                self.backing == old(self).backing,
                self.times == old(self).times,
            decreases chain.len() - i,
        {
            self.paths.insert(&chain[i]);
            i += 1;
            proof {
                assert(line.take(i as int).drop_last() == line.take(i - 1));
                assert(line.take(i as int).last() == line[i - 1]);
            }
        }
        assert(line.take(chain.len() as int) == line);
    }

    /// `write`: the file comes into being.
    pub fn write(&mut self, path: &[u8])
        requires
            old(self).wf(),
        ensures
            final(self).wf(),
            final(self)@ == changed(old(self)@, Change::Add(components(path@))),
    {
        self.add_path(path);
    }

    /// Opening a file through open options: with `create` set the file comes
    /// into being; a file that is opened for writing without it loses the
    /// modification time that was kept for it; else nothing changes.
    pub fn open_file(&mut self, path: &[u8], create: bool, write: bool)
        requires
            old(self).wf(),
        ensures
            final(self).wf(),
            create ==> final(self)@ == changed(old(self)@, Change::Add(components(path@))),
            !create && write ==> final(self)@ == changed(old(self)@, Change::Touch(components(path@))),
            !create && !write ==> final(self)@ == old(self)@,
    {
        if create {
            self.add_path(path);
        } else if write {
            let canonical = ArchivePath::parse(path);
            self.times.forget(&canonical);
        }
    }

    /// `copy`: the destination comes into being.
    pub fn copy(&mut self, from: &[u8], to: &[u8])
        requires
            old(self).wf(),
        ensures
            final(self).wf(),
            final(self)@ == changed(old(self)@, Change::Add(components(to@))),
    {
        self.add_path(to);
    }

    /// `symlink`: the link comes into being; its target is not touched.
    pub fn symlink(&mut self, target: &[u8], link: &[u8])
        requires
            old(self).wf(),
        ensures
            final(self).wf(),
            final(self)@ == changed(old(self)@, Change::Add(components(link@))),
    {
        self.add_path(link);
    }

    /// `hard_link`: the new name comes into being.
    pub fn hard_link(&mut self, source: &[u8], link: &[u8])
        requires
            old(self).wf(),
        ensures
            final(self).wf(),
            final(self)@ == changed(old(self)@, Change::Add(components(link@))),
    {
        self.add_path(link);
    }

    /// `rename`: the source ceases to be, then the destination comes into
    /// being.
    pub fn rename(&mut self, from: &[u8], to: &[u8])
        requires
            old(self).wf(),
        ensures
            final(self).wf(),
            final(self)@ == changed(old(self)@, Change::Rename(components(from@), components(to@))),
    {
        self.remove_path(from);
        self.add_path(to);
    }

    /// `remove_file`: the file ceases to be.
    pub fn remove_file(&mut self, path: &[u8])
        requires
            old(self).wf(),
        ensures
            final(self).wf(),
            final(self)@ == changed(old(self)@, Change::Remove(components(path@))),
    {
        self.remove_path(path);
    }

    /// `remove_dir`: the directory ceases to be.
    pub fn remove_dir(&mut self, path: &[u8])
        requires
            old(self).wf(),
        ensures
            final(self).wf(),
            final(self)@ == changed(old(self)@, Change::Remove(components(path@))),
    {
        self.remove_path(path);
    }

    /// `remove_dir_all`: every directory above the path is taken out of the
    /// order, up to the root. The path itself and what lies below it stay.
    pub fn remove_dir_all(&mut self, path: &[u8])
        requires
            old(self).wf(),
        ensures
            final(self).wf(),
            final(self)@ == changed(old(self)@, Change::RemoveForebears(components(path@))),
    {
        let canonical = ArchivePath::parse(path);
        let chain = canonical.ancestors();
        let ghost line = forebears(canonical@);
        let ghost start = self.paths@;
        let mut i: usize = 0;
        assert(line.take(0) == Seq::<Seq<Seq<u8>>>::empty());
        while i + 1 < chain.len()
            invariant
                i + 1 <= chain.len(),
                chain@.len() == line.len() + 1,
                line == forebears(canonical@),
                forall|j: int| 0 <= j < line.len() ==> (#[trigger] chain@[j])@ == line[j],
                self.paths.wf(),
                self.paths@ == without_paths(start, line.take(i as int)),
                self.format == old(self).format,
                self.compression == old(self).compression,
                self.backing == old(self).backing,
                self.times == old(self).times,
            decreases chain.len() - i,
        {
            self.paths.remove(&chain[i]);
            i += 1;
            proof {
                assert(line.take(i as int).drop_last() == line.take(i - 1));
                assert(line.take(i as int).last() == line[i - 1]);
            }
        }
        assert(line.take(line.len() as int) == line);
    }

    /// What there is to tell about how the paths are classified, whether
    /// closing succeeds or not: for each path of the order but the root, in
    /// that order, a note where the path is taken for a regular file for
    /// want of anything better.
    pub fn classification_notes(&self, observations: &Vec<Observation>) -> (notes: Vec<Diagnostic>)
        requires
            self.wf(),
        ensures
            notes@ == close_diagnostics(self@.order, observation_views(observations@)),
    {
        let paths = self.paths.snapshot();
        let ghost order = self.paths@;
        let ghost observed = observation_views(observations@);
        let mut notes: Vec<Diagnostic> = Vec::new();
        let nothing = Observation { link_target: None, info: None, content: None };
        let mut i: usize = 0;
        assert(order.take(0) == Seq::<Seq<Seq<u8>>>::empty());
        while i < paths.len()
            invariant
                i <= paths.len(),
                paths@.len() == order.len(),
                forall|j: int| 0 <= j < paths@.len() ==> (#[trigger] paths@[j])@ == order[j],
                observed == observation_views(observations@),
                nothing@ == unreadable(),
                notes@ == close_diagnostics(order.take(i as int), observed),
            decreases paths.len() - i,
        {
            let path = &paths[i];
            proof {
                assert(order.take(i + 1).drop_last() == order.take(i as int));
                assert(order.take(i + 1).last() == path@);
            }
            if !path.is_root() {
                let seen = if i < observations.len() { &observations[i] } else { &nothing };
                assert(seen@ == observation_at(observed, i as int));
                push_classification_diagnostics(&mut notes, i, seen.link_target.is_some(), &seen.info);
            }
            i += 1;
        }
        assert(order.take(paths.len() as int) == order);
        notes
    }

    /// Closes the archive. `observations` holds, for each path of
    /// [`ArchiveSession::snapshot`] and in its order, what the memory
    /// filesystem says about the path; a path beyond the end of the list
    /// counts as one about which nothing could be learnt. The plan lists the
    /// entries to encode in the order of the path set, the root left out,
    /// and names the compression that was found on opening. A path about
    /// which nothing could be learnt is written as a regular file and noted
    /// in the diagnostics; closing fails only where a path that was
    /// classified cannot be read, or lacks metadata that the format records.
    /// A path that was not written since the archive was opened is written
    /// with the modification time that was decoded for it.
    pub fn close(self, observations: &Vec<Observation>) -> (outcome: Result<ClosePlan, ArchiveError>)
        requires
            self.wf(),
        ensures
            match close_entries(self@.format, self@.order, self@.times, observation_views(observations@)) {
                Ok(entries) => outcome matches Ok(plan) && entry_views(plan.entries@) == entries
                    && plan.compression == self@.compression && plan.backing@ == self@.backing
                    && plan.diagnostics@ == close_diagnostics(self@.order, observation_views(observations@)),
                Err(error) => outcome matches Err(reason) && reason == error,
            },
    {
        let paths = self.paths.snapshot();
        let ghost order = self.paths@;
        let ghost observed = observation_views(observations@);
        let ghost times = self.times@;
        let format = self.format;
        let mut entries: Vec<Entry> = Vec::new();
        let mut diagnostics: Vec<Diagnostic> = Vec::new();
        let nothing = Observation { link_target: None, info: None, content: None };
        let mut i: usize = 0;
        proof {
            assert(order.take(0) == Seq::<Seq<Seq<u8>>>::empty());
            assert(entry_views(entries@) == Seq::<EntryView>::empty());
        }
        while i < paths.len()
            invariant
                i <= paths.len(),
                paths@.len() == order.len(),
                forall|j: int| 0 <= j < paths@.len() ==> (#[trigger] paths@[j])@ == order[j],
                observed == observation_views(observations@),
                order == self@.order,
                times == self@.times,
                format == self@.format,
                nothing@ == unreadable(),
                close_entries(format, order.take(i as int), times, observed) == Ok::<Seq<EntryView>, ArchiveError>(
                    entry_views(entries@),
                ),
                diagnostics@ == close_diagnostics(order.take(i as int), observed),
            decreases paths.len() - i,
        {
            let path = &paths[i];
            proof {
                assert(order.take(i + 1).drop_last() == order.take(i as int));
                assert(order.take(i + 1).last() == path@);
            }
            if !path.is_root() {
                let seen = if i < observations.len() { &observations[i] } else { &nothing };
                assert(seen@ == observation_at(observed, i as int));
                push_classification_diagnostics(&mut diagnostics, i, seen.link_target.is_some(), &seen.info);
                let kept = self.times.time_of(path);
                match emit_entry(format, path, kept, seen) {
                    Err(error) => {
                        proof {
                            assert(close_entries(format, order.take(i + 1), times, observed) == Err::<
                                Seq<EntryView>,
                                ArchiveError,
                            >(error));
                            lemma_close_error_stays(format, order, times, observed, i + 1);
                        }
                        return Err(error);
                    },
                    Ok(None) => {},
                    Ok(Some(entry)) => {
                        let ghost before = entry_views(entries@);
                        entries.push(entry);
                        assert(entry_views(entries@) == before.push(entry@));
                    },
                }
            }
            i += 1;
        }
        proof {
            assert(order.take(paths.len() as int) == order);
        }
        Ok(ClosePlan { entries, compression: self.compression, backing: self.backing, diagnostics })
    }
}

} // verus!
