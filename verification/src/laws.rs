//! What holds of every session, stated over the models that the contracts of
//! open and close use.

use vstd::prelude::*;

use crate::close::{
    classify, close_entries, content_or_empty, emitted_entry, fallback_metadata, no_metadata,
    node_metadata, observation_at, stored_name, NodeClass, NodeInfo, ObservationView,
};
use crate::kept::kept_time;
use crate::entry::{carried, recorded, ArchiveError, EntryMetadata, EntryView, Format, KindView};
use crate::open::{decoded_content, decoded_paths, entry_actions, opened_times, ActionView};
use crate::ordered::{
    is_order, lemma_with_path_is_order, lemma_without_path_is_order, with_path, with_paths,
    without_path, without_paths,
};
use crate::session::{changed_by, forebears, lineage, Change, SessionView};
use crate::path::{
    components, is_path, lemma_components_is_path, lemma_components_of_absolute,
    lemma_components_of_relative,
};

verus! {

/// The order that opening gives an archive whose entries have the canonical
/// paths `paths`.
pub open spec fn opened_order(entries: Seq<EntryView>) -> Seq<Seq<Seq<u8>>> {
    with_paths(Seq::<Seq<Seq<u8>>>::empty(), decoded_paths(entries))
}

/// Whether the metadata holds exactly the pieces that the format records.
pub open spec fn complete_metadata(format: Format, metadata: EntryMetadata) -> bool {
    &&& (metadata.uid is Some) == carried(format).uid
    &&& (metadata.gid is Some) == carried(format).gid
    &&& (metadata.mode is Some) == carried(format).mode
    &&& (metadata.mtime is Some) == carried(format).mtime
}

/// An entry that opening and closing can give back: it has a path below
/// the root; it is a file whose content decoding leaves alone, or, in tar,
/// a directory or a symbolic link without content; a file or directory
/// holds exactly the metadata that the format records, a link none.
pub open spec fn survives(format: Format, entry: EntryView) -> bool {
    &&& components(entry.name).len() > 0
    &&& match entry.kind {
        KindView::Regular => decoded_content(format, entry.content) == entry.content && complete_metadata(
            format,
            entry.metadata,
        ),
        KindView::Directory => format == Format::Tar && entry.content == Seq::<u8>::empty()
            && complete_metadata(format, entry.metadata),
        KindView::Symlink { target } => format == Format::Tar && entry.content == Seq::<u8>::empty()
            && entry.metadata == no_metadata(),
        KindView::HardLink { target } => false,
    }
}

/// An entry under the name that its format gives its path: `./a` and `a`
/// are both stored as `a` in ar and tar, `dir/` as `dir`. Nothing else of
/// the entry changes.
pub open spec fn as_stored(format: Format, entry: EntryView) -> EntryView {
    EntryView { name: stored_name(format, components(entry.name)), ..entry }
}

/// The entries under the names that their format gives their paths.
pub open spec fn all_as_stored(format: Format, entries: Seq<EntryView>) -> Seq<EntryView> {
    Seq::new(entries.len(), |i: int| as_stored(format, entries[i]))
}

/// Whether a node of the memory filesystem has the owner, group and mode of
/// an entry, as far as the format records them. The modification time is
/// not asked of the memory filesystem: the session keeps it.
pub open spec fn same_metadata(format: Format, metadata: EntryMetadata, node: NodeInfo) -> bool {
    &&& recorded(carried(format).uid, node.uid) == recorded(carried(format).uid, metadata.uid)
    &&& recorded(carried(format).gid, node.gid) == recorded(carried(format).gid, metadata.gid)
    &&& recorded(carried(format).mode, Some(node.mode)) == recorded(carried(format).mode, metadata.mode)
}

/// Whether an observation is what a memory filesystem says of an entry's
/// path after the entry was brought into it and nothing else happened to
/// the path: a file with the decoded content and the entry's owner, group
/// and mode, a directory with the entry's owner, group and mode, or a link
/// with the entry's target.
pub open spec fn reflects(format: Format, entry: EntryView, observed: ObservationView) -> bool {
    match entry.kind {
        KindView::Regular => {
            &&& observed.link_target is None
            &&& observed.info is Some
            &&& !observed.info->0.is_symlink
            &&& !observed.info->0.is_dir
            &&& same_metadata(format, entry.metadata, observed.info->0)
            &&& observed.content == Some(decoded_content(format, entry.content))
        },
        KindView::Directory => {
            &&& observed.link_target is None
            &&& observed.info is Some
            &&& !observed.info->0.is_symlink
            &&& observed.info->0.is_dir
            &&& same_metadata(format, entry.metadata, observed.info->0)
        },
        KindView::Symlink { target } => observed.link_target == Some(target),
        KindView::HardLink { target } => false,
    }
}

/// Adding paths that are all new and all different puts them behind the
/// order, as they come.
pub proof fn lemma_new_paths_go_last(order: Seq<Seq<Seq<u8>>>, paths: Seq<Seq<Seq<u8>>>)
    requires
        (order + paths).no_duplicates(),
    ensures
        with_paths(order, paths) == order + paths,
    decreases paths.len(),
{
    if paths.len() == 0 {
        assert(order + paths == order);
    } else {
        let front = paths.drop_last();
        let whole = order + paths;
        assert forall|i: int, j: int| 0 <= i < (order + front).len() && 0 <= j < (order + front).len() && i != j implies (
        order + front)[i] != (order + front)[j] by {
            assert((order + front)[i] == whole[i]);
            assert((order + front)[j] == whole[j]);
        }
        lemma_new_paths_go_last(order, front);
        assert(!(order + front).contains(paths.last())) by {
            if (order + front).contains(paths.last()) {
                let i = choose|i: int| 0 <= i < (order + front).len() && (order + front)[i] == paths.last();
                assert(whole[i] == (order + front)[i]);
                assert(whole[whole.len() - 1] == paths.last());
            }
        }
        assert((order + front).push(paths.last()) == whole);
    }
}

/// An archive whose entries have different paths is opened with its paths in
/// decode order.
pub proof fn lemma_open_keeps_decode_order(entries: Seq<EntryView>)
    requires
        decoded_paths(entries).no_duplicates(),
    ensures
        opened_order(entries) == decoded_paths(entries),
{
    assert(Seq::<Seq<Seq<u8>>>::empty() + decoded_paths(entries) == decoded_paths(entries));
    lemma_new_paths_go_last(Seq::<Seq<Seq<u8>>>::empty(), decoded_paths(entries));
}

/// The entry that closing writes for an entry that survives, seen through an
/// observation that reflects it and with the modification time that opening
/// kept for it, is the entry itself under its stored name.
pub proof fn lemma_entry_comes_back(format: Format, entry: EntryView, observed: ObservationView)
    requires
        survives(format, entry),
        reflects(format, entry, observed),
    ensures
        emitted_entry(
            format,
            components(entry.name),
            recorded(carried(format).mtime, entry.metadata.mtime),
            observed,
        ) == Ok::<Option<EntryView>, ArchiveError>(Some(as_stored(format, entry))),
{
    let kept = recorded(carried(format).mtime, entry.metadata.mtime);
    match entry.kind {
        KindView::Regular => {
            let node = observed.info->0;
            assert(classify(false, observed.info) == NodeClass::Regular);
            assert(node_metadata(format, node, kept) == Ok::<EntryMetadata, ArchiveError>(entry.metadata));
        },
        KindView::Directory => {
            let node = observed.info->0;
            assert(classify(false, observed.info) == NodeClass::Directory);
            assert(node_metadata(format, node, kept) == Ok::<EntryMetadata, ArchiveError>(entry.metadata));
        },
        KindView::Symlink { target } => {
            assert(classify(true, observed.info) == NodeClass::Symlink);
        },
        KindView::HardLink { target } => {},
    }
}

/// Where the entries of an archive have different paths, opening keeps for
/// each path the modification time of its entry, where the format records
/// such times, and none otherwise.
pub proof fn lemma_open_keeps_each_time(format: Format, entries: Seq<EntryView>, place: int)
    requires
        decoded_paths(entries).no_duplicates(),
        0 <= place < entries.len(),
    ensures
        kept_time(opened_times(format, entries), components(entries[place].name)) == recorded(
            carried(format).mtime,
            entries[place].metadata.mtime,
        ),
    decreases entries.len(),
{
    let front = entries.drop_last();
    let last = entries.len() - 1;
    if place < last {
        assert(decoded_paths(entries)[place] == components(entries[place].name));
        assert(decoded_paths(entries)[last] == components(entries[last].name));
        assert forall|i: int, j: int| 0 <= i < front.len() && 0 <= j < front.len() && i != j implies decoded_paths(
            front,
        )[i] != decoded_paths(front)[j] by {
            assert(decoded_paths(front)[i] == decoded_paths(entries)[i]);
            assert(decoded_paths(front)[j] == decoded_paths(entries)[j]);
        }
        lemma_open_keeps_each_time(format, front, place);
        assert(front[place] == entries[place]);
    }
}

/// Round trip. Take an archive whose entries have different paths and each
/// survive. Open it, leave it alone, and close it against a memory
/// filesystem that reflects each entry. Then exactly the same entries are
/// encoded, each under the name that the format gives its path: the same
/// paths, kinds, contents and metadata, the modification time included, in
/// the same order.
pub proof fn lemma_round_trip(format: Format, entries: Seq<EntryView>, observations: Seq<ObservationView>)
    requires
        decoded_paths(entries).no_duplicates(),
        forall|i: int| 0 <= i < entries.len() ==> survives(format, #[trigger] entries[i]),
        forall|i: int|
            0 <= i < entries.len() ==> reflects(format, #[trigger] entries[i], observation_at(observations, i)),
    ensures
        close_entries(format, opened_order(entries), opened_times(format, entries), observations) == Ok::<
            Seq<EntryView>,
            ArchiveError,
        >(all_as_stored(format, entries)),
        forall|i: int|
            0 <= i < entries.len() ==> components((#[trigger] all_as_stored(format, entries)[i]).name)
                == components(entries[i].name),
{
    lemma_open_keeps_decode_order(entries);
    lemma_round_trip_front(format, entries, observations, entries.len() as int);
    assert(all_as_stored(format, entries).take(entries.len() as int) == all_as_stored(format, entries));
    assert(decoded_paths(entries).take(entries.len() as int) == decoded_paths(entries));
    assert forall|i: int| 0 <= i < entries.len() implies components(
        (#[trigger] all_as_stored(format, entries)[i]).name,
    ) == components(entries[i].name) by {
        lemma_components_is_path(entries[i].name);
        lemma_stored_name_leads_back(format, components(entries[i].name));
    }
}

proof fn lemma_round_trip_front(
    format: Format,
    entries: Seq<EntryView>,
    observations: Seq<ObservationView>,
    count: int,
)
    requires
        0 <= count <= entries.len(),
        decoded_paths(entries).no_duplicates(),
        forall|i: int| 0 <= i < entries.len() ==> survives(format, #[trigger] entries[i]),
        forall|i: int|
            0 <= i < entries.len() ==> reflects(format, #[trigger] entries[i], observation_at(observations, i)),
    ensures
        close_entries(
            format,
            decoded_paths(entries).take(count),
            opened_times(format, entries),
            observations,
        ) == Ok::<Seq<EntryView>, ArchiveError>(all_as_stored(format, entries).take(count)),
    decreases count,
{
    let paths = decoded_paths(entries);
    if count == 0 {
        assert(all_as_stored(format, entries).take(0) == Seq::<EntryView>::empty());
    } else {
        lemma_round_trip_front(format, entries, observations, count - 1);
        let last = entries[count - 1];
        assert(paths.take(count).drop_last() == paths.take(count - 1));
        assert(paths.take(count).last() == components(last.name));
        lemma_open_keeps_each_time(format, entries, count - 1);
        lemma_entry_comes_back(format, last, observation_at(observations, count - 1));
        assert(all_as_stored(format, entries).take(count - 1).push(as_stored(format, last)) == all_as_stored(
            format,
            entries,
        ).take(count));
    }
}

/// Order preservation. Whatever closing encodes, it encodes in the order of
/// the path set: the entries' names are the stored names of paths of the
/// order, at places that grow from entry to entry.
pub proof fn lemma_close_keeps_order(
    format: Format,
    order: Seq<Seq<Seq<u8>>>,
    times: Map<Seq<Seq<u8>>, u64>,
    observations: Seq<ObservationView>,
) -> (places: Seq<int>)
    requires
        close_entries(format, order, times, observations) is Ok,
    ensures
        places.len() == close_entries(format, order, times, observations)->Ok_0.len(),
        forall|k: int| 0 <= k < places.len() ==> 0 <= #[trigger] places[k] < order.len(),
        forall|k: int, l: int| 0 <= k < l < places.len() ==> places[k] < places[l],
        forall|k: int|
            0 <= k < places.len() ==> (#[trigger] close_entries(format, order, times, observations)->Ok_0[k]).name
                == stored_name(format, order[places[k]]),
    decreases order.len(),
{
    if order.len() == 0 {
        Seq::<int>::empty()
    } else {
        let front = lemma_close_keeps_order(format, order.drop_last(), times, observations);
        let last = order.len() - 1;
        if order.last().len() == 0 {
            front
        } else {
            match emitted_entry(format, order.last(), kept_time(times, order.last()), observation_at(observations, last)) {
                Ok(Some(entry)) => front.push(last),
                _ => front,
            }
        }
    }
}

/// Order preservation for an archive that is opened and closed unmodified.
/// Let its entries have different paths, none of them the root, and let the
/// format write an entry for each of them. Then closing encodes as many
/// entries as were decoded, and the entry at each place is stored under the
/// name of the path that was decoded at that place.
pub proof fn lemma_unmodified_archive_keeps_order(
    format: Format,
    entries: Seq<EntryView>,
    observations: Seq<ObservationView>,
)
    requires
        decoded_paths(entries).no_duplicates(),
        forall|i: int| 0 <= i < entries.len() ==> components((#[trigger] entries[i]).name).len() > 0,
        forall|i: int|
            0 <= i < entries.len() ==> emitted_entry(
                format,
                components((#[trigger] entries[i]).name),
                kept_time(opened_times(format, entries), components(entries[i].name)),
                observation_at(observations, i),
            ) matches Ok(Some(entry)),
    ensures
        close_entries(format, opened_order(entries), opened_times(format, entries), observations) matches Ok(encoded) && encoded.len()
            == entries.len() && forall|i: int|
            0 <= i < entries.len() ==> (#[trigger] encoded[i]).name == stored_name(
                format,
                components(entries[i].name),
            ),
{
    lemma_open_keeps_decode_order(entries);
    lemma_unmodified_front(format, entries, observations, entries.len() as int);
    assert(decoded_paths(entries).take(entries.len() as int) == decoded_paths(entries));
}

proof fn lemma_unmodified_front(
    format: Format,
    entries: Seq<EntryView>,
    observations: Seq<ObservationView>,
    count: int,
)
    requires
        0 <= count <= entries.len(),
        forall|i: int| 0 <= i < entries.len() ==> components((#[trigger] entries[i]).name).len() > 0,
        forall|i: int|
            0 <= i < entries.len() ==> emitted_entry(
                format,
                components((#[trigger] entries[i]).name),
                kept_time(opened_times(format, entries), components(entries[i].name)),
                observation_at(observations, i),
            ) matches Ok(Some(entry)),
    ensures
        close_entries(
            format,
            decoded_paths(entries).take(count),
            opened_times(format, entries),
            observations,
        ) matches Ok(encoded)
            && encoded.len() == count && forall|i: int|
            0 <= i < count ==> (#[trigger] encoded[i]).name == stored_name(format, components(entries[i].name)),
    decreases count,
{
    let paths = decoded_paths(entries);
    if count > 0 {
        lemma_unmodified_front(format, entries, observations, count - 1);
        let last = entries[count - 1];
        assert(paths.take(count).drop_last() == paths.take(count - 1));
        assert(paths.take(count).last() == components(last.name));
    }
}

/// Append semantics. A path that the order does not hold yet goes last, and
/// the entry that closing writes for it is encoded behind all the entries
/// that were encoded without it.
pub proof fn lemma_new_file_is_encoded_last(
    format: Format,
    order: Seq<Seq<Seq<u8>>>,
    times: Map<Seq<Seq<u8>>, u64>,
    observations: Seq<ObservationView>,
    path: Seq<Seq<u8>>,
)
    requires
        !order.contains(path),
        path.len() > 0,
        close_entries(format, order, times, observations) is Ok,
        emitted_entry(format, path, kept_time(times, path), observation_at(observations, order.len() as int)) matches Ok(Some(entry)),
    ensures
        with_path(order, path) == order.push(path),
        close_entries(format, with_path(order, path), times, observations) == Ok::<Seq<EntryView>, ArchiveError>(
            close_entries(format, order, times, observations)->Ok_0.push(
                emitted_entry(format, path, kept_time(times, path), observation_at(observations, order.len() as int))->Ok_0->0,
            ),
        ),
{
    assert(order.push(path).drop_last() == order);
}

/// Directory implication, on close. An archive of a format without
/// directory entries is encoded as regular files and nothing else, whatever
/// directories and links the order holds.
pub proof fn lemma_only_files_are_encoded(
    format: Format,
    order: Seq<Seq<Seq<u8>>>,
    times: Map<Seq<Seq<u8>>, u64>,
    observations: Seq<ObservationView>,
)
    requires
        format != Format::Tar,
        close_entries(format, order, times, observations) is Ok,
    ensures
        forall|k: int|
            0 <= k < close_entries(format, order, times, observations)->Ok_0.len() ==> (#[trigger] close_entries(format, order, times, observations)->Ok_0[k]).kind is Regular,
    decreases order.len(),
{
    if order.len() > 0 {
        lemma_only_files_are_encoded(format, order.drop_last(), times, observations);
    }
}

/// Directory implication, on open. A file below the root is brought in by
/// first creating the directory that holds it, with all above, and then
/// writing the file.
pub proof fn lemma_file_brings_its_directory(format: Format, entry: EntryView)
    requires
        entry.kind is Regular,
        components(entry.name).len() > 0,
    ensures
        entry_actions(format, entry).len() >= 2,
        entry_actions(format, entry)[0] == (ActionView::CreateDirAll {
            path: components(entry.name).drop_last(),
            tolerant: false,
        }),
        entry_actions(format, entry)[1] == (ActionView::WriteFile {
            path: components(entry.name),
            content: decoded_content(format, entry.content),
        }),
{
}

/// Symlink fidelity. In tar, a symbolic link whose target can be read is
/// encoded as a link entry that carries the target as it is; opening that
/// entry creates a link at the same path with the same target.
pub proof fn lemma_symlink_keeps_path_and_target(
    link: Seq<Seq<u8>>,
    target: Seq<u8>,
    kept: Option<u64>,
    observed: ObservationView,
)
    requires
        is_path(link),
        link.len() > 0,
        observed.link_target == Some(target),
    ensures
        emitted_entry(Format::Tar, link, kept, observed) matches Ok(Some(entry)) && entry.kind == (KindView::Symlink {
            target,
        }) && components(entry.name) == link && entry_actions(Format::Tar, entry).last() == (ActionView::Symlink {
            target,
            link,
        }),
{
    lemma_components_of_relative(link);
}

/// Whether the paths that a change names are canonical.
pub open spec fn names_paths(change: Change) -> bool {
    match change {
        Change::Add(path) => is_path(path),
        Change::Remove(path) => is_path(path),
        Change::AddLineage(path) => is_path(path),
        Change::RemoveForebears(path) => is_path(path),
        Change::Rename(from, to) => is_path(from) && is_path(to),
        Change::Touch(path) => is_path(path),
    }
}

/// Adding canonical paths to an order gives an order.
pub proof fn lemma_with_paths_is_order(order: Seq<Seq<Seq<u8>>>, paths: Seq<Seq<Seq<u8>>>)
    requires
        is_order(order),
        forall|i: int| 0 <= i < paths.len() ==> is_path(#[trigger] paths[i]),
    ensures
        is_order(with_paths(order, paths)),
    decreases paths.len(),
{
    if paths.len() > 0 {
        lemma_with_paths_is_order(order, paths.drop_last());
        lemma_with_path_is_order(with_paths(order, paths.drop_last()), paths.last());
    }
}

/// Taking paths out of an order gives an order.
pub proof fn lemma_without_paths_is_order(order: Seq<Seq<Seq<u8>>>, paths: Seq<Seq<Seq<u8>>>)
    requires
        is_order(order),
    ensures
        is_order(without_paths(order, paths)),
    decreases paths.len(),
{
    if paths.len() > 0 {
        lemma_without_paths_is_order(order, paths.drop_last());
        lemma_without_path_is_order(without_paths(order, paths.drop_last()), paths.last());
    }
}

/// The path set stays a set. Whatever operations are applied to a session
/// whose order holds no path twice and only canonical paths, the order holds
/// no path twice and only canonical paths afterwards.
pub proof fn lemma_changes_keep_an_order(session: SessionView, changes: Seq<Change>)
    requires
        is_order(session.order),
        forall|i: int| 0 <= i < changes.len() ==> names_paths(#[trigger] changes[i]),
    ensures
        is_order(changed_by(session, changes).order),
    decreases changes.len(),
{
    if changes.len() > 0 {
        lemma_changes_keep_an_order(session, changes.drop_last());
        let before = changed_by(session, changes.drop_last()).order;
        match changes.last() {
            Change::Add(path) => {
                lemma_with_path_is_order(before, path);
            },
            Change::Remove(path) => {
                lemma_without_path_is_order(before, path);
            },
            Change::AddLineage(path) => {
                assert forall|i: int| 0 <= i < lineage(path).len() implies is_path(#[trigger] lineage(path)[i]) by {
                    assert(lineage(path)[i] == path.take(i));
                }
                lemma_with_paths_is_order(before, lineage(path));
            },
            Change::RemoveForebears(path) => {
                lemma_without_paths_is_order(before, forebears(path));
            },
            Change::Rename(from, to) => {
                lemma_without_path_is_order(before, from);
                lemma_with_path_is_order(without_path(before, from), to);
            },
            Change::Touch(path) => {},
        }
    }
}

/// Compression round trip, as far as the session goes. Whatever operations
/// are applied to a session, it keeps the compression that was found when
/// the archive was opened, and with it the format and the backing file:
/// closing names that compression for the encoded stream.
pub proof fn lemma_changes_keep_the_compression(session: SessionView, changes: Seq<Change>)
    ensures
        changed_by(session, changes).compression == session.compression,
        changed_by(session, changes).format == session.format,
        changed_by(session, changes).backing == session.backing,
    decreases changes.len(),
{
    if changes.len() > 0 {
        lemma_changes_keep_the_compression(session, changes.drop_last());
    }
}

/// `create_dir_all` puts a directory behind all the directories above it
/// that it adds: of two paths of the lineage that were both new, the
/// shorter one stands first.
pub proof fn lemma_lineage_goes_root_first(order: Seq<Seq<Seq<u8>>>, path: Seq<Seq<u8>>)
    requires
        forall|i: int| 0 <= i <= path.len() ==> !order.contains(#[trigger] path.take(i)),
    ensures
        with_paths(order, lineage(path)) == order + lineage(path),
{
    let line = lineage(path);
    assert forall|i: int, j: int| 0 <= i < line.len() && 0 <= j < line.len() && i != j implies line[i] != line[j] by {
        assert(line[i].len() == i);
        assert(line[j].len() == j);
    }
    lemma_lineage_appended(order, path, line.len() as int);
    assert(line.take(line.len() as int) == line);
}

proof fn lemma_lineage_appended(order: Seq<Seq<Seq<u8>>>, path: Seq<Seq<u8>>, count: int)
    requires
        0 <= count <= path.len() + 1,
        forall|i: int| 0 <= i <= path.len() ==> !order.contains(#[trigger] path.take(i)),
    ensures
        with_paths(order, lineage(path).take(count)) == order + lineage(path).take(count),
    decreases count,
{
    let line = lineage(path);
    if count == 0 {
        assert(order + line.take(0) == order);
    } else {
        lemma_lineage_appended(order, path, count - 1);
        let front = line.take(count - 1);
        let last = line[count - 1];
        assert(line.take(count).drop_last() == front);
        assert(line.take(count).last() == last);
        assert(last == path.take(count - 1));
        assert(!(order + front).contains(last)) by {
            if (order + front).contains(last) {
                let k = choose|k: int| 0 <= k < (order + front).len() && (order + front)[k] == last;
                if k < order.len() {
                    assert(order[k] == last);
                    assert(order.contains(last));
                } else {
                    assert(front[k - order.len()] == line[k - order.len()]);
                    assert(line[k - order.len()].len() == k - order.len());
                    assert(last.len() == count - 1);
                }
            }
        }
        assert((order + front).push(last) == order + line.take(count));
    }
}

/// One path does not stop the close. A path about which nothing could be
/// learnt, neither a link target nor metadata, is written as a regular
/// file under its stored name, with what content could be read and the
/// metadata that stands in; closing goes on to the paths behind it.
pub proof fn lemma_unreadable_path_is_written_as_file(
    format: Format,
    path: Seq<Seq<u8>>,
    kept: Option<u64>,
    observed: ObservationView,
)
    requires
        observed.link_target is None,
        observed.info is None,
    ensures
        emitted_entry(format, path, kept, observed) == Ok::<Option<EntryView>, ArchiveError>(
            Some(
                EntryView {
                    name: stored_name(format, path),
                    kind: KindView::Regular,
                    content: content_or_empty(observed.content),
                    metadata: fallback_metadata(format, kept),
                },
            ),
        ),
{
}

/// Empty archive. A session without paths is encoded as an archive without
/// entries, whatever the memory filesystem says.
pub proof fn lemma_empty_session_has_no_entries(
    format: Format,
    times: Map<Seq<Seq<u8>>, u64>,
    observations: Seq<ObservationView>,
)
    ensures
        close_entries(format, Seq::<Seq<Seq<u8>>>::empty(), times, observations) == Ok::<Seq<EntryView>, ArchiveError>(
            Seq::<EntryView>::empty(),
        ),
{
}

/// The name under which a path is stored leads back to the path.
pub proof fn lemma_stored_name_leads_back(format: Format, path: Seq<Seq<u8>>)
    requires
        is_path(path),
    ensures
        components(stored_name(format, path)) == path,
{
    lemma_components_of_relative(path);
    lemma_components_of_absolute(path);
}

} // verus!
