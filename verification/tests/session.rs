use flop::close::{NodeInfo, Observation};
use flop::entry::{
    ArchiveError, CodecFault, CompressionKind, Diagnostic, Entry, EntryKind, EntryMetadata,
    Format, MetadataField,
};
use flop::open::FsAction;
use flop::path::ArchivePath;
use flop::session::ArchiveSession;

fn path(raw: &str) -> ArchivePath {
    ArchivePath::parse(raw.as_bytes())
}

fn order(session: &ArchiveSession) -> Vec<String> {
    session.snapshot().iter().map(|p| String::from_utf8(p.to_bytes()).unwrap()).collect()
}

fn full(uid: u32, gid: u32, mode: u32, mtime: Option<u64>) -> EntryMetadata {
    EntryMetadata { uid: Some(uid), gid: Some(gid), mode: Some(mode), mtime }
}

fn nothing() -> EntryMetadata {
    EntryMetadata { uid: None, gid: None, mode: None, mtime: None }
}

fn file(name: &str, content: &[u8], metadata: EntryMetadata) -> Entry {
    Entry { name: name.as_bytes().to_vec(), kind: EntryKind::Regular, content: content.to_vec(), metadata }
}

fn node(is_dir: bool, mode: u32) -> NodeInfo {
    NodeInfo { is_symlink: false, is_dir, is_file: !is_dir, mode, uid: Some(0), gid: Some(0), mtime: Some(0) }
}

fn seen_file(content: &[u8], mode: u32, uid: u32, gid: u32, mtime: u64) -> Observation {
    Observation {
        link_target: None,
        info: Some(NodeInfo { is_symlink: false, is_dir: false, is_file: true, mode, uid: Some(uid), gid: Some(gid), mtime: Some(mtime) }),
        content: Some(content.to_vec()),
    }
}

fn seen_dir(mode: u32) -> Observation {
    Observation { link_target: None, info: Some(node(true, mode)), content: None }
}

fn seen_link(target: &str) -> Observation {
    Observation {
        link_target: Some(target.as_bytes().to_vec()),
        info: Some(NodeInfo { is_symlink: true, is_dir: false, is_file: false, mode: 0o777, uid: Some(0), gid: Some(0), mtime: Some(0) }),
        content: None,
    }
}

fn abc(format: Format, relative: bool) -> Vec<Entry> {
    let lead = if relative { "" } else { "/" };
    let mtime = if format == Format::Ar { Some(5) } else { None };
    let metadata = match format {
        Format::Zip => EntryMetadata { uid: None, gid: None, mode: Some(0o644), mtime: None },
        _ => full(1, 2, 0o644, mtime),
    };
    vec![
        file(&format!("{}a.txt", lead), b"asdf\n", metadata),
        file(&format!("{}b.txt", lead), b"bb", metadata),
        file(&format!("{}c.txt", lead), b"", metadata),
    ]
}

fn abc_observations() -> Vec<Observation> {
    vec![seen_file(b"asdf\n", 0o644, 1, 2, 901), seen_file(b"bb", 0o644, 1, 2, 902), seen_file(b"", 0o644, 1, 2, 903)]
}

#[test]
fn open_absent_is_empty_and_uncompressed() {
    let session = ArchiveSession::open_absent(Format::Tar, b"/tmp/new.tar");
    assert_eq!(session.format(), Format::Tar);
    assert_eq!(session.compression(), CompressionKind::Stored);
    assert_eq!(session.backing(), &b"/tmp/new.tar".to_vec());
    assert!(session.snapshot().is_empty());
}

#[test]
fn empty_archive_closes_to_no_entries() {
    for format in [Format::Ar, Format::Cpio, Format::Tar, Format::Zip] {
        let session = ArchiveSession::open_absent(format, b"/tmp/new");
        let plan = session.close(&Vec::new()).unwrap();
        assert!(plan.entries.is_empty());
        assert!(plan.diagnostics.is_empty());
        assert_eq!(plan.compression, CompressionKind::Stored);
        assert_eq!(plan.backing, b"/tmp/new".to_vec());
    }
}

#[test]
fn open_puts_paths_in_decode_order() {
    let entries = vec![
        file("c.txt", b"3", full(0, 0, 0o644, Some(0))),
        file("a.txt", b"1", full(0, 0, 0o644, Some(0))),
        file("b.txt", b"2", full(0, 0, 0o644, Some(0))),
    ];
    let (session, _) = ArchiveSession::open(Format::Ar, b"x.ar", CompressionKind::Stored, &entries).unwrap();
    assert_eq!(order(&session), vec!["/c.txt", "/a.txt", "/b.txt"]);
}

#[test]
fn open_plans_directory_then_file_then_metadata() {
    let entries = vec![file("test/thing/heck.txt", b"omg!!!", full(1000, 100, 0o640, None))];
    let (_, plan) = ArchiveSession::open(Format::Tar, b"x.tar", CompressionKind::Stored, &entries).unwrap();
    assert_eq!(
        plan.actions,
        vec![
            FsAction::CreateDirAll { path: path("/test/thing"), tolerant: false },
            FsAction::WriteFile { path: path("/test/thing/heck.txt"), content: b"omg!!!".to_vec() },
            FsAction::SetPermissions { path: path("/test/thing/heck.txt"), mode: 0o640 },
            FsAction::Chown { path: path("/test/thing/heck.txt"), uid: 1000, gid: 100 },
        ]
    );
    assert!(plan.diagnostics.is_empty());
}

#[test]
fn open_of_a_top_level_file_creates_the_root() {
    let entries = vec![file("a.txt", b"asdf\n", full(0, 0, 0o644, Some(0)))];
    let (_, plan) = ArchiveSession::open(Format::Ar, b"x.ar", CompressionKind::Stored, &entries).unwrap();
    assert_eq!(plan.actions[0], FsAction::CreateDirAll { path: ArchivePath::root(), tolerant: false });
    assert_eq!(plan.actions[1], FsAction::WriteFile { path: path("/a.txt"), content: b"asdf\n".to_vec() });
}

#[test]
fn zip_applies_the_mode_only() {
    let entries = vec![file("/a.txt", b"x", full(5, 6, 0o600, Some(9)))];
    let (_, plan) = ArchiveSession::open(Format::Zip, b"x.zip", CompressionKind::Stored, &entries).unwrap();
    assert_eq!(
        plan.actions,
        vec![
            FsAction::CreateDirAll { path: ArchivePath::root(), tolerant: false },
            FsAction::WriteFile { path: path("/a.txt"), content: b"x".to_vec() },
            FsAction::SetPermissions { path: path("/a.txt"), mode: 0o600 },
        ]
    );
}

#[test]
fn cpio_content_loses_one_trailing_nul() {
    let entries = vec![
        file("/a", b"asdf\n\0", full(0, 0, 0o644, None)),
        file("/b", b"x\0\0", full(0, 0, 0o644, None)),
        file("/c", b"\0", full(0, 0, 0o644, None)),
        file("/d", b"", full(0, 0, 0o644, None)),
        file("/e", b"\0x", full(0, 0, 0o644, None)),
    ];
    let (_, plan) = ArchiveSession::open(Format::Cpio, b"x.cpio", CompressionKind::Stored, &entries).unwrap();
    let written: Vec<Vec<u8>> = plan
        .actions
        .iter()
        .filter_map(|a| match a {
            FsAction::WriteFile { content, .. } => Some(content.clone()),
            _ => None,
        })
        .collect();
    assert_eq!(written, vec![b"asdf\n".to_vec(), b"x\0".to_vec(), b"".to_vec(), b"".to_vec(), b"\0x".to_vec()]);
}

#[test]
fn other_formats_keep_a_trailing_nul() {
    for format in [Format::Ar, Format::Tar, Format::Zip] {
        let entries = vec![file("a", b"asdf\0", full(0, 0, 0o644, Some(0)))];
        let (_, plan) = ArchiveSession::open(format, b"x", CompressionKind::Stored, &entries).unwrap();
        assert_eq!(plan.actions[1], FsAction::WriteFile { path: path("/a"), content: b"asdf\0".to_vec() });
    }
}

#[test]
fn tar_directory_is_created_with_its_metadata() {
    let entries = vec![Entry { name: b"dir/sub/".to_vec(), kind: EntryKind::Directory, content: Vec::new(), metadata: full(3, 4, 0o755, None) }];
    let (session, plan) = ArchiveSession::open(Format::Tar, b"x.tar", CompressionKind::Stored, &entries).unwrap();
    assert_eq!(
        plan.actions,
        vec![
            FsAction::CreateDirAll { path: path("/dir/sub"), tolerant: false },
            FsAction::SetPermissions { path: path("/dir/sub"), mode: 0o755 },
            FsAction::Chown { path: path("/dir/sub"), uid: 3, gid: 4 },
        ]
    );
    assert_eq!(order(&session), vec!["/dir/sub"]);
}

#[test]
fn tar_symlink_creates_both_parents_tolerantly() {
    let entries = vec![Entry { name: b"links/link".to_vec(), kind: EntryKind::Symlink { target: b"/data/target".to_vec() }, content: Vec::new(), metadata: nothing() }];
    let (session, plan) = ArchiveSession::open(Format::Tar, b"x.tar", CompressionKind::Stored, &entries).unwrap();
    assert_eq!(
        plan.actions,
        vec![
            FsAction::CreateDirAll { path: path("/links"), tolerant: true },
            FsAction::CreateDirAll { path: path("/data"), tolerant: true },
            FsAction::Symlink { target: b"/data/target".to_vec(), link: path("/links/link") },
        ]
    );
    assert_eq!(order(&session), vec!["/links/link"]);
}

#[test]
fn tar_hard_link_duplicates_the_target() {
    let entries = vec![
        file("a.txt", b"x", full(0, 0, 0o644, None)),
        Entry { name: b"again.txt".to_vec(), kind: EntryKind::HardLink { target: b"a.txt".to_vec() }, content: Vec::new(), metadata: nothing() },
    ];
    let (session, plan) = ArchiveSession::open(Format::Tar, b"x.tar", CompressionKind::Stored, &entries).unwrap();
    assert_eq!(plan.actions.last().unwrap(), &FsAction::Copy { from: path("/a.txt"), to: path("/again.txt") });
    assert_eq!(order(&session), vec!["/a.txt", "/again.txt"]);
}

#[test]
fn formats_without_links_refuse_them_on_open() {
    for format in [Format::Ar, Format::Cpio, Format::Zip] {
        let entries = vec![
            file("a.txt", b"x", full(0, 0, 0o644, None)),
            Entry { name: b"l".to_vec(), kind: EntryKind::Symlink { target: b"a.txt".to_vec() }, content: Vec::new(), metadata: nothing() },
        ];
        let outcome = ArchiveSession::open(format, b"x", CompressionKind::Stored, &entries);
        assert_eq!(outcome.err(), Some(ArchiveError::Codec(CodecFault::UnsupportedEntry)));
        let dirs = vec![Entry { name: b"d".to_vec(), kind: EntryKind::Directory, content: Vec::new(), metadata: nothing() }];
        let outcome = ArchiveSession::open(format, b"x", CompressionKind::Stored, &dirs);
        assert_eq!(outcome.err(), Some(ArchiveError::Codec(CodecFault::UnsupportedEntry)));
    }
}

#[test]
fn missing_metadata_is_tolerated_with_diagnostics() {
    let entries = vec![
        file("a.txt", b"x", full(1, 2, 0o644, Some(3))),
        file("b.txt", b"y", EntryMetadata { uid: None, gid: Some(7), mode: None, mtime: None }),
    ];
    let (_, plan) = ArchiveSession::open(Format::Ar, b"x.ar", CompressionKind::Stored, &entries).unwrap();
    assert_eq!(
        plan.diagnostics,
        vec![
            Diagnostic::MissingMetadata { entry: 1, field: MetadataField::Uid },
            Diagnostic::MissingMetadata { entry: 1, field: MetadataField::Mode },
            Diagnostic::MissingMetadata { entry: 1, field: MetadataField::Mtime },
        ]
    );
    let tail: Vec<FsAction> = plan.actions[4..].to_vec();
    assert_eq!(
        tail,
        vec![
            FsAction::CreateDirAll { path: ArchivePath::root(), tolerant: false },
            FsAction::WriteFile { path: path("/b.txt"), content: b"y".to_vec() },
            FsAction::Chown { path: path("/b.txt"), uid: 0, gid: 7 },
        ]
    );
}

#[test]
fn repeated_entry_keeps_its_first_place() {
    let entries = vec![
        file("a", b"1", full(0, 0, 0o644, Some(0))),
        file("b", b"2", full(0, 0, 0o644, Some(0))),
        file("./a", b"3", full(0, 0, 0o644, Some(0))),
    ];
    let (session, plan) = ArchiveSession::open(Format::Ar, b"x.ar", CompressionKind::Stored, &entries).unwrap();
    assert_eq!(order(&session), vec!["/a", "/b"]);
    assert_eq!(plan.actions.len(), 12);
}

#[test]
fn order_preservation_for_an_unmodified_archive() {
    let (session, _) = ArchiveSession::open(Format::Ar, b"x.ar", CompressionKind::Stored, &abc(Format::Ar, true)).unwrap();
    assert_eq!(order(&session), vec!["/a.txt", "/b.txt", "/c.txt"]);
    let plan = session.close(&abc_observations()).unwrap();
    let names: Vec<Vec<u8>> = plan.entries.iter().map(|e| e.name.clone()).collect();
    assert_eq!(names, vec![b"a.txt".to_vec(), b"b.txt".to_vec(), b"c.txt".to_vec()]);
}

#[test]
fn round_trip_gives_the_same_entries_in_every_format() {
    for (format, relative) in [(Format::Ar, true), (Format::Cpio, false), (Format::Tar, true), (Format::Zip, false)] {
        let entries = abc(format, relative);
        let (session, _) = ArchiveSession::open(format, b"x", CompressionKind::Gzip, &entries).unwrap();
        let plan = session.close(&abc_observations()).unwrap();
        assert_eq!(plan.entries, entries);
        assert_eq!(plan.compression, CompressionKind::Gzip);
        assert!(plan.diagnostics.is_empty());
    }
}

#[test]
fn tar_round_trip_with_directory_and_link() {
    let entries = vec![
        Entry { name: b"dir".to_vec(), kind: EntryKind::Directory, content: Vec::new(), metadata: full(1, 2, 0o755, None) },
        file("dir/a.txt", b"asdf\n", full(1, 2, 0o644, None)),
        Entry { name: b"link".to_vec(), kind: EntryKind::Symlink { target: b"/target".to_vec() }, content: Vec::new(), metadata: nothing() },
    ];
    let (session, _) = ArchiveSession::open(Format::Tar, b"x.tar", CompressionKind::Zstd, &entries).unwrap();
    let observations = vec![
        Observation { link_target: None, info: Some(NodeInfo { is_symlink: false, is_dir: true, is_file: false, mode: 0o755, uid: Some(1), gid: Some(2), mtime: None }), content: None },
        seen_file(b"asdf\n", 0o644, 1, 2, 77),
        seen_link("/target"),
    ];
    let plan = session.close(&observations).unwrap();
    assert_eq!(plan.entries, entries);
    assert_eq!(plan.compression, CompressionKind::Zstd);
}

#[test]
fn append_semantics_new_file_goes_last() {
    let (mut session, _) = ArchiveSession::open(Format::Ar, b"x.ar", CompressionKind::Stored, &abc(Format::Ar, true)).unwrap();
    session.write(b"/d.txt");
    assert_eq!(order(&session), vec!["/a.txt", "/b.txt", "/c.txt", "/d.txt"]);
    let mut observations = abc_observations();
    observations.push(seen_file(b"wow!!!", 0o600, 9, 9, 9));
    let plan = session.close(&observations).unwrap();
    let names: Vec<Vec<u8>> = plan.entries.iter().map(|e| e.name.clone()).collect();
    assert_eq!(names, vec![b"a.txt".to_vec(), b"b.txt".to_vec(), b"c.txt".to_vec(), b"d.txt".to_vec()]);
    assert_eq!(plan.entries[3], file("d.txt", b"wow!!!", full(9, 9, 0o600, Some(9))));
}

#[test]
fn writing_a_known_file_again_keeps_its_place() {
    let (mut session, _) = ArchiveSession::open(Format::Ar, b"x.ar", CompressionKind::Stored, &abc(Format::Ar, true)).unwrap();
    session.write(b"/a.txt");
    session.write(b"b.txt");
    assert_eq!(order(&session), vec!["/a.txt", "/b.txt", "/c.txt"]);
}

#[test]
fn directory_implication_emits_only_the_file() {
    for format in [Format::Ar, Format::Cpio, Format::Zip] {
        let mut session = ArchiveSession::open_absent(format, b"x");
        session.write(b"/x/y/z.txt");
        assert_eq!(order(&session), vec!["/x/y/z.txt"]);
        let plan = session.close(&vec![seen_file(b"deep", 0o644, 0, 0, 0)]).unwrap();
        assert_eq!(plan.entries.len(), 1);
        assert_eq!(plan.entries[0].kind, EntryKind::Regular);
        assert_eq!(plan.entries[0].content, b"deep".to_vec());
        let (_, reopened) = ArchiveSession::open(format, b"x", CompressionKind::Stored, &plan.entries).unwrap();
        assert_eq!(reopened.actions[0], FsAction::CreateDirAll { path: path("/x/y"), tolerant: false });
        assert_eq!(reopened.actions[1], FsAction::WriteFile { path: path("/x/y/z.txt"), content: b"deep".to_vec() });
    }
}

#[test]
fn explicit_directories_are_left_out_of_formats_without_them() {
    for format in [Format::Ar, Format::Cpio, Format::Zip] {
        let mut session = ArchiveSession::open_absent(format, b"x");
        session.create_dir_all(b"/test/thing");
        session.write(b"/test/thing/heck.txt");
        session.symlink(b"/test/thing/heck.txt", b"/short");
        assert_eq!(order(&session), vec!["/", "/test", "/test/thing", "/test/thing/heck.txt", "/short"]);
        let observations = vec![seen_dir(0o755), seen_dir(0o755), seen_dir(0o755), seen_file(b"omg!!!", 0o644, 0, 0, 0), seen_link("/test/thing/heck.txt")];
        let plan = session.close(&observations).unwrap();
        assert_eq!(plan.entries.len(), 1);
        assert_eq!(plan.entries[0].content, b"omg!!!".to_vec());
        assert_eq!(ArchivePath::parse(&plan.entries[0].name), path("/test/thing/heck.txt"));
    }
}

#[test]
fn stored_names_are_relative_in_ar_and_tar_only() {
    for (format, expected) in [(Format::Ar, &b"d/f"[..]), (Format::Tar, &b"d/f"[..]), (Format::Cpio, &b"/d/f"[..]), (Format::Zip, &b"/d/f"[..])] {
        let mut session = ArchiveSession::open_absent(format, b"x");
        session.write(b"/d/f");
        let plan = session.close(&vec![seen_file(b"", 0o644, 0, 0, 0)]).unwrap();
        assert_eq!(plan.entries[0].name, expected.to_vec());
    }
}

#[test]
fn tar_emits_directories_and_links_and_skips_the_root() {
    let mut session = ArchiveSession::open_absent(Format::Tar, b"x.tar");
    session.create_dir_all(b"/test/thing");
    session.write(b"/test/thing/heck.txt");
    let observations = vec![seen_dir(0o755), seen_dir(0o750), seen_dir(0o700), seen_file(b"omg!!!", 0o644, 5, 6, 0)];
    let plan = session.close(&observations).unwrap();
    assert_eq!(
        plan.entries,
        vec![
            Entry { name: b"test".to_vec(), kind: EntryKind::Directory, content: Vec::new(), metadata: full(0, 0, 0o750, None) },
            Entry { name: b"test/thing".to_vec(), kind: EntryKind::Directory, content: Vec::new(), metadata: full(0, 0, 0o700, None) },
            file("test/thing/heck.txt", b"omg!!!", full(5, 6, 0o644, None)),
        ]
    );
}

#[test]
fn symlink_fidelity_in_tar() {
    let mut session = ArchiveSession::open_absent(Format::Tar, b"x.tar");
    session.symlink(b"/target", b"/link");
    assert_eq!(order(&session), vec!["/link"]);
    let plan = session.close(&vec![seen_link("/target")]).unwrap();
    assert_eq!(
        plan.entries,
        vec![Entry { name: b"link".to_vec(), kind: EntryKind::Symlink { target: b"/target".to_vec() }, content: Vec::new(), metadata: nothing() }]
    );
    let (reopened, actions) = ArchiveSession::open(Format::Tar, b"x.tar", CompressionKind::Stored, &plan.entries).unwrap();
    assert_eq!(order(&reopened), vec!["/link"]);
    assert_eq!(actions.actions.last().unwrap(), &FsAction::Symlink { target: b"/target".to_vec(), link: path("/link") });
}

#[test]
fn symlink_target_is_kept_byte_for_byte() {
    let mut session = ArchiveSession::open_absent(Format::Tar, b"x.tar");
    session.symlink(b"../odd//./target/", b"/a/link");
    let plan = session.close(&vec![seen_link("../odd//./target/")]).unwrap();
    assert_eq!(plan.entries[0].kind, EntryKind::Symlink { target: b"../odd//./target/".to_vec() });
}

#[test]
fn create_dir_all_adds_every_ancestor_root_first() {
    let mut session = ArchiveSession::open_absent(Format::Tar, b"x.tar");
    session.create_dir_all(b"/a/b/c/d/e/f/g");
    assert_eq!(order(&session), vec!["/", "/a", "/a/b", "/a/b/c", "/a/b/c/d", "/a/b/c/d/e", "/a/b/c/d/e/f", "/a/b/c/d/e/f/g"]);
    session.create_dir_all(b"/a/b/x");
    assert_eq!(order(&session).len(), 9);
    assert_eq!(order(&session).last().unwrap(), "/a/b/x");
    session.create_dir_all(b"1/2");
    assert_eq!(&order(&session)[9..], &["/1".to_string(), "/1/2".to_string()]);
}

#[test]
fn create_dir_adds_the_directory_alone() {
    let mut session = ArchiveSession::open_absent(Format::Tar, b"x.tar");
    session.create_dir(b"/a/b");
    assert_eq!(order(&session), vec!["/a/b"]);
}

#[test]
fn remove_file_and_remove_dir_take_the_path_out() {
    let mut session = ArchiveSession::open_absent(Format::Tar, b"x.tar");
    for raw in ["/a", "/b", "/c", "/d"] {
        session.write(raw.as_bytes());
    }
    session.remove_file(b"/b");
    assert_eq!(order(&session), vec!["/a", "/c", "/d"]);
    session.remove_dir(b"a");
    assert_eq!(order(&session), vec!["/c", "/d"]);
    session.remove_file(b"/unknown");
    assert_eq!(order(&session), vec!["/c", "/d"]);
}

#[test]
fn remove_dir_all_takes_out_the_directories_above() {
    let mut session = ArchiveSession::open_absent(Format::Tar, b"x.tar");
    session.create_dir_all(b"/a/b/c");
    session.write(b"/a/b/c/f.txt");
    session.write(b"/other.txt");
    session.remove_dir_all(b"/a/b/c");
    assert_eq!(order(&session), vec!["/a/b/c", "/a/b/c/f.txt", "/other.txt"]);
}

#[test]
fn rename_moves_the_path_to_the_end() {
    let mut session = ArchiveSession::open_absent(Format::Tar, b"x.tar");
    for raw in ["/a", "/b", "/c"] {
        session.write(raw.as_bytes());
    }
    session.rename(b"/a", b"/z");
    assert_eq!(order(&session), vec!["/b", "/c", "/z"]);
    session.rename(b"/b", b"/c");
    assert_eq!(order(&session), vec!["/c", "/z"]);
}

#[test]
fn copy_and_hard_link_add_the_destination() {
    let mut session = ArchiveSession::open_absent(Format::Tar, b"x.tar");
    session.write(b"/a");
    session.copy(b"/a", b"/b");
    session.hard_link(b"/a", b"/c");
    assert_eq!(order(&session), vec!["/a", "/b", "/c"]);
}

#[test]
fn open_file_adds_the_path_only_when_creating() {
    let mut session = ArchiveSession::open_absent(Format::Zip, b"x.zip");
    session.open_file(b"/read.txt", false, false);
    assert!(order(&session).is_empty());
    session.open_file(b"/known.txt", false, true);
    assert!(order(&session).is_empty());
    session.open_file(b"/new.txt", true, true);
    assert_eq!(order(&session), vec!["/new.txt"]);
}

#[test]
fn add_path_and_remove_path_make_paths_canonical() {
    let mut session = ArchiveSession::open_absent(Format::Zip, b"x.zip");
    session.add_path(b"a//b/./c.txt");
    assert_eq!(order(&session), vec!["/a/b/c.txt"]);
    session.remove_path(b"/a/b/c.txt/");
    assert!(order(&session).is_empty());
}

#[test]
fn mutations_leave_format_compression_and_backing_alone() {
    let (mut session, _) = ArchiveSession::open(Format::Cpio, b"/tmp/a.cpio.xz", CompressionKind::Xz, &Vec::new()).unwrap();
    session.write(b"/a");
    session.create_dir_all(b"/d/e");
    session.rename(b"/a", b"/b");
    session.remove_dir_all(b"/d/e");
    session.remove_file(b"/b");
    assert_eq!(session.format(), Format::Cpio);
    assert_eq!(session.compression(), CompressionKind::Xz);
    assert_eq!(session.backing(), &b"/tmp/a.cpio.xz".to_vec());
    let plan = session.close(&vec![seen_dir(0o755)]).unwrap();
    assert_eq!(plan.compression, CompressionKind::Xz);
    assert_eq!(plan.backing, b"/tmp/a.cpio.xz".to_vec());
}

#[test]
fn close_goes_on_past_a_path_that_cannot_be_classified() {
    let mut session = ArchiveSession::open_absent(Format::Tar, b"x.tar");
    session.write(b"/a");
    session.write(b"/gone");
    session.write(b"/b");
    let gone = Observation { link_target: None, info: None, content: None };
    let observations = vec![seen_file(b"aaa", 0o644, 1, 2, 0), gone, seen_file(b"bbb", 0o600, 3, 4, 0)];
    let plan = session.close(&observations).unwrap();
    assert_eq!(
        plan.entries,
        vec![
            file("a", b"aaa", full(1, 2, 0o644, None)),
            file("gone", b"", full(0, 0, 0o644, None)),
            file("b", b"bbb", full(3, 4, 0o600, None)),
        ]
    );
    assert_eq!(plan.diagnostics, vec![Diagnostic::Unreadable { place: 1 }]);
}

#[test]
fn unclassifiable_path_gets_the_default_metadata_of_its_format() {
    let gone = Observation { link_target: None, info: None, content: None };
    let close = |format: Format| {
        let mut session = ArchiveSession::open_absent(format, b"x");
        session.write(b"/gone");
        session.close(&vec![gone.clone()]).unwrap().entries
    };
    assert_eq!(close(Format::Ar), vec![file("gone", b"", full(0, 0, 0o644, Some(0)))]);
    assert_eq!(close(Format::Cpio), vec![file("/gone", b"", full(0, 0, 0o644, None))]);
    assert_eq!(close(Format::Tar), vec![file("gone", b"", full(0, 0, 0o644, None))]);
    assert_eq!(
        close(Format::Zip),
        vec![file("/gone", b"", EntryMetadata { uid: None, gid: None, mode: Some(0o644), mtime: None })]
    );
}

#[test]
fn unclassifiable_path_keeps_what_content_could_be_read() {
    let mut session = ArchiveSession::open_absent(Format::Zip, b"x.zip");
    session.write(b"/odd");
    let odd = Observation { link_target: None, info: None, content: Some(b"still here".to_vec()) };
    let plan = session.close(&vec![odd]).unwrap();
    assert_eq!(plan.entries[0].content, b"still here".to_vec());
    assert_eq!(plan.diagnostics, vec![Diagnostic::Unreadable { place: 0 }]);
}

#[test]
fn close_counts_missing_observations_as_unreadable() {
    let mut session = ArchiveSession::open_absent(Format::Zip, b"x.zip");
    session.write(b"/a");
    session.write(b"/b");
    let plan = session.close(&vec![seen_file(b"x", 0o644, 0, 0, 0)]).unwrap();
    assert_eq!(plan.entries.len(), 2);
    assert_eq!(plan.entries[0].content, b"x".to_vec());
    assert_eq!(plan.entries[1], file("/b", b"", EntryMetadata { uid: None, gid: None, mode: Some(0o644), mtime: None }));
    assert_eq!(plan.diagnostics, vec![Diagnostic::Unreadable { place: 1 }]);
}

#[test]
fn close_fails_with_io_when_content_is_missing() {
    let mut session = ArchiveSession::open_absent(Format::Zip, b"x.zip");
    session.write(b"/a");
    let no_content = Observation { link_target: None, info: Some(node(false, 0o644)), content: None };
    assert_eq!(session.close(&vec![no_content]).err(), Some(ArchiveError::Io));
}

#[test]
fn close_fails_with_metadata_error_for_what_the_format_records() {
    let lacking = |uid: Option<u32>, gid: Option<u32>, mtime: Option<u64>| Observation {
        link_target: None,
        info: Some(NodeInfo { is_symlink: false, is_dir: false, is_file: true, mode: 0o644, uid, gid, mtime }),
        content: Some(b"x".to_vec()),
    };
    let close = |format: Format, observation: Observation| {
        let mut session = ArchiveSession::open_absent(format, b"x");
        session.write(b"/a");
        session.close(&vec![observation]).map(|plan| plan.entries)
    };
    assert_eq!(close(Format::Ar, lacking(None, Some(1), Some(1))), Err(ArchiveError::Metadata(MetadataField::Uid)));
    assert_eq!(close(Format::Tar, lacking(Some(1), None, Some(1))), Err(ArchiveError::Metadata(MetadataField::Gid)));
    assert_eq!(close(Format::Ar, lacking(Some(1), Some(1), None)), Err(ArchiveError::Metadata(MetadataField::Mtime)));
    assert_eq!(close(Format::Cpio, lacking(None, None, None)), Err(ArchiveError::Metadata(MetadataField::Uid)));
    let zip = close(Format::Zip, lacking(None, None, None)).unwrap();
    assert_eq!(zip[0].metadata, EntryMetadata { uid: None, gid: None, mode: Some(0o644), mtime: None });
    let tar = close(Format::Tar, lacking(Some(1), Some(2), None)).unwrap();
    assert_eq!(tar[0].metadata, full(1, 2, 0o644, None));
}

#[test]
fn close_reports_fallback_classification() {
    let mut session = ArchiveSession::open_absent(Format::Tar, b"x.tar");
    session.write(b"/odd");
    session.write(b"/fine");
    let odd = Observation {
        link_target: None,
        info: Some(NodeInfo { is_symlink: false, is_dir: false, is_file: false, mode: 0o644, uid: Some(0), gid: Some(0), mtime: None }),
        content: Some(b"?".to_vec()),
    };
    let plan = session.close(&vec![odd, seen_file(b"x", 0o644, 0, 0, 0)]).unwrap();
    assert_eq!(plan.diagnostics, vec![Diagnostic::UnknownType { place: 0 }]);
    assert_eq!(plan.entries[0].kind, EntryKind::Regular);
    assert_eq!(plan.entries.len(), 2);
}

#[test]
fn tar_symlink_without_readable_target_is_an_io_error() {
    let mut session = ArchiveSession::open_absent(Format::Tar, b"x.tar");
    session.symlink(b"/t", b"/l");
    let unread = Observation {
        link_target: None,
        info: Some(NodeInfo { is_symlink: true, is_dir: false, is_file: false, mode: 0o777, uid: Some(0), gid: Some(0), mtime: None }),
        content: None,
    };
    assert_eq!(session.close(&vec![unread]).err(), Some(ArchiveError::Io));
}

#[test]
fn classification_notes_tell_of_unreadable_paths() {
    let mut session = ArchiveSession::open_absent(Format::Ar, b"x.ar");
    session.create_dir_all(b"/d");
    session.write(b"/d/gone");
    session.write(b"/d/odd");
    let gone = Observation { link_target: None, info: None, content: None };
    let odd = Observation {
        link_target: None,
        info: Some(NodeInfo { is_symlink: false, is_dir: false, is_file: false, mode: 0, uid: Some(0), gid: Some(0), mtime: Some(0) }),
        content: Some(b"?".to_vec()),
    };
    let observations = vec![gone.clone(), seen_dir(0o755), gone, odd];
    assert_eq!(
        session.classification_notes(&observations),
        vec![Diagnostic::Unreadable { place: 2 }, Diagnostic::UnknownType { place: 3 }]
    );
    assert_eq!(session.classification_notes(&Vec::new()), vec![
        Diagnostic::Unreadable { place: 1 },
        Diagnostic::Unreadable { place: 2 },
        Diagnostic::Unreadable { place: 3 },
    ]);
    let plan = session.close(&observations).unwrap();
    assert_eq!(plan.diagnostics, vec![Diagnostic::Unreadable { place: 2 }, Diagnostic::UnknownType { place: 3 }]);
}

fn ar_member(name: &str, mtime: u64) -> Entry {
    file(name, b"data", full(1000, 100, 0o100640, Some(mtime)))
}

fn now(content: &[u8]) -> Observation {
    seen_file(content, 0o100640, 1000, 100, 1_777_777_777)
}

#[test]
fn ar_modification_time_comes_back_for_an_unmodified_member() {
    let entries = vec![ar_member("a.txt", 1_600_000_000), ar_member("b.txt", 1_500_000_000)];
    let (session, _) = ArchiveSession::open(Format::Ar, b"x.ar", CompressionKind::Stored, &entries).unwrap();
    let plan = session.close(&vec![now(b"data"), now(b"data")]).unwrap();
    assert_eq!(plan.entries, entries);
}

#[test]
fn ar_modification_time_comes_back_where_the_filesystem_has_none() {
    let entries = vec![ar_member("a.txt", 1_600_000_000)];
    let (session, _) = ArchiveSession::open(Format::Ar, b"x.ar", CompressionKind::Stored, &entries).unwrap();
    let timeless = Observation {
        link_target: None,
        info: Some(NodeInfo { is_symlink: false, is_dir: false, is_file: true, mode: 0o100640, uid: Some(1000), gid: Some(100), mtime: None }),
        content: Some(b"data".to_vec()),
    };
    let plan = session.close(&vec![timeless]).unwrap();
    assert_eq!(plan.entries, entries);
}

#[test]
fn a_written_path_takes_the_time_of_the_filesystem() {
    let entries = vec![ar_member("a.txt", 1_600_000_000), ar_member("b.txt", 1_500_000_000)];
    let (mut session, _) = ArchiveSession::open(Format::Ar, b"x.ar", CompressionKind::Stored, &entries).unwrap();
    session.write(b"/a.txt");
    let plan = session.close(&vec![now(b"new"), now(b"data")]).unwrap();
    assert_eq!(plan.entries[0].metadata.mtime, Some(1_777_777_777));
    assert_eq!(plan.entries[0].content, b"new".to_vec());
    assert_eq!(plan.entries[1].metadata.mtime, Some(1_500_000_000));
}

#[test]
fn every_operation_on_a_path_forgets_its_time() {
    let touch: Vec<(&str, fn(&mut ArchiveSession))> = vec![
        ("open for writing", |s| s.open_file(b"/a.txt", false, true)),
        ("open for creation", |s| s.open_file(b"/a.txt", true, false)),
        ("copy onto", |s| s.copy(b"/b.txt", b"/a.txt")),
        ("hard link", |s| s.hard_link(b"/b.txt", b"/a.txt")),
        ("symlink", |s| s.symlink(b"/b.txt", b"/a.txt")),
        ("create_dir", |s| s.create_dir(b"/a.txt")),
        ("rename onto", |s| s.rename(b"/c.txt", b"/a.txt")),
        ("add_path", |s| s.add_path(b"a.txt")),
    ];
    for (what, operation) in touch {
        let entries = vec![ar_member("a.txt", 1_600_000_000), ar_member("b.txt", 1_500_000_000)];
        let (mut session, _) = ArchiveSession::open(Format::Ar, b"x.ar", CompressionKind::Stored, &entries).unwrap();
        operation(&mut session);
        let plan = session.close(&vec![now(b"data"), now(b"data")]).unwrap();
        assert_eq!(plan.entries[0].metadata.mtime, Some(1_777_777_777), "{}", what);
        assert_eq!(plan.entries[1].metadata.mtime, Some(1_500_000_000), "{}", what);
    }
}

#[test]
fn reading_and_directories_leave_the_kept_time_alone() {
    let entries = vec![ar_member("d/a.txt", 1_600_000_000)];
    let (mut session, _) = ArchiveSession::open(Format::Ar, b"x.ar", CompressionKind::Stored, &entries).unwrap();
    session.open_file(b"/d/a.txt", false, false);
    session.create_dir_all(b"/d");
    session.remove_dir_all(b"/d/a.txt");
    session.write(b"/other");
    let plan = session.close(&vec![now(b"data"), now(b"x")]).unwrap();
    assert_eq!(plan.entries[0].metadata.mtime, Some(1_600_000_000));
    assert_eq!(plan.entries[1].metadata.mtime, Some(1_777_777_777));
}

#[test]
fn a_removed_and_rewritten_path_has_no_kept_time() {
    let entries = vec![ar_member("a.txt", 1_600_000_000)];
    let (mut session, _) = ArchiveSession::open(Format::Ar, b"x.ar", CompressionKind::Stored, &entries).unwrap();
    session.remove_file(b"/a.txt");
    session.write(b"/a.txt");
    let timeless = Observation {
        link_target: None,
        info: Some(NodeInfo { is_symlink: false, is_dir: false, is_file: true, mode: 0o644, uid: Some(0), gid: Some(0), mtime: None }),
        content: Some(b"x".to_vec()),
    };
    assert_eq!(session.close(&vec![timeless]).err(), Some(ArchiveError::Metadata(MetadataField::Mtime)));
}

#[test]
fn a_repeated_entry_keeps_the_time_of_the_later_one() {
    let entries = vec![ar_member("a.txt", 1_600_000_000), ar_member("./a.txt", 1_500_000_000)];
    let (session, _) = ArchiveSession::open(Format::Ar, b"x.ar", CompressionKind::Stored, &entries).unwrap();
    let plan = session.close(&vec![now(b"data")]).unwrap();
    assert_eq!(plan.entries, vec![ar_member("a.txt", 1_500_000_000)]);
}

#[test]
fn formats_without_modification_times_keep_none() {
    for format in [Format::Cpio, Format::Tar, Format::Zip] {
        let entries = vec![file("a.txt", b"data", full(1, 2, 0o644, Some(1_600_000_000)))];
        let (session, _) = ArchiveSession::open(format, b"x", CompressionKind::Stored, &entries).unwrap();
        let plan = session.close(&vec![now(b"data")]).unwrap();
        assert_eq!(plan.entries[0].metadata.mtime, None);
    }
}

#[test]
fn round_trip_holds_by_path_for_names_that_are_not_canonical() {
    let entries = vec![
        Entry { name: b"dir/".to_vec(), kind: EntryKind::Directory, content: Vec::new(), metadata: full(1, 2, 0o755, None) },
        file("./dir//a.txt", b"asdf\n", full(1, 2, 0o644, None)),
    ];
    let (session, _) = ArchiveSession::open(Format::Tar, b"x.tar", CompressionKind::Stored, &entries).unwrap();
    let observations = vec![
        Observation { link_target: None, info: Some(NodeInfo { is_symlink: false, is_dir: true, is_file: false, mode: 0o755, uid: Some(1), gid: Some(2), mtime: None }), content: None },
        seen_file(b"asdf\n", 0o644, 1, 2, 77),
    ];
    let plan = session.close(&observations).unwrap();
    assert_eq!(plan.entries.len(), 2);
    for (written, read) in plan.entries.iter().zip(entries.iter()) {
        assert_eq!(ArchivePath::parse(&written.name), ArchivePath::parse(&read.name));
        assert_eq!(written.kind, read.kind);
        assert_eq!(written.content, read.content);
        assert_eq!(written.metadata, read.metadata);
    }
    assert_eq!(plan.entries[0].name, b"dir".to_vec());
    assert_eq!(plan.entries[1].name, b"dir/a.txt".to_vec());
}
