use flop::path::{copy_bytes, same_bytes, ArchivePath};

fn names(path: &ArchivePath) -> Vec<Vec<u8>> {
    path.duplicate().into_components()
}

#[test]
fn relative_and_absolute_names_parse_alike() {
    let a = ArchivePath::parse(b"a/b.txt");
    let b = ArchivePath::parse(b"/a/./b.txt/");
    assert!(a.same_as(&b));
    assert_eq!(a, b);
    assert_eq!(a.to_bytes(), b"/a/b.txt".to_vec());
    assert_eq!(a.to_relative_bytes(), b"a/b.txt".to_vec());
    assert_eq!(a.depth(), 2);
}

#[test]
fn parse_splits_into_components() {
    let path = ArchivePath::parse(b"/test/thing/heck.txt");
    assert_eq!(names(&path), vec![b"test".to_vec(), b"thing".to_vec(), b"heck.txt".to_vec()]);
}

#[test]
fn parse_drops_empty_and_dot_pieces() {
    let path = ArchivePath::parse(b"//a/.//./b//");
    assert_eq!(names(&path), vec![b"a".to_vec(), b"b".to_vec()]);
    let leading = ArchivePath::parse(b"./a");
    assert_eq!(names(&leading), vec![b"a".to_vec()]);
}

#[test]
fn parse_keeps_dot_dot_and_dotted_names() {
    let path = ArchivePath::parse(b"/a/../.b/c.");
    assert_eq!(names(&path), vec![b"a".to_vec(), b"..".to_vec(), b".b".to_vec(), b"c.".to_vec()]);
}

#[test]
fn root_has_many_spellings() {
    for raw in [&b""[..], &b"/"[..], &b"."[..], &b"//"[..], &b"/./"[..]] {
        let path = ArchivePath::parse(raw);
        assert!(path.is_root());
        assert_eq!(path.depth(), 0);
        assert!(path.same_as(&ArchivePath::root()));
        assert_eq!(path.to_bytes(), b"/".to_vec());
        assert_eq!(path.to_relative_bytes(), Vec::<u8>::new());
    }
}

#[test]
fn parent_drops_the_last_component() {
    let path = ArchivePath::parse(b"/a/b/c");
    let parent = path.parent().unwrap();
    assert_eq!(parent.to_bytes(), b"/a/b".to_vec());
    let top = ArchivePath::parse(b"/a").parent().unwrap();
    assert!(top.is_root());
    assert!(ArchivePath::root().parent().is_none());
}

#[test]
fn ancestors_run_from_the_root_down() {
    let chain = ArchivePath::parse(b"/1/2/3").ancestors();
    let rendered: Vec<Vec<u8>> = chain.iter().map(|p| p.to_bytes()).collect();
    assert_eq!(rendered, vec![b"/".to_vec(), b"/1".to_vec(), b"/1/2".to_vec(), b"/1/2/3".to_vec()]);
    let only_root = ArchivePath::root().ancestors();
    assert_eq!(only_root.len(), 1);
    assert!(only_root[0].is_root());
}

#[test]
fn prefix_takes_the_first_components() {
    let path = ArchivePath::parse(b"/a/b/c");
    assert_eq!(path.prefix(0).to_bytes(), b"/".to_vec());
    assert_eq!(path.prefix(2).to_bytes(), b"/a/b".to_vec());
    assert_eq!(path.prefix(3), path);
}

#[test]
fn rendering_and_parsing_round_trip() {
    for raw in [&b"/a.txt"[..], &b"/x/y/z.txt"[..], &b"/a/b/c/d/e/f/g/h.txt"[..], &b"/"[..]] {
        let path = ArchivePath::parse(raw);
        assert_eq!(path.to_bytes(), raw.to_vec());
        assert_eq!(ArchivePath::parse(&path.to_bytes()), path);
        assert_eq!(ArchivePath::parse(&path.to_relative_bytes()), path);
    }
}

#[test]
fn different_paths_are_told_apart() {
    let a = ArchivePath::parse(b"/a/b");
    assert!(!a.same_as(&ArchivePath::parse(b"/a/c")));
    assert!(!a.same_as(&ArchivePath::parse(b"/a")));
    assert!(!a.same_as(&ArchivePath::parse(b"/a/b/c")));
    assert!(!a.same_as(&ArchivePath::parse(b"/ab")));
}

#[test]
fn byte_helpers_copy_and_compare() {
    assert_eq!(copy_bytes(b"wow!!!"), b"wow!!!".to_vec());
    assert_eq!(copy_bytes(b""), Vec::<u8>::new());
    assert!(same_bytes(b"abc", b"abc"));
    assert!(!same_bytes(b"abc", b"abd"));
    assert!(!same_bytes(b"abc", b"ab"));
    assert!(same_bytes(b"", b""));
}
