use file_tree::{
    build_file_tree, collect_children, get_file_tree, make_node, validate_root, BuildError,
    EntryInfo, FileTree,
};

fn path_str(p: &std::path::Path) -> String {
    p.to_string_lossy().into_owned()
}

fn child_names(t: &FileTree) -> Vec<String> {
    match &t.children {
        Some(cs) => cs.iter().map(|c| c.name.clone()).collect(),
        None => Vec::new(),
    }
}

fn child<'a>(t: &'a FileTree, name: &str) -> &'a FileTree {
    t.children
        .as_ref()
        .unwrap()
        .iter()
        .find(|c| c.name == name)
        .unwrap()
}

#[test]
fn valid_directory_root() {
    let dir = tempfile::tempdir().unwrap();
    fs_err::write(dir.path().join("a.txt"), b"x").unwrap();
    let supplied = path_str(dir.path());
    let t = get_file_tree(supplied.clone()).unwrap();
    assert!(t.is_directory);
    assert_eq!(t.path, supplied);
    let expected_name = supplied.rsplit('/').find(|s| !s.is_empty()).unwrap();
    assert_eq!(t.name, expected_name);
}

#[test]
fn trailing_slash_root_keeps_single_slash_child_paths() {
    let dir = tempfile::tempdir().unwrap();
    fs_err::write(dir.path().join("a.txt"), b"x").unwrap();
    let supplied = format!("{}/", path_str(dir.path()));
    let t = get_file_tree(supplied.clone()).unwrap();
    assert_eq!(t.path, supplied);
    let a = child(&t, "a.txt");
    assert_eq!(a.path, format!("{}a.txt", supplied));
    assert!(!a.path.contains("//"));
}

#[test]
fn missing_path_not_found() {
    let dir = tempfile::tempdir().unwrap();
    let p = path_str(&dir.path().join("absent"));
    assert_eq!(get_file_tree(p), Err(BuildError::NotFound));
}

#[test]
fn file_is_not_a_directory() {
    let dir = tempfile::tempdir().unwrap();
    let file = dir.path().join("plain.txt");
    fs_err::write(&file, b"x").unwrap();
    assert_eq!(get_file_tree(path_str(&file)), Err(BuildError::NotADirectory));
}

#[test]
fn permuted_names_come_back_sorted() {
    let dir = tempfile::tempdir().unwrap();
    fs_err::write(dir.path().join("b.txt"), b"x").unwrap();
    fs_err::write(dir.path().join("a.txt"), b"x").unwrap();
    fs_err::create_dir(dir.path().join("c")).unwrap();
    let t = get_file_tree(path_str(dir.path())).unwrap();
    assert_eq!(child_names(&t), vec!["a.txt", "b.txt", "c"]);
}

#[test]
fn ordering_is_by_bytes_not_collation() {
    let dir = tempfile::tempdir().unwrap();
    fs_err::write(dir.path().join("a.txt"), b"x").unwrap();
    fs_err::write(dir.path().join("Z.txt"), b"x").unwrap();
    fs_err::write(dir.path().join("B.txt"), b"x").unwrap();
    let t = get_file_tree(path_str(dir.path())).unwrap();
    assert_eq!(child_names(&t), vec!["B.txt", "Z.txt", "a.txt"]);
}

#[test]
fn empty_directory_has_children_absent() {
    let dir = tempfile::tempdir().unwrap();
    let t = get_file_tree(path_str(dir.path())).unwrap();
    assert!(t.is_directory);
    assert!(t.children.is_none());
}

#[test]
fn unreadable_entries_are_skipped() {
    let dir = tempfile::tempdir().unwrap();
    let parent = path_str(dir.path());
    let entries = vec![
        Some(EntryInfo { name: "b.txt".to_string(), is_symlink: false }),
        None,
        Some(EntryInfo { name: "a.txt".to_string(), is_symlink: false }),
    ];
    let kids = collect_children(&parent, entries, 4);
    assert_eq!(kids.len(), 2);
    assert_eq!(kids[0].name, "b.txt");
    assert_eq!(kids[1].name, "a.txt");
    assert_eq!(kids[0].path, format!("{}/b.txt", parent));
    assert_eq!(kids[1].path, format!("{}/a.txt", parent));
    assert!(kids.iter().all(|k| !k.is_directory && k.children.is_none()));
}

#[test]
fn three_levels_nest() {
    let dir = tempfile::tempdir().unwrap();
    let root = path_str(dir.path());
    fs_err::create_dir(dir.path().join("dirA")).unwrap();
    fs_err::create_dir(dir.path().join("dirA").join("dirB")).unwrap();
    fs_err::write(dir.path().join("dirA").join("dirB").join("file.txt"), b"x").unwrap();
    let t = get_file_tree(root.clone()).unwrap();
    assert!(t.is_directory);
    let a = child(&t, "dirA");
    assert!(a.is_directory);
    assert_eq!(a.path, format!("{}/dirA", root));
    let b = child(a, "dirB");
    assert!(b.is_directory);
    assert_eq!(b.path, format!("{}/dirA/dirB", root));
    let f = child(b, "file.txt");
    assert!(!f.is_directory);
    assert!(f.children.is_none());
    assert_eq!(f.path, format!("{}/dirA/dirB/file.txt", root));
    assert_eq!(b.children.as_ref().unwrap().len(), 1);
}

#[test]
fn symlink_to_directory_is_not_expanded() {
    let dir = tempfile::tempdir().unwrap();
    let target = dir.path().join("target");
    fs_err::create_dir(&target).unwrap();
    fs_err::write(target.join("inner.txt"), b"x").unwrap();
    symlink::symlink_dir(&target, dir.path().join("link")).unwrap();
    let t = get_file_tree(path_str(dir.path())).unwrap();
    assert_eq!(child_names(&t), vec!["link", "target"]);
    let link = child(&t, "link");
    assert!(link.is_directory);
    assert!(link.children.is_none());
    let real = child(&t, "target");
    assert_eq!(child_names(real), vec!["inner.txt"]);
}

#[test]
fn symlink_entry_is_never_walked() {
    let dir = tempfile::tempdir().unwrap();
    let parent = path_str(dir.path());
    fs_err::create_dir(dir.path().join("d")).unwrap();
    fs_err::write(dir.path().join("d").join("inner.txt"), b"x").unwrap();
    let entries = vec![Some(EntryInfo { name: "d".to_string(), is_symlink: true })];
    let kids = collect_children(&parent, entries, 4);
    assert_eq!(kids.len(), 1);
    assert!(kids[0].is_directory);
    assert!(kids[0].children.is_none());
}

#[test]
fn exhausted_depth_budget_stops_expansion() {
    let dir = tempfile::tempdir().unwrap();
    let parent = path_str(dir.path());
    fs_err::create_dir(dir.path().join("d")).unwrap();
    fs_err::write(dir.path().join("d").join("inner.txt"), b"x").unwrap();
    let entries = vec![Some(EntryInfo { name: "d".to_string(), is_symlink: false })];
    let kids = collect_children(&parent, entries, 0);
    assert_eq!(kids.len(), 1);
    assert!(kids[0].is_directory);
    assert!(kids[0].children.is_none());
}

#[test]
fn building_twice_gives_identical_trees() {
    let dir = tempfile::tempdir().unwrap();
    fs_err::create_dir(dir.path().join("dirA")).unwrap();
    fs_err::create_dir(dir.path().join("dirA").join("dirB")).unwrap();
    fs_err::write(dir.path().join("dirA").join("dirB").join("file.txt"), b"x").unwrap();
    fs_err::write(dir.path().join("z.txt"), b"x").unwrap();
    let p = path_str(dir.path());
    let first = get_file_tree(p.clone()).unwrap();
    let second = get_file_tree(p).unwrap();
    assert_eq!(first, second);
}

#[test]
fn build_file_tree_on_a_file_is_a_leaf() {
    let dir = tempfile::tempdir().unwrap();
    let file = dir.path().join("leaf.txt");
    fs_err::write(&file, b"x").unwrap();
    let t = build_file_tree(&path_str(&file));
    assert_eq!(t.name, "leaf.txt");
    assert_eq!(t.path, path_str(&file));
    assert!(!t.is_directory);
    assert!(t.children.is_none());
}

#[test]
fn validation_decision_is_exact() {
    assert_eq!(validate_root(false, false), Some(BuildError::NotFound));
    assert_eq!(validate_root(false, true), Some(BuildError::NotFound));
    assert_eq!(validate_root(true, false), Some(BuildError::NotADirectory));
    assert_eq!(validate_root(true, true), None);
}

fn plain_child(parent: &str, name: &str) -> FileTree {
    FileTree {
        name: name.to_string(),
        path: format!("{}/{}", parent, name),
        is_directory: false,
        children: None,
    }
}

#[test]
fn attaching_children_sorts_and_keeps_all() {
    let kids = vec![
        plain_child("/x", "b.txt"),
        plain_child("/x", "a.txt"),
        plain_child("/x", "c"),
    ];
    let t = make_node("x".to_string(), "/x".to_string(), true, kids);
    assert!(t.is_directory);
    assert_eq!(child_names(&t), vec!["a.txt", "b.txt", "c"]);
    assert_eq!(t.children.as_ref().unwrap().len(), 3);
}

#[test]
fn attaching_no_children_leaves_the_field_absent() {
    let t = make_node("x".to_string(), "/x".to_string(), true, Vec::new());
    assert!(t.is_directory);
    assert!(t.children.is_none());
}

#[test]
fn error_messages_are_exact() {
    assert_eq!(BuildError::NotFound.message(), "Path does not exist");
    assert_eq!(
        BuildError::NotADirectory.message(),
        "Provided path is not a directory"
    );
}
