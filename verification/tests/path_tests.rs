use scribe::path::ScribePath;

const ROOT: &str = "/notes";

#[test]
fn test_path_new() {
    let _path = ScribePath::new(ROOT, "test", "test_base");
}

#[test]
fn test_path_from() {
    let _path = ScribePath::from(ROOT, "/tmp/");
}

#[test]
fn test_path_root() {
    let _path = ScribePath::root(ROOT);
}

#[test]
fn test_path_extend() {
    let test_path = "/home/tmp";
    let mut path = ScribePath::from(ROOT, test_path);
    path.extend("test");

    let test_path = ScribePath::from(ROOT, "/home/tmp/test");
    assert_eq!(path, test_path);
}

#[test]
fn test_path_get_base() {
    let root = ScribePath::new(ROOT, "test_category", "test_base");
    assert_eq!(root.get_base().unwrap(), "test_base");
    assert_ne!(root.get_base().unwrap(), "teasasdf");
}

#[test]
fn test_path_get_category() {
    let root = ScribePath::new(ROOT, "test_category", "test_base");
    assert_eq!(root.get_category(), "test_category");
    assert_ne!(root.get_category(), "asdfasdf");
}

#[test]
fn test_path_exists() {
    let mut root = ScribePath::root(".");
    assert!(root.exists_on_disk());

    root.extend("asasdfasdf");
    assert!(!root.exists_on_disk());
}

#[test]
fn test_path_is_valid() {
    let path = ScribePath::new(ROOT, "test_category", "test.md");
    assert!(path.is_valid());

    let root = ScribePath::root(ROOT);
    assert!(!root.is_valid());

    let path2 = ScribePath::new(ROOT, "test_category", "index.git");
    assert!(!path2.is_valid());
}

#[test]
fn test_path_is_dir() {
    let mut root = ScribePath::root(".");
    assert!(root.is_dir());

    root.extend("test_file1.md");
    assert!(!root.is_dir());
}

#[test]
fn test_path_is_hidden() {
    let mut root = ScribePath::root(ROOT);
    root.extend("test_file.md");

    assert!(!root.is_hidden());

    let hidden_dir = ScribePath::new(ROOT, ".dotfiles", "tmux.conf");
    assert!(hidden_dir.is_hidden());

    let hidden_file = ScribePath::new(ROOT, "category", ".gitignore");
    assert!(hidden_file.is_hidden());
}

#[test]
fn test_path_as_string() {
    let mut root = ScribePath::root(ROOT);
    let dir = ROOT;

    assert_eq!(root.as_string(true), *dir);

    root.extend("test");
    assert_eq!(root.as_string(true), format!("{}/{}", dir, "test"));

    assert_eq!(root.as_string(false), "test");
}

#[test]
fn test_path_as_pathbuf() {
    let dir = ROOT;
    let pathbuf = std::path::PathBuf::from(dir);
    let path = ScribePath::from(ROOT, dir);
    assert_eq!(pathbuf, path.as_pathbuf());
}

#[test]
fn test_path_replace_category() {
    let mut path = ScribePath::new(ROOT, "first", "test");
    assert_eq!(path.get_category(), "first");

    path.replace_category("second");
    assert_eq!(path.get_category(), "second");
    assert_ne!(path.get_category(), "first");
}

#[test]
fn test_path_is_markdown() {
    let md_path = ScribePath::new(ROOT, "category", "test.md");
    assert!(md_path.is_markdown());
    let txt_path = ScribePath::new(ROOT, "category", "test.txt");
    assert!(!txt_path.is_markdown());
}

#[test]
fn test_path_get_parent() {
    let root = ScribePath::root(ROOT);
    let mut path = ScribePath::root(ROOT);
    path.extend("test");

    assert_eq!(root, path.get_parent());
}

#[test]
fn path_tests_test_path_get_base() {
    let path = ScribePath::new(ROOT, "inbox", "test.md");
    assert_eq!(path.get_base(), Some("test.md".to_string()));
}

#[test]
fn path_tests_test_path_get_category() {
    let path = ScribePath::new(ROOT, "inbox", "test.md");
    assert_eq!(path.get_category(), "inbox".to_string());

    let path2 = ScribePath::new(ROOT, "inbox/test", "test.md");
    assert_eq!(path2.get_category(), "inbox/test".to_string());
}

#[test]
fn path_tests_test_path_is_hidden() {
    let hidden_path_str = format!("{}/temp/test/.hidden.md", ROOT);
    let path = ScribePath::from(ROOT, &hidden_path_str);
    assert!(path.is_hidden());

    let known_path = "/home/kcaverly/kb/projects/scribe/text.txt";
    let path = ScribePath::from(ROOT, known_path);
    assert!(!path.is_hidden());
}

#[test]
fn path_tests_test_path_replace_category() {
    let md_path = format!("{}/tmp/test.md", ROOT);
    let mut path = ScribePath::from(ROOT, &md_path);
    assert_eq!(path.get_category(), "tmp");

    path.replace_category("inbox/scribe");
    assert_eq!(path.get_category(), "inbox/scribe");
}

#[test]
fn path_tests_test_path_is_markdown() {
    let md_path = format!("{}/tmp/test.md", ROOT);
    let path = ScribePath::from(ROOT, &md_path);
    assert!(path.is_markdown());

    let txt_path = format!("{}/tmp/test.txt", ROOT);
    let path = ScribePath::from(ROOT, &txt_path);
    assert!(!path.is_markdown());
}

#[test]
fn path_tests_test_path_get_children() {
    let path = ScribePath::from(".", ".");
    let _children = path.get_children();
}

#[test]
fn test_path_round_trip_deep_category() {
    let path = ScribePath::new(ROOT, "a/b/c", "note.md");
    assert_eq!(path.get_category(), "a/b/c");
    assert_eq!(path.get_base(), Some("note.md".to_string()));
    assert_eq!(path.as_string(false), "a/b/c/note.md");
    assert_eq!(path.as_string(true), "/notes/a/b/c/note.md");
}

#[test]
fn test_path_new_trims_separators() {
    let path = ScribePath::new("/notes/", "/inbox/", "note.md");
    assert_eq!(path.as_string(true), "/notes/inbox/note.md");
    assert_eq!(path.get_category(), "inbox");
}

#[test]
fn test_path_is_tmp() {
    let path = ScribePath::new(ROOT, "tmp", "scratch.md");
    assert!(path.is_tmp());
    let path2 = ScribePath::new(ROOT, "inbox", "kept.md");
    assert!(!path2.is_tmp());
}

#[test]
fn test_path_is_template() {
    let path = ScribePath::new(ROOT, "templates", "basic.md");
    assert!(path.is_template());
    let path2 = ScribePath::new(ROOT, "inbox", "basic.md");
    assert!(!path2.is_template());
}

#[test]
fn test_keep_valid_filters() {
    // Of the walked entries, exactly the valid ones are kept, in order: the
    // root itself (empty category) and versioning metadata are dropped.
    let entries: Vec<String> = vec![
        "/notes".to_string(),
        "/notes/inbox/a.md".to_string(),
        "/notes/.git/config".to_string(),
        "/notes/inbox".to_string(),
    ];
    let kept = scribe::path::keep_valid("/notes", &entries);
    assert_eq!(kept.len(), 2);
    assert_eq!(kept[0].as_string(false), "inbox/a.md");
    assert_eq!(kept[1].as_string(false), "inbox");
}
