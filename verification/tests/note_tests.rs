use scribe::index::{NoteInfo, ScribeIndex};
use scribe::note::Note;
use scribe::path::ScribePath;
use scribe::template::ScribeTemplateLibrary;

const ROOT: &str = "/notes";

#[test]
fn test_note_from_template() {
    let mut path = ScribePath::root(ROOT);
    path.extend("tmp/test_new_note.md");

    let library = ScribeTemplateLibrary::load();
    let template = library.get_template("basic").unwrap();

    let params: Vec<(String, String)> = vec![
        ("TITLE".to_string(), "this is a test title".to_string()),
        ("TAGS".to_string(), r#""tag1", "tag2""#.to_string()),
        ("DATE".to_string(), "2022-01-01 12:31 PM".to_string()),
    ];

    let new_note = Note::from_template(path, template, &params);
    assert!(new_note.is_some());
}

#[test]
fn note_tests_test_note_from_template() {
    let path = ScribePath::from(ROOT, "tmp_note_from_template/test.md");
    let library = ScribeTemplateLibrary::load();
    let template = library.get_template("basic").unwrap();

    let params: Vec<(String, String)> = vec![
        ("DATE".to_string(), "2023-01-30 09:56 PM".to_string()),
        ("TAGS".to_string(), r#""tag1","tag2""#.to_string()),
        ("TITLE".to_string(), "This is a test title".to_string()),
    ];
    let note = Note::from_template(path, template, &params);
    assert!(note.is_some());

    let (_note, data) = note.unwrap();
    assert_eq!(
        data,
        "---\ntitle: This is a test title\ndate: 2023-01-30 09:56 PM\ntags: \"tag1\",\"tag2\"\n---\n\n# This is a test title"
    );
}

#[test]
fn test_note_from_path() {
    let path = ScribePath::from(ROOT, "tmp_note_from_template/test.md");
    let note = Note::from_path(path);
    assert_eq!(note.path.as_string(false), "tmp_note_from_template/test.md");
}

#[test]
fn test_note_transfer() {
    let mut path = ScribePath::root(ROOT);
    path.extend("tmp/test_note_test.md");
    let data = "This is a test file".to_string();

    let mut new_path = ScribePath::root(ROOT);
    new_path.extend("tmp/test_note_moved.md");

    let mut index = ScribeIndex::new();
    index.insert(&path, &Some(data.clone()));

    let mut note = Note::from_path(path);
    let backlinks: Vec<(ScribePath, String)> = vec![];
    let rewrites = note.transfer(&new_path, &mut index, &backlinks, &Some(data));
    assert!(rewrites.is_empty());
    assert_eq!(note.path.as_string(true), new_path.as_string(true));
    assert_eq!(index.notes.len(), 1);
    assert_eq!(index.notes[0].path, "tmp/test_note_moved.md");
}

#[test]
fn test_note_info_parser() {
    let mut new_file = ScribePath::root(ROOT);
    new_file.extend("tmp/test.md");

    let test_data = "---\ntitle: This is a test file\n tags: [\"tag1\", \"tag2\"]\n---\n\n# This is a test file\n\nThis is an embedded link [[projects/test/file]]. While this is a web link: [[www.google.com]]";

    let parsed_note = NoteInfo::parse(&new_file, &Some(test_data.to_string()));

    assert_eq!(parsed_note.path, "tmp/test.md");
    assert_eq!(parsed_note.title, Some("This is a test file".to_string()));

    let tags = parsed_note.tags.unwrap();
    assert_eq!(tags.len(), 2);
    assert!(tags.contains(&"tag1".to_string()));
    assert!(tags.contains(&"tag2".to_string()));

    assert!(parsed_note.date.is_none());

    let embedded = parsed_note.embedded_links.unwrap();
    assert!(embedded.contains(&"projects/test/file".to_string()));
    assert!(embedded.contains(&"www".to_string()));
    assert_eq!(embedded.len(), 2);

    assert_eq!(parsed_note.internal_links, Some(vec![]));
    assert_eq!(parsed_note.web_links, Some(vec!["www.google.com".to_string()]));
}

#[test]
fn test_note_info_has_backlink() {
    let mut new_file = ScribePath::root(ROOT);
    new_file.extend("tmp/test.md");

    let test_data = "---\ntitle: This is a test file\n tags: [\"tag1\", \"tag2\"]\n---\n\n# This is a test file\n\nThis is an embedded link [[projects/test/file]]. While this is a web link: [[www.google.com]]";

    let parsed_note = NoteInfo::parse(&new_file, &Some(test_data.to_string()));

    let mut backlinked_file = ScribePath::root(ROOT);
    backlinked_file.extend("projects/test/file.md");
    assert!(parsed_note.has_backlink(&backlinked_file));

    let mut not_backlinked_file = ScribePath::root(ROOT);
    not_backlinked_file.extend("tmp/test.md");
    assert!(!parsed_note.has_backlink(&not_backlinked_file));
}

#[test]
fn test_index_rebuild_idempotent() {
    // Indexing the same unchanged snapshot twice produces identical
    // record sets.
    let files: Vec<(ScribePath, Option<String>)> = vec![
        (
            ScribePath::new(ROOT, "inbox", "a.md"),
            Some("title: A\n#one".to_string()),
        ),
        (
            ScribePath::new(ROOT, "projects", "b.md"),
            Some("# B\nsee [a](inbox/a.md)".to_string()),
        ),
        (ScribePath::new(ROOT, "inbox", "c.txt"), Some("not markdown".to_string())),
        (ScribePath::new(ROOT, "templates", "t.md"), Some("# template".to_string())),
    ];

    let mut first = ScribeIndex::new();
    first.index(&files);
    let mut second = ScribeIndex::new();
    second.index(&files);

    assert_eq!(first.notes, second.notes);
    // Only the two admitted markdown notes are recorded.
    assert_eq!(first.notes.len(), 2);
    assert_eq!(first.notes[0].path, "inbox/a.md");
    assert_eq!(first.notes[1].path, "projects/b.md");
}

#[test]
fn test_index_update_and_delete() {
    let a = ScribePath::new(ROOT, "inbox", "a.md");
    let b = ScribePath::new(ROOT, "inbox", "b.md");
    let mut index = ScribeIndex::new();
    index.insert(&a, &Some("title: Old".to_string()));
    index.insert(&b, &Some("title: B".to_string()));

    // Updating an absent path changes nothing.
    let c = ScribePath::new(ROOT, "inbox", "c.md");
    index.update(&c, &Some("title: C".to_string()));
    assert_eq!(index.notes.len(), 2);

    // Updating a present path re-parses its record in place.
    index.update(&a, &Some("title: New".to_string()));
    assert_eq!(index.notes[0].title, Some("New".to_string()));

    index.delete(&a);
    assert_eq!(index.notes.len(), 1);
    assert_eq!(index.notes[0].path, "inbox/b.md");
}

#[test]
fn test_transfer_end_to_end() {
    // The documented scenario: a note in `inbox` is linked from a note in
    // `projects`; after transfer to `archive`, the linking note's text
    // points at the new location and the index follows.
    let root = "/notes";
    let title_a = ScribePath::new(root, "inbox", "title_a.md");
    let title_b = ScribePath::new(root, "projects", "title_b.md");
    let data_a = "title: Title A".to_string();
    let data_b = "title: Title B\nbody with [link](inbox/title_a.md)".to_string();

    let files: Vec<(ScribePath, Option<String>)> = vec![
        (title_a.clone(), Some(data_a.clone())),
        (title_b.clone(), Some(data_b.clone())),
    ];
    let mut index = ScribeIndex::new();
    index.index(&files);

    let backlinks = index.get_backlinks(&title_a);
    assert_eq!(backlinks.len(), 1);
    assert_eq!(backlinks[0].as_string(false), "projects/title_b.md");

    let mut new_path = title_a.clone();
    new_path.replace_category("archive");
    assert_eq!(new_path.as_string(false), "archive/title_a.md");

    let handed: Vec<(ScribePath, String)> = vec![(title_b.clone(), data_b.clone())];
    let mut note = Note::from_path(title_a);
    let rewrites = note.transfer(&new_path, &mut index, &handed, &Some(data_a));

    assert_eq!(rewrites.len(), 1);
    let new_b_text = &rewrites[0].1;
    assert!(new_b_text.contains("[link](archive/title_a.md)"));
    assert!(!new_b_text.contains("inbox/title_a.md"));

    // The index now records the note under its new path and keeps the
    // rewritten backlink.
    assert!(index.notes.iter().any(|n| n.path == "archive/title_a.md"));
    assert!(!index.notes.iter().any(|n| n.path == "inbox/title_a.md"));
    let b_rec = index.notes.iter().find(|n| n.path == "projects/title_b.md").unwrap();
    assert!(b_rec
        .internal_links
        .as_ref()
        .unwrap()
        .contains(&"archive/title_a.md".to_string()));

    let new_backlinks = index.get_backlinks(&new_path);
    assert_eq!(new_backlinks.len(), 1);
    assert_eq!(new_backlinks[0].as_string(false), "projects/title_b.md");
}

#[test]
fn test_backlink_absolute_quirk() {
    // An internal link to the absolute form is not counted as a backlink.
    let root = "/notes";
    let target = ScribePath::new(root, "inbox", "a.md");
    let linker = ScribePath::new(root, "projects", "b.md");
    let text = "see [a](/notes/inbox/a.md)".to_string();
    let rec = NoteInfo::parse(&linker, &Some(text));
    assert!(!rec.has_backlink(&target));
}
