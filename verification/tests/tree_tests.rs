use extract_file_context::tree::FileNode;

fn file(name: &str, path: &str, checked: bool) -> FileNode {
    FileNode {
        name: name.to_string(),
        path: path.to_string(),
        is_dir: false,
        checked,
        children: Vec::new(),
        expanded: false,
    }
}

fn dir(name: &str, path: &str, children: Vec<FileNode>) -> FileNode {
    FileNode {
        name: name.to_string(),
        path: path.to_string(),
        is_dir: true,
        checked: true,
        children,
        expanded: false,
    }
}

fn sample() -> FileNode {
    dir(
        "src",
        "/p/src",
        vec![
            file("Main.rs", "/p/src/Main.rs", true),
            file("lib.rs", "/p/src/lib.rs", false),
            dir("util", "/p/src/util", vec![file("io.rs", "/p/src/util/io.rs", true)]),
        ],
    )
}

#[test]
fn counts_checked_and_total_files() {
    let t = sample();
    assert_eq!(t.file_count(), 2);
    assert_eq!(t.total_files(), 3);
    assert_eq!(file("a", "/a", true).file_count(), 1);
    assert_eq!(file("a", "/a", false).file_count(), 0);
    assert_eq!(file("a", "/a", false).total_files(), 1);
    assert_eq!(dir("e", "/e", vec![]).total_files(), 0);
}

#[test]
fn set_checked_selects_all_or_none() {
    let mut t = sample();
    t.set_checked(true);
    assert_eq!(t.file_count(), t.total_files());
    assert!(t.children[2].checked);
    t.set_checked(false);
    assert_eq!(t.file_count(), 0);
    assert!(!t.checked);
    assert_eq!(t.total_files(), 3);
}

#[test]
fn invert_flips_files_only() {
    let mut t = sample();
    let before = t.file_count();
    t.invert_files();
    assert_eq!(t.file_count() + before, t.total_files());
    assert!(t.checked);
    assert!(!t.children[0].checked);
    assert!(t.children[1].checked);
    assert!(t.children[2].checked);
    assert!(!t.children[2].children[0].checked);
}

#[test]
fn invert_twice_restores_selection() {
    let mut t = sample();
    t.invert_files();
    t.invert_files();
    assert_eq!(t.collect_checked_files(), sample().collect_checked_files());
    assert!(t.children[0].checked);
    assert!(!t.children[1].checked);
}

#[test]
fn collects_checked_paths_depth_first() {
    let t = sample();
    assert_eq!(
        t.collect_checked_files(),
        vec!["/p/src/Main.rs".to_string(), "/p/src/util/io.rs".to_string()]
    );
    assert_eq!(t.collect_checked_files().len(), t.file_count());
}

#[test]
fn search_matches_lowercased_file_names() {
    let t = sample();
    assert!(t.matches_search(""));
    assert!(t.matches_search("main"));
    assert!(!t.matches_search("Main"));
    assert!(t.matches_search("io."));
    assert!(!t.matches_search("util"));
    assert!(file("README.MD", "/r", false).matches_search("readme"));
    assert!(!dir("empty", "/e", vec![]).matches_search("e"));
}

#[test]
fn counts_equal_exactly_when_every_file_is_checked() {
    let mut t = sample();
    assert!(t.file_count() < t.total_files());
    t.children[1].checked = true;
    assert_eq!(t.file_count(), t.total_files());
    // An unchecked folder does not matter: only files are counted.
    t.children[2].checked = false;
    assert_eq!(t.file_count(), t.total_files());
    t.children[2].children[0].checked = false;
    assert_eq!(t.file_count() + 1, t.total_files());
}

#[test]
fn unchecking_everything_collects_nothing() {
    let mut t = sample();
    assert!(!t.collect_checked_files().is_empty());
    t.set_checked(false);
    assert!(t.collect_checked_files().is_empty());
}
