use extract_file_context::scan::keeps_entry;
use extract_file_context::config::{default_ignored_dirs, default_ignored_extensions};
use extract_file_context::scan::{assemble_level, plan_level, sort_entries, DirEntryInfo};
use extract_file_context::tree::FileNode;

fn entry(name: &str, is_dir: bool) -> DirEntryInfo {
    DirEntryInfo { name: name.to_string(), path: format!("/p/{}", name), is_dir }
}

fn names(v: &[DirEntryInfo]) -> Vec<String> {
    v.iter().map(|e| e.name.clone()).collect()
}

#[test]
fn sorts_folders_first_then_by_lowercase_name() {
    let es = vec![entry("b.txt", false), entry("src", true), entry("A.rs", false), entry("Docs", true)];
    assert_eq!(names(&sort_entries(&es)), vec!["Docs", "src", "A.rs", "b.txt"]);
}

#[test]
fn sort_keeps_listing_order_of_equal_names() {
    let es = vec![entry("a.txt", false), entry("A.txt", false)];
    assert_eq!(names(&sort_entries(&es)), vec!["a.txt", "A.txt"]);
    let es = vec![entry("A.txt", false), entry("a.txt", false)];
    assert_eq!(names(&sort_entries(&es)), vec!["A.txt", "a.txt"]);
}

#[test]
fn plan_skips_ignored_folders_and_extensions() {
    let es = vec![
        entry("b.txt", false),
        entry("src", true),
        entry("A.rs", false),
        entry("node_modules", true),
        entry("img.PNG", false),
        entry("Cargo.lock", false),
    ];
    let r = plan_level(&es, &default_ignored_dirs(), &default_ignored_extensions(), &None);
    assert_eq!(names(&r), vec!["src", "A.rs", "b.txt"]);
    assert!(r[0].is_dir);
    assert_eq!(r[1].path, "/p/A.rs");
}

#[test]
fn plan_applies_extension_filter_to_files_only() {
    let es = vec![entry("b.txt", false), entry("src", true), entry("A.RS", false), entry("Makefile", false)];
    let filter = Some(vec![".rs".to_string()]);
    let r = plan_level(&es, &Vec::new(), &Vec::new(), &filter);
    assert_eq!(names(&r), vec!["src", "A.RS"]);
    let filter = Some(vec!["".to_string()]);
    let r = plan_level(&es, &Vec::new(), &Vec::new(), &filter);
    assert_eq!(names(&r), vec!["src", "Makefile"]);
}

#[test]
fn plan_of_empty_listing_is_empty() {
    let r = plan_level(&Vec::new(), &default_ignored_dirs(), &default_ignored_extensions(), &None);
    assert!(r.is_empty());
}

#[test]
fn assemble_drops_empty_folders_and_checks_everything() {
    let planned = vec![entry("empty", true), entry("src", true), entry("a.rs", false)];
    let leaf = FileNode {
        name: "m.rs".to_string(),
        path: "/p/src/m.rs".to_string(),
        is_dir: false,
        checked: true,
        children: Vec::new(),
        expanded: false,
    };
    let r = assemble_level(planned, vec![Vec::new(), vec![leaf], Vec::new()]);
    assert_eq!(r.len(), 2);
    assert_eq!(r[0].name, "src");
    assert!(r[0].is_dir && r[0].checked && !r[0].expanded);
    assert_eq!(r[0].children.len(), 1);
    assert_eq!(r[1].name, "a.rs");
    assert!(!r[1].is_dir && r[1].checked && r[1].children.is_empty());
    assert_eq!(r[0].file_count() + r[1].file_count(), 2);
}

#[test]
fn keep_decision_from_extension() {
    let dirs = vec!["build".to_string()];
    let exts = vec![".lock".to_string()];
    let s = |x: &str| x.to_string();
    assert!(!keeps_entry(true, &s("build"), &s(""), &dirs, &exts, &None));
    assert!(keeps_entry(true, &s("src"), &s(".lock"), &dirs, &exts, &None));
    assert!(!keeps_entry(false, &s("Cargo.lock"), &s(".lock"), &dirs, &exts, &None));
    assert!(keeps_entry(false, &s("build"), &s(""), &dirs, &exts, &None));
    assert!(!keeps_entry(false, &s("a.rs"), &s(".rs"), &dirs, &exts, &Some(vec![s(".py")])));
}
