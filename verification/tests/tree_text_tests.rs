use extract_file_context::tree_text::generate_tree_text;

fn s(v: &[&str]) -> Vec<String> {
    v.iter().map(|x| x.to_string()).collect()
}

#[test]
fn draws_folders_first_then_by_lowercase_name() {
    let files = s(&["/p/src/main.rs", "/p/src/lib.rs", "/p/README.md", "/p/Cargo.toml", "/q/other.rs"]);
    let expected = "├── src\n│   ├── lib.rs\n│   └── main.rs\n├── Cargo.toml\n└── README.md";
    assert_eq!(generate_tree_text(&files, "/p"), expected);
}

#[test]
fn nested_last_folder_is_indented_with_spaces() {
    let files = s(&["/p/a/b/c.txt", "/p/z.txt"]);
    let expected = "├── a\n│   └── b\n│       └── c.txt\n└── z.txt";
    assert_eq!(generate_tree_text(&files, "/p"), expected);
    let files = s(&["/p/a/b/c.txt"]);
    assert_eq!(generate_tree_text(&files, "/p"), "└── a\n    └── b\n        └── c.txt");
}

#[test]
fn order_of_files_does_not_matter() {
    let a = s(&["/p/b.txt", "/p/A.txt", "/p/d/x", "/p/C.txt"]);
    let b = s(&["/p/d/x", "/p/C.txt", "/p/A.txt", "/p/b.txt"]);
    assert_eq!(generate_tree_text(&a, "/p"), generate_tree_text(&b, "/p"));
    assert_eq!(generate_tree_text(&a, "/p"), "├── d\n│   └── x\n├── A.txt\n├── b.txt\n└── C.txt");
}

#[test]
fn same_lowercase_names_order_by_name() {
    let files = s(&["/p/a.txt", "/p/A.txt"]);
    assert_eq!(generate_tree_text(&files, "/p"), "├── A.txt\n└── a.txt");
}

#[test]
fn no_file_below_base_draws_nothing() {
    assert_eq!(generate_tree_text(&s(&["/q/x.rs"]), "/p"), "");
    assert_eq!(generate_tree_text(&Vec::new(), "/p"), "");
}

#[test]
fn base_with_trailing_slash() {
    assert_eq!(generate_tree_text(&s(&["/p/x.rs"]), "/p/"), "└── x.rs");
}

#[test]
fn files_given_twice_draw_once() {
    let once = s(&["/p/a/x.rs", "/p/b.rs", "/p/a/y.rs"]);
    let twice = s(&["/p/b.rs", "/p/a/y.rs", "/p/a/x.rs", "/p/b.rs", "/p/a/x.rs"]);
    let expected = "├── a\n│   ├── x.rs\n│   └── y.rs\n└── b.rs";
    assert_eq!(generate_tree_text(&once, "/p"), expected);
    assert_eq!(generate_tree_text(&twice, "/p"), expected);
}
