use extract_file_context::paths::relative_path;
use extract_file_context::app::{
    expand_home, preview_text, try_total_count, App, ExtractionState, OutputFormat,
};
use extract_file_context::extract::ReadOutcome;
use extract_file_context::tree::FileNode;

fn file(name: &str, checked: bool) -> FileNode {
    FileNode {
        name: name.to_string(),
        path: format!("/p/{}", name),
        is_dir: false,
        checked,
        children: Vec::new(),
        expanded: false,
    }
}

#[test]
fn new_window_state() {
    let app = App::new();
    assert!(app.project_path.is_empty());
    assert!(app.tree_nodes.is_empty());
    assert!(app.output_format == OutputFormat::Markdown);
    assert!(app.include_tree);
    assert_eq!(app.ignored_dirs.len(), 16);
    assert_eq!(app.ignored_exts.len(), 31);
    assert_eq!(app.selected_languages, vec![false; 32]);
    assert!(!app.filter_by_language);
    assert_eq!(app.result_label, "Click a file for preview or extract to see the result here.");
    assert_eq!(app.status_label, "Select a folder to start.");
    assert!(app.extraction_state == ExtractionState::Idle);
    assert_eq!(app.total_found, 0);
    assert!(app.dark_mode);
    assert!(!app.show_preview);
}

#[test]
fn expands_home_after_trimming() {
    assert_eq!(expand_home("  ~/code ", Some("/home/u".to_string())), "/home/u/code");
    assert_eq!(expand_home("~", Some("/home/u".to_string())), "/home/u");
    assert_eq!(expand_home("~/code", None), "~/code");
    assert_eq!(expand_home(" /abs/path\n", Some("/home/u".to_string())), "/abs/path");
}

#[test]
fn tree_filter_from_typed_extensions() {
    let mut app = App::new();
    assert!(app.tree_filter().is_none());
    app.ext_filter = "   ".to_string();
    assert!(app.tree_filter().is_none());
    app.ext_filter = " .rs  .py\t.rs ".to_string();
    assert_eq!(app.tree_filter(), Some(vec![".rs".to_string(), ".py".to_string()]));
}

#[test]
fn tree_filter_from_languages() {
    let mut app = App::new();
    app.ext_filter = ".md".to_string();
    app.filter_by_language = true;
    assert!(app.tree_filter().is_none());
    app.selected_languages[3] = true;
    assert_eq!(app.tree_filter(), Some(vec![".rs".to_string()]));
}

#[test]
fn loading_a_tree_reports_its_files() {
    let mut app = App::new();
    app.result_content = "old".to_string();
    app.show_preview = true;
    app.apply_tree(vec![file("a.rs", true), file("b.rs", false)]);
    assert_eq!(app.total_found, 2);
    assert_eq!(app.status_label, "2 file(s) found. Check/uncheck and click Extract.");
    assert!(app.result_content.is_empty());
    assert!(!app.show_preview);
    assert_eq!(app.count_selected(), 1);
}

#[test]
fn invalid_folder_status() {
    let mut app = App::new();
    app.project_path = "/nope".to_string();
    app.report_invalid_folder();
    assert_eq!(app.status_label, "Error: '/nope' is not a valid folder.");
}

#[test]
fn extraction_needs_folder_and_files() {
    let mut app = App::new();
    assert!(app.begin_extraction().is_none());
    assert_eq!(app.status_label, "Select a project folder first!");
    app.project_path = "/p".to_string();
    app.apply_tree(vec![file("a.rs", false)]);
    assert!(app.begin_extraction().is_none());
    assert_eq!(app.status_label, "No files selected!");
    app.set_all_checked(true);
    app.output_format = OutputFormat::Text;
    let job = app.begin_extraction().expect("job");
    assert_eq!(job.files, vec!["/p/a.rs".to_string()]);
    assert_eq!(job.base, "/p");
    assert_eq!(job.format, "txt");
    assert!(job.include_tree);
    assert!(app.extraction_state == ExtractionState::Running);
    assert_eq!(app.result_label, "Extracting…");
}

#[test]
fn progress_and_finish() {
    let mut app = App::new();
    app.apply_tree(vec![file("a.rs", true), file("b.rs", true)]);
    let before = app.status_label.clone();
    app.note_progress(0, 2, "a.rs");
    assert_eq!(app.status_label, before);
    app.note_progress(1, 2, "a.rs");
    assert_eq!(app.status_label, "Extracting (1/2): a.rs");
    app.finish_extraction("text".to_string(), 12);
    assert_eq!(app.result_content, "text");
    assert_eq!(app.result_label, "Extraction result — 2 file(s), 12 lines — Ready to copy!");
    assert_eq!(app.status_label, "2 file(s) extracted — 12 lines of code — Use 'Copy All' to copy.");
    assert!(app.extraction_state == ExtractionState::Done);
    assert!(!app.wants_preview());
}

#[test]
fn select_none_and_invert() {
    let mut app = App::new();
    app.apply_tree(vec![file("a.rs", true), file("b.rs", false)]);
    app.invert_all();
    assert!(!app.tree_nodes[0].checked && app.tree_nodes[1].checked);
    app.invert_all();
    assert!(app.tree_nodes[0].checked && !app.tree_nodes[1].checked);
    app.set_all_checked(false);
    assert_eq!(app.count_selected(), 0);
}

#[test]
fn preview_of_text_and_errors() {
    let mut app = App::new();
    app.project_path = "/p".to_string();
    assert!(app.wants_preview());
    app.apply_preview("/p/src/a.rs", ReadOutcome::Text("hello".to_string()));
    assert_eq!(app.preview_label, "Preview: src/a.rs");
    assert_eq!(app.preview_content, "hello");
    assert!(app.show_preview);
    app.apply_preview("/p/x.bin", ReadOutcome::Failed("stream did not contain valid UTF-8".to_string()));
    assert_eq!(app.preview_label, "x.bin - Binary file");
    assert!(app.preview_content.is_empty());
    app.apply_preview("/p/y", ReadOutcome::Failed("No such file".to_string()));
    assert_eq!(app.preview_label, "Error reading y: No such file");
}

#[test]
fn long_preview_is_cut_after_fifty_thousand_bytes() {
    let long = "a".repeat(50_001);
    let shown = preview_text(&long);
    assert_eq!(shown, format!("{}\n\n... [TRUNCATED - 50000 characters] ...", "a".repeat(50_000)));
    let exact = "b".repeat(50_000);
    assert_eq!(preview_text(&exact), exact);
    let wide = format!("{}é{}", "c".repeat(49_998), "d".repeat(10));
    assert_eq!(preview_text(&wide), format!("{}é\n\n... [TRUNCATED - 50000 characters] ...", "c".repeat(49_998)));
}

#[test]
fn ignored_lists_edit() {
    let mut app = App::new();
    app.new_dir = "  target ".to_string();
    app.add_ignored_dir();
    assert_eq!(app.ignored_dirs.last().unwrap(), "target");
    assert!(app.new_dir.is_empty());
    app.new_dir = ".git".to_string();
    app.add_ignored_dir();
    assert_eq!(app.ignored_dirs.len(), 17);
    assert_eq!(app.new_dir, ".git");
    app.new_dir = "   ".to_string();
    app.add_ignored_dir();
    assert_eq!(app.ignored_dirs.len(), 17);
    app.remove_ignored_dir(0);
    assert_eq!(app.ignored_dirs[0], ".vscode");

    app.new_ext = " log".to_string();
    app.add_ignored_ext();
    assert_eq!(app.ignored_exts.last().unwrap(), ".log");
    app.new_ext = ".png".to_string();
    app.add_ignored_ext();
    assert_eq!(app.ignored_exts.len(), 32);
    app.new_ext = String::new();
    app.add_ignored_ext();
    assert_eq!(app.ignored_exts.last().unwrap(), ".");
    app.remove_ignored_ext(0);
    assert_eq!(app.ignored_exts[0], ".pyo");
}

#[test]
fn languages_and_theme() {
    let mut app = App::new();
    app.set_all_languages(true);
    assert_eq!(app.selected_languages, vec![true; 32]);
    app.set_all_languages(false);
    assert_eq!(app.selected_languages, vec![false; 32]);
    app.toggle_theme();
    assert!(!app.dark_mode);
}

#[test]
fn search_term_is_trimmed_and_lowercased() {
    let mut app = App::new();
    app.search = "  MaIn.RS \t".to_string();
    assert_eq!(app.search_term(), "main.rs");
}

#[test]
fn relative_path_or_whole() {
    assert_eq!(relative_path("/p/src/a.rs", "/p"), "src/a.rs");
    assert_eq!(relative_path("/q/a.rs", "/p"), "/q/a.rs");
    assert_eq!(relative_path("/pp/a.rs", "/p"), "/pp/a.rs");
}

#[test]
fn add_dir_twice_same_as_once() {
    let mut app = App::new();
    app.new_dir = "target".to_string();
    app.add_ignored_dir();
    let once = app.ignored_dirs.clone();
    app.add_ignored_dir();
    assert_eq!(app.ignored_dirs, once);
    assert!(app.new_dir.is_empty());
}

#[test]
fn ignored_lists_stay_without_repeats() {
    let mut app = App::new();
    for typed in ["src", "src", " src ", "out"] {
        app.new_dir = typed.to_string();
        app.add_ignored_dir();
    }
    for typed in ["log", ".log", " .log", "tmp"] {
        app.new_ext = typed.to_string();
        app.add_ignored_ext();
    }
    let mut dirs = app.ignored_dirs.clone();
    dirs.sort();
    dirs.dedup();
    assert_eq!(dirs.len(), app.ignored_dirs.len());
    let mut exts = app.ignored_exts.clone();
    exts.sort();
    exts.dedup();
    assert_eq!(exts.len(), app.ignored_exts.len());
    assert_eq!(app.ignored_dirs.len(), 18);
    assert_eq!(app.ignored_exts.len(), 33);
}

#[test]
fn checked_counts_of_a_small_tree() {
    let mut app = App::new();
    let nodes = vec![file("a.rs", true), file("b.rs", false), file("c.rs", true)];
    assert_eq!(try_total_count(&nodes), Some(3));
    app.apply_tree(nodes);
    assert_eq!(app.try_count_selected(), Some(2));
    assert_eq!(app.count_selected(), 2);
    assert_eq!(app.tree_nodes[0].try_file_count(), Some(1));
    assert_eq!(app.tree_nodes[1].try_total_files(), Some(1));
}
