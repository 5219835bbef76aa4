//! The state of the extractor's window and the decisions taken on it: what
//! loading a folder, extracting, previewing and editing the settings do to
//! it. Drawing the window, the file dialogs, the clipboard and the worker
//! thread are left to the caller.

use vstd::prelude::*;

use crate::config::{
    default_ignored_dirs, default_ignored_extensions, extensions_from_languages,
    spec_default_ignored_dirs, spec_default_ignored_extensions, spec_extensions_from_languages,
};
use crate::extract::{ReadOutcome, ReadView};
use crate::paths::{opt_view, relative_or_whole, relative_or_whole_of};
use crate::scan::node_views;
use crate::text::{
    chars_of, contains_seq, contains_string, decimal, dedup, dedup_strings, push_chars,
    push_decimal, push_str, seq_contains, split_whitespace, string_from_chars, trim, trim_chars,
    utf8_len, views, words,
};
use crate::tree::{nodes_checked_paths, nodes_file_count, nodes_total_files, FileNode, NodeModel};

verus! {

/// The format of an extraction.
#[derive(PartialEq, Eq, Structural, Clone, Copy)]
pub enum OutputFormat {
    Markdown,
    Text,
}

/// Where an extraction stands.
#[derive(PartialEq, Eq, Structural, Clone, Copy)]
pub enum ExtractionState {
    Idle,
    Running,
    Done,
}

/// The state of the extractor's window.
pub struct App {
    pub project_path: String,
    pub tree_nodes: Vec<FileNode>,
    pub output_format: OutputFormat,
    pub include_tree: bool,
    pub ignored_dirs: Vec<String>,
    pub ignored_exts: Vec<String>,
    pub new_dir: String,
    pub new_ext: String,
    pub ext_filter: String,
    pub search: String,
    pub filter_by_language: bool,
    pub selected_languages: Vec<bool>,
    pub result_content: String,
    pub result_label: String,
    pub extraction_state: ExtractionState,
    pub preview_content: String,
    pub preview_label: String,
    pub show_preview: bool,
    pub status_label: String,
    pub total_found: usize,
    pub dark_mode: bool,
}

/// The value of an [`App`].
#[verifier::ext_equal]
pub struct AppModel {
    pub project_path: Seq<char>,
    pub tree_nodes: Seq<NodeModel>,
    pub output_format: OutputFormat,
    pub include_tree: bool,
    pub ignored_dirs: Seq<Seq<char>>,
    pub ignored_exts: Seq<Seq<char>>,
    pub new_dir: Seq<char>,
    pub new_ext: Seq<char>,
    pub ext_filter: Seq<char>,
    pub search: Seq<char>,
    pub filter_by_language: bool,
    pub selected_languages: Seq<bool>,
    pub result_content: Seq<char>,
    pub result_label: Seq<char>,
    pub extraction_state: ExtractionState,
    pub preview_content: Seq<char>,
    pub preview_label: Seq<char>,
    pub show_preview: bool,
    pub status_label: Seq<char>,
    pub total_found: usize,
    pub dark_mode: bool,
}

impl View for App {
    type V = AppModel;

    open spec fn view(&self) -> AppModel {
        AppModel {
            project_path: self.project_path@,
            tree_nodes: node_views(self.tree_nodes@),
            output_format: self.output_format,
            include_tree: self.include_tree,
            ignored_dirs: views(self.ignored_dirs@),
            ignored_exts: views(self.ignored_exts@),
            new_dir: self.new_dir@,
            new_ext: self.new_ext@,
            ext_filter: self.ext_filter@,
            search: self.search@,
            filter_by_language: self.filter_by_language,
            selected_languages: self.selected_languages@,
            result_content: self.result_content@,
            result_label: self.result_label@,
            extraction_state: self.extraction_state,
            preview_content: self.preview_content@,
            preview_label: self.preview_label@,
            show_preview: self.show_preview,
            status_label: self.status_label@,
            total_found: self.total_found,
            dark_mode: self.dark_mode,
        }
    }
}

/// The hint shown where the result goes before there is one.
pub open spec fn idle_result_label() -> Seq<char> {
    "Click a file for preview or extract to see the result here."@
}

/// The number of languages that the filter offers.
pub open spec fn language_count() -> nat {
    crate::config::language_table().len()
}

/// The window as it opens.
pub open spec fn initial_model() -> AppModel {
    AppModel {
        project_path: Seq::empty(),
        tree_nodes: Seq::empty(),
        output_format: OutputFormat::Markdown,
        include_tree: true,
        ignored_dirs: spec_default_ignored_dirs(),
        ignored_exts: spec_default_ignored_extensions(),
        new_dir: Seq::empty(),
        new_ext: Seq::empty(),
        ext_filter: Seq::empty(),
        search: Seq::empty(),
        filter_by_language: false,
        selected_languages: Seq::new(language_count(), |_i: int| false),
        result_content: Seq::empty(),
        result_label: idle_result_label(),
        extraction_state: ExtractionState::Idle,
        preview_content: Seq::empty(),
        preview_label: Seq::empty(),
        show_preview: false,
        status_label: "Select a folder to start."@,
        total_found: 0,
        dark_mode: true,
    }
}

/// `s` with a leading `~` replaced by the home folder, after trimming; a
/// path without `~`, or with no home folder known, is only trimmed.
pub open spec fn spec_expand_home(s: Seq<char>, home: Option<Seq<char>>) -> Seq<char> {
    let t = trim(s);
    if t.len() > 0 && t[0] == '~' && home is Some {
        home->0 + t.drop_first()
    } else {
        t
    }
}

/// Expands a leading `~` of a typed path with the home folder `home` (the
/// caller reads it from the environment), after trimming the path.
pub fn expand_home(s: &str, home: Option<String>) -> (r: String)
    ensures
        r@ == spec_expand_home(s@, opt_view(home)),
{
    let t = trim_chars(&chars_of(s));
    if t.len() > 0 && t[0] == '~' {
        match home {
            Some(h) => {
                let mut out = chars_of(h.as_str());
                let ghost hv = out@;
                let mut i: usize = 1;
                while i < t.len()
                    invariant
                        1 <= i <= t.len(),
                        out@ == hv + t@.subrange(1, i as int),
                    decreases t.len() - i,
                {
                    out.push(t[i]);
                    i += 1;
                }
                assert(t@.subrange(1, t.len() as int) =~= t@.drop_first());
                return string_from_chars(&out);
            },
            None => {},
        }
    }
    string_from_chars(&t)
}

/// The extensions that a scan keeps when the language filter is on: those
/// of the selected languages, or no filter when none is selected.
pub open spec fn language_filter(selected: Seq<bool>) -> Option<Seq<Seq<char>>> {
    let exts = spec_extensions_from_languages(selected);
    if exts.len() == 0 {
        None
    } else {
        Some(exts)
    }
}

/// The filter of a scan: the language filter when it is on; otherwise the
/// extensions typed in the filter field (each once), or none when that is
/// blank.
pub open spec fn spec_tree_filter(m: AppModel) -> Option<Seq<Seq<char>>> {
    if m.filter_by_language {
        language_filter(m.selected_languages)
    } else if trim(m.ext_filter).len() == 0 {
        None
    } else {
        Some(dedup(words(m.ext_filter)))
    }
}

/// The status after a scan that found `n` files.
pub open spec fn found_status(n: nat) -> Seq<char> {
    decimal(n) + " file(s) found. Check/uncheck and click Extract."@
}

/// The window after a scan produced `nodes`.
pub open spec fn loaded_model(m: AppModel, nodes: Seq<NodeModel>) -> AppModel {
    AppModel {
        tree_nodes: nodes,
        total_found: nodes_total_files(nodes) as usize,
        result_content: Seq::empty(),
        preview_content: Seq::empty(),
        show_preview: false,
        result_label: idle_result_label(),
        status_label: found_status(nodes_total_files(nodes)),
        ..m
    }
}

/// What an extraction needs: the selected files, the project folder, the
/// format (`"md"` or `"txt"`) and whether to draw the project structure.
pub struct ExtractionJob {
    pub files: Vec<String>,
    pub base: String,
    pub format: String,
    pub include_tree: bool,
}

/// The format name of an output format.
pub open spec fn format_name(f: OutputFormat) -> Seq<char> {
    match f {
        OutputFormat::Markdown => "md"@,
        OutputFormat::Text => "txt"@,
    }
}

/// The labels after an extraction of `files` files with `lines` lines.
pub open spec fn done_result_label(files: nat, lines: nat) -> Seq<char> {
    "Extraction result — "@ + decimal(files) + " file(s), "@ + decimal(lines)
        + " lines — Ready to copy!"@
}

pub open spec fn done_status(files: nat, lines: nat) -> Seq<char> {
    decimal(files) + " file(s) extracted — "@ + decimal(lines)
        + " lines of code — Use 'Copy All' to copy."@
}

/// Most bytes of a file that a preview shows.
pub open spec fn preview_limit() -> nat {
    50000
}

/// Whether some prefix of `s` takes exactly `n` bytes (so that `n` is a
/// character boundary of `s`).
pub open spec fn has_byte_boundary(s: Seq<char>, n: nat) -> bool {
    exists|k: int| 0 <= k <= s.len() && #[trigger] utf8_len(s.take(k)) == n
}

/// The longest prefix of `s` that takes at most `n` bytes.
pub open spec fn prefix_within(s: Seq<char>, n: nat) -> Seq<char>
    decreases s.len(),
{
    if utf8_len(s) <= n {
        s
    } else {
        prefix_within(s.drop_last(), n)
    }
}

/// What a preview shows of a file's text: all of it, or its first 50 000
/// bytes and a note when it is longer.
pub open spec fn preview_of(content: Seq<char>) -> Seq<char> {
    if utf8_len(content) > preview_limit() {
        prefix_within(content, preview_limit()) + "\n\n... [TRUNCATED - "@ + decimal(
            preview_limit(),
        ) + " characters] ..."@
    } else {
        content
    }
}

/// The window after previewing the file at `path` (below `base`), whose
/// read gave `read`.
pub open spec fn previewed_model(m: AppModel, path: Seq<char>, base: Seq<char>, read: ReadView) -> AppModel {
    let rel = relative_or_whole(path, base);
    match read {
        ReadView::Text(content) => AppModel {
            preview_label: "Preview: "@ + rel,
            preview_content: preview_of(content),
            show_preview: true,
            ..m
        },
        ReadView::Failed(message) => AppModel {
            preview_label: if seq_contains(message, "utf-8"@) || seq_contains(message, "UTF-8"@) {
                rel + " - Binary file"@
            } else {
                "Error reading "@ + rel + ": "@ + message
            },
            preview_content: Seq::empty(),
            show_preview: true,
            ..m
        },
    }
}

/// The extension typed into the field, trimmed and with a leading dot.
pub open spec fn typed_extension(typed: Seq<char>) -> Seq<char> {
    let t = trim(typed);
    if t.len() > 0 && t[0] == '.' {
        t
    } else {
        seq!['.'] + t
    }
}

/// The window with a new status line.
pub open spec fn with_status(m: AppModel, status: Seq<char>) -> AppModel {
    AppModel { status_label: status, ..m }
}

/// The window once an extraction has started.
pub open spec fn with_running(m: AppModel) -> AppModel {
    AppModel {
        extraction_state: ExtractionState::Running,
        result_label: "Extracting…"@,
        show_preview: false,
        ..m
    }
}

/// The window once an extraction has finished with `result`.
pub open spec fn with_done(m: AppModel, result: Seq<char>, files: nat, lines: nat) -> AppModel {
    AppModel {
        result_content: result,
        result_label: done_result_label(files, lines),
        status_label: done_status(files, lines),
        show_preview: false,
        extraction_state: ExtractionState::Done,
        ..m
    }
}

/// The window with new ignored folders and folder field.
pub open spec fn with_dirs(m: AppModel, dirs: Seq<Seq<char>>, field: Seq<char>) -> AppModel {
    AppModel { ignored_dirs: dirs, new_dir: field, ..m }
}

/// The window with new ignored extensions and extension field.
pub open spec fn with_exts(m: AppModel, exts: Seq<Seq<char>>, field: Seq<char>) -> AppModel {
    AppModel { ignored_exts: exts, new_ext: field, ..m }
}

/// The window after "+" beside the ignored folders: the typed name,
/// trimmed, joins the list and the field is cleared, unless the name is
/// empty or already listed.
pub open spec fn after_add_dir(m: AppModel) -> AppModel {
    let val = trim(m.new_dir);
    if val.len() > 0 && !m.ignored_dirs.contains(val) {
        with_dirs(m, m.ignored_dirs.push(val), Seq::empty())
    } else {
        m
    }
}

/// The window after "+" beside the ignored extensions: the typed
/// extension, trimmed and with a leading dot, joins the list and the field
/// is cleared, unless it is already listed.
pub open spec fn after_add_ext(m: AppModel) -> AppModel {
    let val = typed_extension(m.new_ext);
    if !m.ignored_exts.contains(val) {
        with_exts(m, m.ignored_exts.push(val), Seq::empty())
    } else {
        m
    }
}

/// The window with a new language selection.
pub open spec fn with_languages(m: AppModel, selected: Seq<bool>) -> AppModel {
    AppModel { selected_languages: selected, ..m }
}

/// The window with new tree nodes.
pub open spec fn with_nodes(m: AppModel, nodes: Seq<NodeModel>) -> AppModel {
    AppModel { tree_nodes: nodes, ..m }
}

/// The window with the other theme.
pub open spec fn with_theme_toggled(m: AppModel) -> AppModel {
    AppModel { dark_mode: !m.dark_mode, ..m }
}

/// `n` copies of `state`.
pub open spec fn all_set(n: nat, state: bool) -> Seq<bool> {
    Seq::new(n, |_i: int| state)
}

/// Every tree of `nodes` with all its check boxes set to `state`.
pub open spec fn all_with_checked(nodes: Seq<NodeModel>, state: bool) -> Seq<NodeModel> {
    Seq::new(nodes.len(), |j: int| nodes[j].with_checked(state))
}

/// Every tree of `nodes` with the check boxes of its files flipped.
pub open spec fn all_inverted(nodes: Seq<NodeModel>) -> Seq<NodeModel> {
    Seq::new(nodes.len(), |j: int| nodes[j].inverted())
}

fn decimal_string_with(n: usize, suffix: &str) -> (r: String)
    ensures
        r@ == decimal(n as nat) + suffix@,
{
    let mut out: Vec<char> = Vec::new();
    push_decimal(&mut out, n);
    push_str(&mut out, suffix);
    assert(out@ =~= decimal(n as nat) + suffix@);
    string_from_chars(&out)
}

impl App {
    /// The window as it opens: no folder, Markdown with the project tree,
    /// the default ignored folders and extensions, no filter, dark theme.
    pub fn new() -> (r: App)
        ensures
            r@ == initial_model(),
    {
        let n = crate::config::languages().len();
        let mut selected: Vec<bool> = Vec::new();
        let mut i: usize = 0;
        while i < n
            invariant
                i <= n,
                selected@ == Seq::new(i as nat, |_i: int| false),
            decreases n - i,
        {
            selected.push(false);
            i += 1;
            assert(selected@ =~= Seq::new(i as nat, |_i: int| false));
        }
        let r = App {
            project_path: String::new(),
            tree_nodes: Vec::new(),
            output_format: OutputFormat::Markdown,
            include_tree: true,
            ignored_dirs: default_ignored_dirs(),
            ignored_exts: default_ignored_extensions(),
            new_dir: String::new(),
            new_ext: String::new(),
            ext_filter: String::new(),
            search: String::new(),
            filter_by_language: false,
            selected_languages: selected,
            result_content: String::new(),
            result_label: "Click a file for preview or extract to see the result here.".to_owned(),
            extraction_state: ExtractionState::Idle,
            preview_content: String::new(),
            preview_label: String::new(),
            show_preview: false,
            status_label: "Select a folder to start.".to_owned(),
            total_found: 0,
            dark_mode: true,
        };
        assert(r@.tree_nodes =~= Seq::<NodeModel>::empty());
        assert(r@ =~= initial_model());
        r
    }

    /// Reports that the typed project folder is not a folder.
    pub fn report_invalid_folder(&mut self)
        ensures
            final(self)@ == with_status(
                old(self)@,
                "Error: '"@ + old(self)@.project_path + "' is not a valid folder."@,
            ),
    {
        let mut out: Vec<char> = Vec::new();
        push_str(&mut out, "Error: '");
        push_str(&mut out, self.project_path.as_str());
        push_str(&mut out, "' is not a valid folder.");
        self.status_label = string_from_chars(&out);
        assert(self@ =~= with_status(
            old(self)@,
            "Error: '"@ + old(self)@.project_path + "' is not a valid folder."@,
        ));
    }

    /// The extension filter for the next scan.
    pub fn tree_filter(&self) -> (r: Option<Vec<String>>)
        ensures
            crate::scan::filter_view(r) == spec_tree_filter(self@),
    {
        if self.filter_by_language {
            let exts = extensions_from_languages(self.selected_languages.as_slice());
            if exts.len() == 0 {
                None
            } else {
                Some(exts)
            }
        } else {
            let t = trim_chars(&chars_of(self.ext_filter.as_str()));
            if t.len() == 0 {
                None
            } else {
                let ws = split_whitespace(self.ext_filter.as_str());
                Some(dedup_strings(&ws))
            }
        }
    }

    /// Takes the nodes of a fresh scan: counts their files, clears the
    /// result and the preview, and reports the count.
    pub fn apply_tree(&mut self, nodes: Vec<FileNode>)
        requires
            nodes_total_files(node_views(nodes@)) <= usize::MAX,
        ensures
            final(self)@ == loaded_model(old(self)@, node_views(nodes@)),
    {
        let total = count_total(&nodes);
        self.tree_nodes = nodes;
        self.total_found = total;
        self.result_content = String::new();
        self.preview_content = String::new();
        self.show_preview = false;
        self.result_label = "Click a file for preview or extract to see the result here.".to_owned();
        self.status_label = decimal_string_with(
            total,
            " file(s) found. Check/uncheck and click Extract.",
        );
        assert(self@ =~= loaded_model(old(self)@, node_views(self.tree_nodes@)));
    }

    /// Number of checked files in the tree.
    pub fn count_selected(&self) -> (r: usize)
        requires
            nodes_file_count(self@.tree_nodes) <= usize::MAX,
        ensures
            r == nodes_file_count(self@.tree_nodes),
    {
        count_checked(&self.tree_nodes)
    }

    /// Number of checked files in the tree, or `None` when it does not fit
    /// in a `usize` (then neither [`App::count_selected`] nor
    /// [`App::finish_extraction`] can be called).
    pub fn try_count_selected(&self) -> (r: Option<usize>)
        ensures
            match r {
                Some(c) => c == nodes_file_count(self@.tree_nodes),
                None => nodes_file_count(self@.tree_nodes) > usize::MAX,
            },
    {
        try_checked_count(&self.tree_nodes)
    }

    /// Paths of the checked files, tree after tree, depth first.
    pub fn checked_files(&self) -> (r: Vec<String>)
        ensures
            views(r@) == nodes_checked_paths(self@.tree_nodes),
    {
        let mut r: Vec<String> = Vec::new();
        let mut i: usize = 0;
        while i < self.tree_nodes.len()
            invariant
                i <= self.tree_nodes.len(),
                views(r@) == nodes_checked_paths(node_views(self.tree_nodes@).take(i as int)),
            decreases self.tree_nodes.len() - i,
        {
            let ghost nv = node_views(self.tree_nodes@);
            assert(nv.take(i + 1).drop_last() =~= nv.take(i as int));
            assert(nv[i as int] == self.tree_nodes@[i as int]@);
            let mut sub = self.tree_nodes[i].collect_checked_files();
            let ghost before = views(r@);
            let ghost added = views(sub@);
            r.append(&mut sub);
            assert(views(r@) =~= before + added);
            i += 1;
        }
        assert(node_views(self.tree_nodes@).take(i as int) =~= node_views(self.tree_nodes@));
        r
    }

    /// Starts an extraction of the checked files: refuses (with a status)
    /// when no folder is loaded or no file is checked; otherwise marks the
    /// extraction as running and returns what it needs.
    pub fn begin_extraction(&mut self) -> (r: Option<ExtractionJob>)
        ensures
            (old(self)@.project_path.len() == 0 ==> (r is None) && final(self)@ == with_status(
                old(self)@,
                "Select a project folder first!"@,
            )),
            (old(self)@.project_path.len() > 0 && nodes_checked_paths(old(self)@.tree_nodes).len()
                == 0 ==> (r is None) && final(self)@ == with_status(
                old(self)@,
                "No files selected!"@,
            )),
            (old(self)@.project_path.len() > 0 && nodes_checked_paths(old(self)@.tree_nodes).len()
                > 0 ==> (r is Some) && final(self)@ == with_running(old(self)@)),
            (r matches Some(job) ==> views(job.files@) == nodes_checked_paths(old(self)@.tree_nodes)
                && job.base@ == old(self)@.project_path && job.format@ == format_name(
                old(self)@.output_format,
            ) && job.include_tree == old(self)@.include_tree),
    {
        if self.project_path.as_str().is_empty() {
            self.status_label = "Select a project folder first!".to_owned();
            assert(self@ =~= with_status(old(self)@, "Select a project folder first!"@));
            return None;
        }
        let files = self.checked_files();
        if files.len() == 0 {
            self.status_label = "No files selected!".to_owned();
            assert(self@ =~= with_status(old(self)@, "No files selected!"@));
            return None;
        }
        let format = match self.output_format {
            OutputFormat::Markdown => "md".to_owned(),
            OutputFormat::Text => "txt".to_owned(),
        };
        let job = ExtractionJob {
            files,
            base: self.project_path.clone(),
            format,
            include_tree: self.include_tree,
        };
        self.extraction_state = ExtractionState::Running;
        self.result_label = "Extracting…".to_owned();
        self.show_preview = false;
        assert(self@ =~= with_running(old(self)@));
        Some(job)
    }

    /// Reports the progress of a running extraction: file `current` of
    /// `total`, named `name` (nothing before the first file).
    pub fn note_progress(&mut self, current: usize, total: usize, name: &str)
        ensures
            current == 0 ==> final(self)@ == old(self)@,
            current > 0 ==> final(self)@ == with_status(
                old(self)@,
                "Extracting ("@ + decimal(current as nat) + "/"@ + decimal(total as nat) + "): "@
                    + name@,
            ),
    {
        if current > 0 {
            let mut out: Vec<char> = Vec::new();
            push_str(&mut out, "Extracting (");
            push_decimal(&mut out, current);
            push_str(&mut out, "/");
            push_decimal(&mut out, total);
            push_str(&mut out, "): ");
            push_str(&mut out, name);
            self.status_label = string_from_chars(&out);
            assert(self@ =~= with_status(
                old(self)@,
                "Extracting ("@ + decimal(current as nat) + "/"@ + decimal(total as nat) + "): "@
                    + name@,
            ));
        }
    }

    /// Takes the finished extraction `result` (with `lines` lines) and
    /// reports it with the number of checked files.
    pub fn finish_extraction(&mut self, result: String, lines: usize)
        requires
            nodes_file_count(old(self)@.tree_nodes) <= usize::MAX,
        ensures
            final(self)@ == with_done(
                old(self)@,
                result@,
                nodes_file_count(old(self)@.tree_nodes),
                lines as nat,
            ),
    {
        let total = self.count_selected();
        let mut label: Vec<char> = Vec::new();
        push_str(&mut label, "Extraction result — ");
        push_decimal(&mut label, total);
        push_str(&mut label, " file(s), ");
        push_decimal(&mut label, lines);
        push_str(&mut label, " lines — Ready to copy!");
        let mut status: Vec<char> = Vec::new();
        push_decimal(&mut status, total);
        push_str(&mut status, " file(s) extracted — ");
        push_decimal(&mut status, lines);
        push_str(&mut status, " lines of code — Use 'Copy All' to copy.");
        self.result_content = result;
        self.result_label = string_from_chars(&label);
        self.status_label = string_from_chars(&status);
        self.show_preview = false;
        self.extraction_state = ExtractionState::Done;
        assert(self@ =~= with_done(old(self)@, self.result_content@, total as nat, lines as nat));
    }

    /// Whether clicking a file previews it: only while there is no
    /// extraction result on show.
    pub fn wants_preview(&self) -> (r: bool)
        ensures
            r == (self@.result_content.len() == 0),
    {
        self.result_content.as_str().is_empty()
    }

    /// Shows the preview of the file at `path`, whose read gave `read`: its
    /// text, cut after 50 000 bytes, or why it cannot be shown.
    pub fn apply_preview(&mut self, path: &str, read: ReadOutcome)
        requires
            read.outcome() matches ReadView::Text(content) ==> (utf8_len(content)
                > preview_limit() ==> has_byte_boundary(content, preview_limit())),
        ensures
            final(self)@ == previewed_model(old(self)@, path@, old(self)@.project_path, read.outcome()),
    {
        let ghost m = self@;
        let rel = relative_or_whole_of(path, self.project_path.as_str());
        match read {
            ReadOutcome::Text(content) => {
                let mut label: Vec<char> = Vec::new();
                push_str(&mut label, "Preview: ");
                push_chars(&mut label, &rel);
                let shown = preview_text(&content);
                self.preview_label = string_from_chars(&label);
                self.preview_content = shown;
                self.show_preview = true;
                assert(self@ =~= previewed_model(m, path@, m.project_path, ReadView::Text(content@)));
            },
            ReadOutcome::Failed(message) => {
                let mc = chars_of(message.as_str());
                let binary = contains_seq(&mc, &chars_of("utf-8")) || contains_seq(
                    &mc,
                    &chars_of("UTF-8"),
                );
                let mut label: Vec<char> = Vec::new();
                if binary {
                    push_chars(&mut label, &rel);
                    push_str(&mut label, " - Binary file");
                } else {
                    push_str(&mut label, "Error reading ");
                    push_chars(&mut label, &rel);
                    push_str(&mut label, ": ");
                    push_str(&mut label, message.as_str());
                }
                self.preview_label = string_from_chars(&label);
                self.preview_content = String::new();
                self.show_preview = true;
                assert(self@ =~= previewed_model(
                    m,
                    path@,
                    m.project_path,
                    ReadView::Failed(message@),
                ));
            },
        }
    }

    /// Adds the typed folder name (trimmed) to the ignored folders, and
    /// clears the field, unless it is empty or already ignored.
    pub fn add_ignored_dir(&mut self)
        ensures
            final(self)@ == after_add_dir(old(self)@),
    {
        let val = string_from_chars(&trim_chars(&chars_of(self.new_dir.as_str())));
        if !val.as_str().is_empty() && !contains_string(&self.ignored_dirs, &val) {
            let ghost before = views(self.ignored_dirs@);
            let ghost vv = val@;
            self.ignored_dirs.push(val);
            self.new_dir = String::new();
            assert(views(self.ignored_dirs@) =~= before.push(vv));
            assert(self@ =~= with_dirs(old(self)@, old(self)@.ignored_dirs.push(vv), Seq::empty()));
        }
    }

    /// Adds the typed extension (trimmed, with a dot put in front when it
    /// has none) to the ignored extensions, and clears the field, unless it
    /// is already ignored.
    pub fn add_ignored_ext(&mut self)
        ensures
            final(self)@ == after_add_ext(old(self)@),
    {
        let t = trim_chars(&chars_of(self.new_ext.as_str()));
        let mut v: Vec<char> = Vec::new();
        if !(t.len() > 0 && t[0] == '.') {
            v.push('.');
        }
        push_chars(&mut v, &t);
        assert(v@ =~= typed_extension(old(self)@.new_ext));
        let val = string_from_chars(&v);
        if !val.as_str().is_empty() && !contains_string(&self.ignored_exts, &val) {
            let ghost before = views(self.ignored_exts@);
            let ghost vv = val@;
            self.ignored_exts.push(val);
            self.new_ext = String::new();
            assert(views(self.ignored_exts@) =~= before.push(vv));
            assert(self@ =~= with_exts(old(self)@, old(self)@.ignored_exts.push(vv), Seq::empty()));
        }
    }

    /// Stops ignoring the folder at position `i` of the list.
    pub fn remove_ignored_dir(&mut self, i: usize)
        requires
            i < old(self).ignored_dirs.len(),
        ensures
            final(self)@ == with_dirs(
                old(self)@,
                old(self)@.ignored_dirs.remove(i as int),
                old(self)@.new_dir,
            ),
    {
        let ghost before = views(self.ignored_dirs@);
        self.ignored_dirs.remove(i);
        assert(views(self.ignored_dirs@) =~= before.remove(i as int));
        assert(self@ =~= with_dirs(old(self)@, before.remove(i as int), old(self)@.new_dir));
    }

    /// Stops ignoring the extension at position `i` of the list.
    pub fn remove_ignored_ext(&mut self, i: usize)
        requires
            i < old(self).ignored_exts.len(),
        ensures
            final(self)@ == with_exts(
                old(self)@,
                old(self)@.ignored_exts.remove(i as int),
                old(self)@.new_ext,
            ),
    {
        let ghost before = views(self.ignored_exts@);
        self.ignored_exts.remove(i);
        assert(views(self.ignored_exts@) =~= before.remove(i as int));
        assert(self@ =~= with_exts(old(self)@, before.remove(i as int), old(self)@.new_ext));
    }

    /// Selects or deselects every language of the filter.
    pub fn set_all_languages(&mut self, state: bool)
        ensures
            final(self)@ == with_languages(old(self)@, all_set(old(self)@.selected_languages.len(), state)),
    {
        let n = self.selected_languages.len();
        let mut i: usize = 0;
        while i < n
            invariant
                i <= n,
                n == self.selected_languages.len(),
                forall|j: int| 0 <= j < i ==> self.selected_languages@[j] == state,
                self@ == with_languages(old(self)@, self.selected_languages@),
            decreases n - i,
        {
            self.selected_languages.set(i, state);
            i += 1;
        }
        assert(self.selected_languages@ =~= all_set(n as nat, state));
    }

    /// Checks (or unchecks) every file and folder of the tree.
    pub fn set_all_checked(&mut self, state: bool)
        ensures
            final(self)@ == with_nodes(old(self)@, all_with_checked(old(self)@.tree_nodes, state)),
    {
        let n = self.tree_nodes.len();
        let mut i: usize = 0;
        while i < n
            invariant
                i <= n,
                n == self.tree_nodes.len(),
                n == old(self).tree_nodes.len(),
                forall|j: int|
                    0 <= j < i ==> #[trigger] self.tree_nodes@[j]@ == old(self).tree_nodes@[j]@.with_checked(state),
                forall|j: int| i <= j < n ==> #[trigger] self.tree_nodes@[j] == old(self).tree_nodes@[j],
                self@ == with_nodes(old(self)@, node_views(self.tree_nodes@)),
            decreases n - i,
        {
            self.tree_nodes[i].set_checked(state);
            i += 1;
        }
        assert(node_views(self.tree_nodes@) =~= all_with_checked(old(self)@.tree_nodes, state));
    }

    /// Flips the check box of every file of the tree.
    pub fn invert_all(&mut self)
        ensures
            final(self)@ == with_nodes(old(self)@, all_inverted(old(self)@.tree_nodes)),
    {
        let n = self.tree_nodes.len();
        let mut i: usize = 0;
        while i < n
            invariant
                i <= n,
                n == self.tree_nodes.len(),
                n == old(self).tree_nodes.len(),
                forall|j: int|
                    0 <= j < i ==> #[trigger] self.tree_nodes@[j]@ == old(self).tree_nodes@[j]@.inverted(),
                forall|j: int| i <= j < n ==> #[trigger] self.tree_nodes@[j] == old(self).tree_nodes@[j],
                self@ == with_nodes(old(self)@, node_views(self.tree_nodes@)),
            decreases n - i,
        {
            self.tree_nodes[i].invert_files();
            i += 1;
        }
        assert(node_views(self.tree_nodes@) =~= all_inverted(old(self)@.tree_nodes));
    }

    /// The term that the file tree is filtered with: the search field,
    /// trimmed and lower-cased.
    pub fn search_term(&self) -> (r: String)
        ensures
            r@ == crate::text::lowercase(trim(self@.search)),
    {
        let t = string_from_chars(&trim_chars(&chars_of(self.search.as_str())));
        crate::text::to_lower(t.as_str())
    }

    /// Switches between the dark and the light theme.
    pub fn toggle_theme(&mut self)
        ensures
            final(self)@ == with_theme_toggled(old(self)@),
    {
        self.dark_mode = !self.dark_mode;
        assert(self@ =~= with_theme_toggled(old(self)@));
    }
}

/// The longest prefix within `n` bytes ends where the next character
/// would pass `n`.
proof fn lemma_prefix_within_is(s: Seq<char>, k: int, n: nat)
    requires
        0 <= k < s.len(),
        utf8_len(s.take(k)) <= n,
        utf8_len(s.take(k + 1)) > n,
    ensures
        prefix_within(s, n) == s.take(k),
    decreases s.len(),
{
    crate::text::lemma_utf8_len_prefix(s, k + 1);
    if s.len() == k + 1 {
        assert(s.take(k + 1) =~= s);
        assert(s.drop_last() =~= s.take(k));
        assert(prefix_within(s.take(k), n) == s.take(k));
    } else {
        assert(s.drop_last().take(k) =~= s.take(k));
        assert(s.drop_last().take(k + 1) =~= s.take(k + 1));
        lemma_prefix_within_is(s.drop_last(), k, n);
    }
}

fn count_total(nodes: &Vec<FileNode>) -> (r: usize)
    requires
        nodes_total_files(node_views(nodes@)) <= usize::MAX,
    ensures
        r == nodes_total_files(node_views(nodes@)),
{
    try_total_count(nodes).unwrap()
}

fn count_checked(nodes: &Vec<FileNode>) -> (r: usize)
    requires
        nodes_file_count(node_views(nodes@)) <= usize::MAX,
    ensures
        r == nodes_file_count(node_views(nodes@)),
{
    try_checked_count(nodes).unwrap()
}

/// Number of files in `nodes`, or `None` when it does not fit in a
/// `usize` (then [`App::apply_tree`] cannot take them).
pub fn try_total_count(nodes: &Vec<FileNode>) -> (r: Option<usize>)
    ensures
        match r {
            Some(c) => c == nodes_total_files(node_views(nodes@)),
            None => nodes_total_files(node_views(nodes@)) > usize::MAX,
        },
{
    let ghost nv = node_views(nodes@);
    let mut sum: usize = 0;
    let mut i: usize = 0;
    while i < nodes.len()
        invariant
            nv == node_views(nodes@),
            i <= nodes.len(),
            sum == nodes_total_files(nv.take(i as int)),
        decreases nodes.len() - i,
    {
        proof {
            crate::tree::lemma_nodes_step(nv, i as int);
            crate::tree::lemma_prefix_counts(nv, i + 1);
        }
        assert(nv[i as int] == nodes@[i as int]@);
        match nodes[i].try_total_files() {
            Some(c) => match sum.checked_add(c) {
                Some(t) => {
                    sum = t;
                },
                None => {
                    return None;
                },
            },
            None => {
                return None;
            },
        }
        i += 1;
    }
    assert(nv.take(i as int) =~= nv);
    Some(sum)
}

/// Number of checked files in `nodes`, or `None` when it does not fit in
/// a `usize`.
pub fn try_checked_count(nodes: &Vec<FileNode>) -> (r: Option<usize>)
    ensures
        match r {
            Some(c) => c == nodes_file_count(node_views(nodes@)),
            None => nodes_file_count(node_views(nodes@)) > usize::MAX,
        },
{
    let ghost nv = node_views(nodes@);
    let mut sum: usize = 0;
    let mut i: usize = 0;
    while i < nodes.len()
        invariant
            nv == node_views(nodes@),
            i <= nodes.len(),
            sum == nodes_file_count(nv.take(i as int)),
        decreases nodes.len() - i,
    {
        proof {
            crate::tree::lemma_nodes_step(nv, i as int);
            crate::tree::lemma_prefix_counts(nv, i + 1);
        }
        assert(nv[i as int] == nodes@[i as int]@);
        match nodes[i].try_file_count() {
            Some(c) => match sum.checked_add(c) {
                Some(t) => {
                    sum = t;
                },
                None => {
                    return None;
                },
            },
            None => {
                return None;
            },
        }
        i += 1;
    }
    assert(nv.take(i as int) =~= nv);
    Some(sum)
}

/// The preview of a file's text: all of it, or its first 50 000 bytes and
/// a note when it is longer (the caller makes sure that the cut falls
/// between characters, as `String::truncate` requires).
pub fn preview_text(content: &String) -> (r: String)
    requires
        utf8_len(content@) > preview_limit() ==> has_byte_boundary(content@, preview_limit()),
    ensures
        r@ == preview_of(content@),
{
    let cs = chars_of(content.as_str());
    let mut total: usize = 0;
    let mut i: usize = 0;
    let mut cut: usize = 0;
    // Count bytes up to the limit; `cut` ends the longest prefix that fits.
    while i < cs.len() && total <= 50000
        invariant
            i <= cs.len(),
            cut <= i,
            total == utf8_len(cs@.take(i as int)),
            total <= 50004,
            (cut == i && total <= 50000) || (cut + 1 == i && total > 50000),
            utf8_len(cs@.take(cut as int)) <= 50000,
        decreases cs.len() - i,
    {
        assert(cs@.take(i + 1).drop_last() =~= cs@.take(i as int));
        let c = cs[i] as u32;
        let w: usize = if c < 0x80 {
            1
        } else if c < 0x800 {
            2
        } else if c < 0x10000 {
            3
        } else {
            4
        };
        total = total + w;
        i += 1;
        if total <= 50000 {
            cut = i;
        }
    }
    if total <= 50000 {
        assert(cs@.take(i as int) =~= cs@);
        return string_from_chars(&cs);
    }
    proof {
        crate::text::lemma_utf8_len_prefix(cs@, i as int);
        lemma_prefix_within_is(cs@, cut as int, 50000);
    }
    let mut out: Vec<char> = Vec::new();
    let mut k: usize = 0;
    while k < cut
        invariant
            k <= cut <= cs.len(),
            out@ == cs@.take(k as int),
        decreases cut - k,
    {
        out.push(cs[k]);
        k += 1;
        assert(out@ =~= cs@.take(k as int));
    }
    push_str(&mut out, "\n\n... [TRUNCATED - ");
    push_decimal(&mut out, 50000);
    push_str(&mut out, " characters] ...");
    string_from_chars(&out)
}

/// Pressing "+" beside the ignored folders a second time changes nothing
/// more: the field was cleared, or the name is listed already.
pub proof fn law_add_dir_twice(m: AppModel)
    ensures
        after_add_dir(after_add_dir(m)) == after_add_dir(m),
{
    let val = trim(m.new_dir);
    if val.len() > 0 && !m.ignored_dirs.contains(val) {
        let m1 = after_add_dir(m);
        assert(m1.new_dir == Seq::<char>::empty());
        assert(trim(Seq::<char>::empty()).len() == 0) by {
            crate::text::lemma_leading_ws_bound(Seq::<char>::empty());
        }
    }
}

/// The ignored folders and extensions never hold an entry twice: "+"
/// keeps a list without repeats free of them.
pub proof fn law_add_keeps_lists_without_repeats(m: AppModel)
    ensures
        m.ignored_dirs.no_duplicates() ==> after_add_dir(m).ignored_dirs.no_duplicates(),
        m.ignored_exts.no_duplicates() ==> after_add_ext(m).ignored_exts.no_duplicates(),
{
    let d = trim(m.new_dir);
    if d.len() > 0 && !m.ignored_dirs.contains(d) && m.ignored_dirs.no_duplicates() {
        let l = m.ignored_dirs.push(d);
        assert forall|i: int, j: int| 0 <= i < l.len() && 0 <= j < l.len() && i != j implies l[i]
            != l[j] by {
            if i == l.len() - 1 {
                assert(m.ignored_dirs.contains(l[j]) ==> l[j] != d);
                assert(l[j] == m.ignored_dirs[j]);
            } else if j == l.len() - 1 {
                assert(l[i] == m.ignored_dirs[i]);
            }
        }
    }
    let e = typed_extension(m.new_ext);
    if !m.ignored_exts.contains(e) && m.ignored_exts.no_duplicates() {
        let l = m.ignored_exts.push(e);
        assert forall|i: int, j: int| 0 <= i < l.len() && 0 <= j < l.len() && i != j implies l[i]
            != l[j] by {
            if i == l.len() - 1 {
                assert(l[j] == m.ignored_exts[j]);
            } else if j == l.len() - 1 {
                assert(l[i] == m.ignored_exts[i]);
            }
        }
    }
}

} // verus!
