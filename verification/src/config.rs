//! Fixed configuration: the code-block language of each file extension,
//! the folders and extensions ignored by default, and the language filter.

use vstd::prelude::*;

use crate::order::{key_order, key_views, sort_keys, KeyView, SortKey};
use crate::text::{chars_eq_str, chars_of, dedup, dedup_strings, lemma_dedup, views};

verus! {

/// The Markdown code-block language for an extension written with its dot
/// (`".rs"`), or the empty string for one that is not known.
pub open spec fn language_for(ext: Seq<char>) -> Seq<char> {
    if ext == ".py"@ {
        "python"@
    } else if ext == ".js"@ {
        "javascript"@
    } else if ext == ".ts"@ {
        "typescript"@
    } else if ext == ".jsx"@ {
        "jsx"@
    } else if ext == ".tsx"@ {
        "tsx"@
    } else if ext == ".java"@ {
        "java"@
    } else if ext == ".kt"@ {
        "kotlin"@
    } else if ext == ".go"@ {
        "go"@
    } else if ext == ".rs"@ {
        "rust"@
    } else if ext == ".rb"@ {
        "ruby"@
    } else if ext == ".php"@ {
        "php"@
    } else if ext == ".c"@ {
        "c"@
    } else if ext == ".cpp"@ || ext == ".hpp"@ {
        "cpp"@
    } else if ext == ".h"@ {
        "c"@
    } else if ext == ".cs"@ {
        "csharp"@
    } else if ext == ".swift"@ {
        "swift"@
    } else if ext == ".dart"@ {
        "dart"@
    } else if ext == ".html"@ {
        "html"@
    } else if ext == ".css"@ {
        "css"@
    } else if ext == ".scss"@ {
        "scss"@
    } else if ext == ".less"@ {
        "less"@
    } else if ext == ".json"@ {
        "json"@
    } else if ext == ".xml"@ {
        "xml"@
    } else if ext == ".yaml"@ || ext == ".yml"@ {
        "yaml"@
    } else if ext == ".toml"@ {
        "toml"@
    } else if ext == ".ini"@ || ext == ".cfg"@ {
        "ini"@
    } else if ext == ".sh"@ || ext == ".bash"@ {
        "bash"@
    } else if ext == ".zsh"@ {
        "zsh"@
    } else if ext == ".fish"@ {
        "fish"@
    } else if ext == ".sql"@ {
        "sql"@
    } else if ext == ".md"@ {
        "markdown"@
    } else if ext == ".r"@ {
        "r"@
    } else if ext == ".vue"@ {
        "vue"@
    } else if ext == ".svelte"@ {
        "svelte"@
    } else if ext == ".dockerfile"@ {
        "dockerfile"@
    } else if ext == ".tf"@ {
        "hcl"@
    } else if ext == ".lua"@ {
        "lua"@
    } else if ext == ".perl"@ || ext == ".pl"@ {
        "perl"@
    } else if ext == ".gradle"@ || ext == ".groovy"@ {
        "groovy"@
    } else {
        ""@
    }
}

/// The Markdown code-block language for an extension written with its
/// dot, or `""` when the extension is not known.
pub fn extension_to_language(ext: &str) -> (r: &'static str)
    ensures
        r@ == language_for(ext@),
{
    let e = chars_of(ext);
    if chars_eq_str(&e, ".py") {
        "python"
    } else if chars_eq_str(&e, ".js") {
        "javascript"
    } else if chars_eq_str(&e, ".ts") {
        "typescript"
    } else if chars_eq_str(&e, ".jsx") {
        "jsx"
    } else if chars_eq_str(&e, ".tsx") {
        "tsx"
    } else if chars_eq_str(&e, ".java") {
        "java"
    } else if chars_eq_str(&e, ".kt") {
        "kotlin"
    } else if chars_eq_str(&e, ".go") {
        "go"
    } else if chars_eq_str(&e, ".rs") {
        "rust"
    } else if chars_eq_str(&e, ".rb") {
        "ruby"
    } else if chars_eq_str(&e, ".php") {
        "php"
    } else if chars_eq_str(&e, ".c") {
        "c"
    } else if chars_eq_str(&e, ".cpp") || chars_eq_str(&e, ".hpp") {
        "cpp"
    } else if chars_eq_str(&e, ".h") {
        "c"
    } else if chars_eq_str(&e, ".cs") {
        "csharp"
    } else if chars_eq_str(&e, ".swift") {
        "swift"
    } else if chars_eq_str(&e, ".dart") {
        "dart"
    } else if chars_eq_str(&e, ".html") {
        "html"
    } else if chars_eq_str(&e, ".css") {
        "css"
    } else if chars_eq_str(&e, ".scss") {
        "scss"
    } else if chars_eq_str(&e, ".less") {
        "less"
    } else if chars_eq_str(&e, ".json") {
        "json"
    } else if chars_eq_str(&e, ".xml") {
        "xml"
    } else if chars_eq_str(&e, ".yaml") || chars_eq_str(&e, ".yml") {
        "yaml"
    } else if chars_eq_str(&e, ".toml") {
        "toml"
    } else if chars_eq_str(&e, ".ini") || chars_eq_str(&e, ".cfg") {
        "ini"
    } else if chars_eq_str(&e, ".sh") || chars_eq_str(&e, ".bash") {
        "bash"
    } else if chars_eq_str(&e, ".zsh") {
        "zsh"
    } else if chars_eq_str(&e, ".fish") {
        "fish"
    } else if chars_eq_str(&e, ".sql") {
        "sql"
    } else if chars_eq_str(&e, ".md") {
        "markdown"
    } else if chars_eq_str(&e, ".r") {
        "r"
    } else if chars_eq_str(&e, ".vue") {
        "vue"
    } else if chars_eq_str(&e, ".svelte") {
        "svelte"
    } else if chars_eq_str(&e, ".dockerfile") {
        "dockerfile"
    } else if chars_eq_str(&e, ".tf") {
        "hcl"
    } else if chars_eq_str(&e, ".lua") {
        "lua"
    } else if chars_eq_str(&e, ".perl") || chars_eq_str(&e, ".pl") {
        "perl"
    } else if chars_eq_str(&e, ".gradle") || chars_eq_str(&e, ".groovy") {
        "groovy"
    } else {
        ""
    }
}

/// Folders that a scan skips unless configured otherwise.
pub open spec fn spec_default_ignored_dirs() -> Seq<Seq<char>> {
    seq![
        ".git"@,
        ".vscode"@,
        ".idea"@,
        "__pycache__"@,
        "node_modules"@,
        ".venv"@,
        "env"@,
        "venv"@,
        "build"@,
        "dist"@,
        ".next"@,
        ".nuxt"@,
        ".cache"@,
        ".pytest_cache"@,
        ".mypy_cache"@,
        "coverage"@,
    ]
}

/// Folders that a scan skips unless configured otherwise.
pub fn default_ignored_dirs() -> (r: Vec<String>)
    ensures
        r@.map_values(|s: String| s@) == spec_default_ignored_dirs(),
{
    let r = vec![
        ".git".to_owned(),
        ".vscode".to_owned(),
        ".idea".to_owned(),
        "__pycache__".to_owned(),
        "node_modules".to_owned(),
        ".venv".to_owned(),
        "env".to_owned(),
        "venv".to_owned(),
        "build".to_owned(),
        "dist".to_owned(),
        ".next".to_owned(),
        ".nuxt".to_owned(),
        ".cache".to_owned(),
        ".pytest_cache".to_owned(),
        ".mypy_cache".to_owned(),
        "coverage".to_owned(),
    ];
    assert(r@.map_values(|s: String| s@) =~= spec_default_ignored_dirs());
    r
}

/// File extensions that a scan skips unless configured otherwise.
pub open spec fn spec_default_ignored_extensions() -> Seq<Seq<char>> {
    seq![
        ".pyc"@,
        ".pyo"@,
        ".png"@,
        ".jpg"@,
        ".jpeg"@,
        ".gif"@,
        ".svg"@,
        ".ico"@,
        ".webp"@,
        ".exe"@,
        ".dll"@,
        ".so"@,
        ".dylib"@,
        ".pdf"@,
        ".zip"@,
        ".tar"@,
        ".gz"@,
        ".rar"@,
        ".mp4"@,
        ".mp3"@,
        ".wav"@,
        ".avi"@,
        ".mov"@,
        ".sqlite3"@,
        ".db"@,
        ".lock"@,
        ".map"@,
        ".woff"@,
        ".woff2"@,
        ".ttf"@,
        ".eot"@,
    ]
}

/// File extensions that a scan skips unless configured otherwise.
pub fn default_ignored_extensions() -> (r: Vec<String>)
    ensures
        r@.map_values(|s: String| s@) == spec_default_ignored_extensions(),
{
    let r = vec![
        ".pyc".to_owned(),
        ".pyo".to_owned(),
        ".png".to_owned(),
        ".jpg".to_owned(),
        ".jpeg".to_owned(),
        ".gif".to_owned(),
        ".svg".to_owned(),
        ".ico".to_owned(),
        ".webp".to_owned(),
        ".exe".to_owned(),
        ".dll".to_owned(),
        ".so".to_owned(),
        ".dylib".to_owned(),
        ".pdf".to_owned(),
        ".zip".to_owned(),
        ".tar".to_owned(),
        ".gz".to_owned(),
        ".rar".to_owned(),
        ".mp4".to_owned(),
        ".mp3".to_owned(),
        ".wav".to_owned(),
        ".avi".to_owned(),
        ".mov".to_owned(),
        ".sqlite3".to_owned(),
        ".db".to_owned(),
        ".lock".to_owned(),
        ".map".to_owned(),
        ".woff".to_owned(),
        ".woff2".to_owned(),
        ".ttf".to_owned(),
        ".eot".to_owned(),
    ];
    assert(r@.map_values(|s: String| s@) =~= spec_default_ignored_extensions());
    r
}

/// A language that the filter offers: its name and its file extensions.
pub struct LanguageDefinition {
    pub name: &'static str,
    pub extensions: Vec<&'static str>,
}

impl LanguageDefinition {
    pub open spec fn model(&self) -> (Seq<char>, Seq<Seq<char>>) {
        (self.name@, self.extensions@.map_values(|e: &'static str| e@))
    }
}

/// The languages of the filter, in the order in which they are offered.
pub open spec fn language_table() -> Seq<(Seq<char>, Seq<Seq<char>>)> {
    seq![
        ("Python"@, seq![".py"@]),
        ("JavaScript"@, seq![".js"@, ".jsx"@]),
        ("TypeScript"@, seq![".ts"@, ".tsx"@]),
        ("Rust"@, seq![".rs"@]),
        ("Java"@, seq![".java"@]),
        ("Kotlin"@, seq![".kt"@]),
        ("Go"@, seq![".go"@]),
        ("C"@, seq![".c"@, ".h"@]),
        ("C++"@, seq![".cpp"@, ".hpp"@]),
        ("C#"@, seq![".cs"@]),
        ("Swift"@, seq![".swift"@]),
        ("Dart"@, seq![".dart"@]),
        ("Ruby"@, seq![".rb"@]),
        ("PHP"@, seq![".php"@]),
        ("Lua"@, seq![".lua"@]),
        ("R"@, seq![".r"@]),
        ("Perl"@, seq![".perl"@, ".pl"@]),
        ("Groovy"@, seq![".groovy"@, ".gradle"@]),
        ("HTML"@, seq![".html"@]),
        ("CSS/SCSS"@, seq![".css"@, ".scss"@, ".less"@]),
        ("SQL"@, seq![".sql"@]),
        ("Shell/Bash"@, seq![".sh"@, ".bash"@, ".zsh"@, ".fish"@]),
        ("JSON"@, seq![".json"@]),
        ("YAML"@, seq![".yaml"@, ".yml"@]),
        ("TOML"@, seq![".toml"@]),
        ("XML"@, seq![".xml"@]),
        ("Markdown"@, seq![".md"@]),
        ("Vue"@, seq![".vue"@]),
        ("Svelte"@, seq![".svelte"@]),
        ("Dockerfile"@, seq![".dockerfile"@]),
        ("Terraform"@, seq![".tf"@]),
        ("INI/Config"@, seq![".ini"@, ".cfg"@]),
    ]
}

/// The languages of the filter, in the order in which they are offered.
pub fn languages() -> (r: Vec<LanguageDefinition>)
    ensures
        r@.map_values(|l: LanguageDefinition| l.model()) == language_table(),
{
    let r = vec![
        LanguageDefinition { name: "Python", extensions: vec![".py"] },
        LanguageDefinition { name: "JavaScript", extensions: vec![".js", ".jsx"] },
        LanguageDefinition { name: "TypeScript", extensions: vec![".ts", ".tsx"] },
        LanguageDefinition { name: "Rust", extensions: vec![".rs"] },
        LanguageDefinition { name: "Java", extensions: vec![".java"] },
        LanguageDefinition { name: "Kotlin", extensions: vec![".kt"] },
        LanguageDefinition { name: "Go", extensions: vec![".go"] },
        LanguageDefinition { name: "C", extensions: vec![".c", ".h"] },
        LanguageDefinition { name: "C++", extensions: vec![".cpp", ".hpp"] },
        LanguageDefinition { name: "C#", extensions: vec![".cs"] },
        LanguageDefinition { name: "Swift", extensions: vec![".swift"] },
        LanguageDefinition { name: "Dart", extensions: vec![".dart"] },
        LanguageDefinition { name: "Ruby", extensions: vec![".rb"] },
        LanguageDefinition { name: "PHP", extensions: vec![".php"] },
        LanguageDefinition { name: "Lua", extensions: vec![".lua"] },
        LanguageDefinition { name: "R", extensions: vec![".r"] },
        LanguageDefinition { name: "Perl", extensions: vec![".perl", ".pl"] },
        LanguageDefinition { name: "Groovy", extensions: vec![".groovy", ".gradle"] },
        LanguageDefinition { name: "HTML", extensions: vec![".html"] },
        LanguageDefinition { name: "CSS/SCSS", extensions: vec![".css", ".scss", ".less"] },
        LanguageDefinition { name: "SQL", extensions: vec![".sql"] },
        LanguageDefinition { name: "Shell/Bash", extensions: vec![".sh", ".bash", ".zsh", ".fish"] },
        LanguageDefinition { name: "JSON", extensions: vec![".json"] },
        LanguageDefinition { name: "YAML", extensions: vec![".yaml", ".yml"] },
        LanguageDefinition { name: "TOML", extensions: vec![".toml"] },
        LanguageDefinition { name: "XML", extensions: vec![".xml"] },
        LanguageDefinition { name: "Markdown", extensions: vec![".md"] },
        LanguageDefinition { name: "Vue", extensions: vec![".vue"] },
        LanguageDefinition { name: "Svelte", extensions: vec![".svelte"] },
        LanguageDefinition { name: "Dockerfile", extensions: vec![".dockerfile"] },
        LanguageDefinition { name: "Terraform", extensions: vec![".tf"] },
        LanguageDefinition { name: "INI/Config", extensions: vec![".ini", ".cfg"] },
    ];
    let ghost m = r@.map_values(|l: LanguageDefinition| l.model());
    assert forall|i: int| 0 <= i < m.len() implies #[trigger] m[i] == language_table()[i] by {
        assert(r@[i].model().1 =~= language_table()[i].1);
    }
    assert(m =~= language_table());
    r
}


/// The extensions of the first `n` languages that are selected, in
/// language order (a language past the end of `selected` is not selected).
pub open spec fn selected_extension_list(selected: Seq<bool>, n: int) -> Seq<Seq<char>>
    decreases n,
{
    if n <= 0 {
        Seq::empty()
    } else {
        selected_extension_list(selected, n - 1) + (if n - 1 < selected.len() && selected[n
            - 1] {
            language_table()[n - 1].1
        } else {
            Seq::empty()
        })
    }
}

/// The extensions of the selected languages, each once, in the order of
/// first appearance.
pub open spec fn spec_extensions_from_languages(selected: Seq<bool>) -> Seq<Seq<char>> {
    dedup(selected_extension_list(selected, language_table().len() as int))
}

/// The extensions of the languages selected by `selected` (indexed like
/// [`languages`]), each once.
pub fn extensions_from_languages(selected: &[bool]) -> (r: Vec<String>)
    ensures
        views(r@) == spec_extensions_from_languages(selected@),
{
    let langs = languages();
    let mut all: Vec<String> = Vec::new();
    let mut i: usize = 0;
    while i < langs.len()
        invariant
            langs@.map_values(|l: LanguageDefinition| l.model()) == language_table(),
            i <= langs.len(),
            views(all@) == selected_extension_list(selected@, i as int),
        decreases langs.len() - i,
    {
        assert(langs@[i as int].model() == language_table()[i as int]);
        if i < selected.len() && selected[i] {
            let exts = &langs[i].extensions;
            let mut j: usize = 0;
            while j < exts.len()
                invariant
                    exts@.map_values(|e: &'static str| e@) == language_table()[i as int].1,
                    j <= exts.len(),
                    views(all@) == selected_extension_list(selected@, i as int) + language_table()[i as int].1.take(j as int),
                decreases exts.len() - j,
            {
                let ghost before = views(all@);
                assert(exts@[j as int]@ == language_table()[i as int].1[j as int]);
                all.push(exts[j].to_owned());
                assert(language_table()[i as int].1.take(j + 1) =~= language_table()[i as int].1.take(j as int).push(exts@[j as int]@));
                assert(views(all@) =~= before.push(exts@[j as int]@));
                j += 1;
            }
            assert(language_table()[i as int].1.take(j as int) =~= language_table()[i as int].1);
        } else {
            assert(selected_extension_list(selected@, i + 1) =~= selected_extension_list(selected@, i as int));
        }
        i += 1;
    }
    dedup_strings(&all)
}

/// An extension comes out of the language filter exactly when some selected
/// language has it, and never twice.
pub proof fn law_filter_extensions(selected: Seq<bool>, ext: Seq<char>)
    ensures
        spec_extensions_from_languages(selected).contains(ext) <==> exists|i: int|
            0 <= i < language_table().len() && i < selected.len() && selected[i]
                && #[trigger] language_table()[i].1.contains(ext),
        spec_extensions_from_languages(selected).no_duplicates(),
{
    let n = language_table().len() as int;
    lemma_dedup(selected_extension_list(selected, n));
    lemma_selected_list_contains(selected, n, ext);
}

proof fn lemma_selected_list_contains(selected: Seq<bool>, n: int, ext: Seq<char>)
    requires
        0 <= n <= language_table().len(),
    ensures
        selected_extension_list(selected, n).contains(ext) <==> exists|i: int|
            0 <= i < n && i < selected.len() && selected[i]
                && #[trigger] language_table()[i].1.contains(ext),
    decreases n,
{
    if n > 0 {
        lemma_selected_list_contains(selected, n - 1, ext);
        let a = selected_extension_list(selected, n - 1);
        let b = if n - 1 < selected.len() && selected[n - 1] {
            language_table()[n - 1].1
        } else {
            Seq::empty()
        };
        assert(selected_extension_list(selected, n) == a + b);
        if (a + b).contains(ext) {
            let k = choose|k: int| 0 <= k < (a + b).len() && (a + b)[k] == ext;
            if k < a.len() {
                assert(a[k] == ext);
                let i = choose|i: int|
                    0 <= i < n - 1 && i < selected.len() && selected[i]
                        && #[trigger] language_table()[i].1.contains(ext);
                assert(language_table()[i].1.contains(ext));
            } else {
                assert(b[k - a.len()] == ext);
                assert(language_table()[n - 1].1.contains(ext));
            }
        }
        if exists|i: int|
            0 <= i < n && i < selected.len() && selected[i]
                && #[trigger] language_table()[i].1.contains(ext) {
            let i = choose|i: int|
                0 <= i < n && i < selected.len() && selected[i]
                    && #[trigger] language_table()[i].1.contains(ext);
            if i < n - 1 {
                let k = choose|k: int| 0 <= k < a.len() && a[k] == ext;
                assert((a + b)[k] == ext);
            } else {
                let k = choose|k: int| 0 <= k < b.len() && b[k] == ext;
                assert((a + b)[a.len() + k] == ext);
            }
        }
    }
}


/// The words of `ws` separated by single spaces.
pub open spec fn join_spaced(ws: Seq<Seq<char>>) -> Seq<char>
    decreases ws.len(),
{
    if ws.len() == 0 {
        Seq::empty()
    } else if ws.len() == 1 {
        ws[0]
    } else {
        join_spaced(ws.drop_last()) + seq![' '] + ws.last()
    }
}

/// The sort keys that order extensions as strings.
pub open spec fn name_keys(names: Seq<Seq<char>>) -> Seq<KeyView> {
    Seq::new(names.len(), |i: int| (false, Seq::<char>::empty(), names[i], 0usize))
}

/// The label that lists the extensions of the selected languages in
/// string order (`"Extensions: .c .h"`), or empty when none is selected.
pub open spec fn spec_extensions_label(selected: Seq<bool>) -> Seq<char> {
    let exts = spec_extensions_from_languages(selected);
    if exts.len() == 0 {
        Seq::empty()
    } else {
        let sorted = name_keys(exts).sort_by(key_order());
        "Extensions: "@ + join_spaced(Seq::new(sorted.len(), |i: int| sorted[i].2))
    }
}

/// The label listing the extensions of the selected languages in string
/// order, or the empty string when no language is selected.
pub fn extensions_label(selected: &[bool]) -> (r: String)
    ensures
        r@ == spec_extensions_label(selected@),
{
    let exts = extensions_from_languages(selected);
    if exts.len() == 0 {
        return String::new();
    }
    let ghost ev = views(exts@);
    let mut keys: Vec<SortKey> = Vec::new();
    let mut i: usize = 0;
    while i < exts.len()
        invariant
            ev == views(exts@),
            i <= exts.len(),
            key_views(keys@) == name_keys(ev).take(i as int),
        decreases exts.len() - i,
    {
        let key = SortKey { first: false, lower: Vec::new(), name: chars_of(exts[i].as_str()), index: 0 };
        let ghost before = key_views(keys@);
        let ghost kk = key.key();
        assert(kk == name_keys(ev)[i as int]) by {
            assert(key.lower@ =~= Seq::<char>::empty());
            assert(ev[i as int] == exts@[i as int]@);
        }
        keys.push(key);
        assert(key_views(keys@) =~= before.push(kk));
        assert(key_views(keys@) =~= name_keys(ev).take(i + 1));
        i += 1;
    }
    assert(name_keys(ev).take(i as int) =~= name_keys(ev));
    let sorted = sort_keys(keys);
    let ghost sv = key_views(sorted@);
    let ghost names = Seq::new(sv.len(), |k: int| sv[k].2);
    let mut out: Vec<char> = Vec::new();
    crate::text::push_str(&mut out, "Extensions: ");
    let ghost head = out@;
    let mut k: usize = 0;
    while k < sorted.len()
        invariant
            sv == key_views(sorted@),
            names == Seq::new(sv.len(), |m: int| sv[m].2),
            k <= sorted.len(),
            out@ == head + join_spaced(names.take(k as int)),
        decreases sorted.len() - k,
    {
        assert(names.take(k + 1).drop_last() =~= names.take(k as int));
        assert(names[k as int] == sorted@[k as int].name@);
        let ghost before = out@;
        if k > 0 {
            out.push(' ');
        }
        crate::text::push_chars(&mut out, &sorted[k].name);
        if k == 0 {
            assert(join_spaced(names.take(1)) == names[0]);
        }
        assert(out@ =~= head + join_spaced(names.take(k + 1)));
        k += 1;
    }
    assert(names.take(k as int) =~= names);
    crate::text::string_from_chars(&out)
}

/// The code-block language of each known extension, entry by entry: the
/// table that Markdown sections are fenced with.
pub proof fn law_code_block_languages()
    ensures
        language_for(".py"@) == "python"@,
        language_for(".js"@) == "javascript"@,
        language_for(".ts"@) == "typescript"@,
        language_for(".jsx"@) == "jsx"@,
        language_for(".tsx"@) == "tsx"@,
        language_for(".java"@) == "java"@,
        language_for(".kt"@) == "kotlin"@,
        language_for(".go"@) == "go"@,
        language_for(".rs"@) == "rust"@,
        language_for(".rb"@) == "ruby"@,
        language_for(".php"@) == "php"@,
        language_for(".c"@) == "c"@,
        language_for(".cpp"@) == "cpp"@,
        language_for(".hpp"@) == "cpp"@,
        language_for(".h"@) == "c"@,
        language_for(".cs"@) == "csharp"@,
        language_for(".swift"@) == "swift"@,
        language_for(".dart"@) == "dart"@,
        language_for(".html"@) == "html"@,
        language_for(".css"@) == "css"@,
        language_for(".scss"@) == "scss"@,
        language_for(".less"@) == "less"@,
        language_for(".json"@) == "json"@,
        language_for(".xml"@) == "xml"@,
        language_for(".yaml"@) == "yaml"@,
        language_for(".yml"@) == "yaml"@,
        language_for(".toml"@) == "toml"@,
        language_for(".ini"@) == "ini"@,
        language_for(".cfg"@) == "ini"@,
        language_for(".sh"@) == "bash"@,
        language_for(".bash"@) == "bash"@,
        language_for(".zsh"@) == "zsh"@,
        language_for(".fish"@) == "fish"@,
        language_for(".sql"@) == "sql"@,
        language_for(".md"@) == "markdown"@,
        language_for(".r"@) == "r"@,
        language_for(".vue"@) == "vue"@,
        language_for(".svelte"@) == "svelte"@,
        language_for(".dockerfile"@) == "dockerfile"@,
        language_for(".tf"@) == "hcl"@,
        language_for(".lua"@) == "lua"@,
        language_for(".perl"@) == "perl"@,
        language_for(".pl"@) == "perl"@,
        language_for(".gradle"@) == "groovy"@,
        language_for(".groovy"@) == "groovy"@,
{
    reveal_strlit(".py");
    reveal_strlit(".js");
    reveal_strlit(".ts");
    reveal_strlit(".jsx");
    reveal_strlit(".tsx");
    reveal_strlit(".java");
    reveal_strlit(".kt");
    reveal_strlit(".go");
    reveal_strlit(".rs");
    reveal_strlit(".rb");
    reveal_strlit(".php");
    reveal_strlit(".c");
    reveal_strlit(".cpp");
    reveal_strlit(".hpp");
    reveal_strlit(".h");
    reveal_strlit(".cs");
    reveal_strlit(".swift");
    reveal_strlit(".dart");
    reveal_strlit(".html");
    reveal_strlit(".css");
    reveal_strlit(".scss");
    reveal_strlit(".less");
    reveal_strlit(".json");
    reveal_strlit(".xml");
    reveal_strlit(".yaml");
    reveal_strlit(".yml");
    reveal_strlit(".toml");
    reveal_strlit(".ini");
    reveal_strlit(".cfg");
    reveal_strlit(".sh");
    reveal_strlit(".bash");
    reveal_strlit(".zsh");
    reveal_strlit(".fish");
    reveal_strlit(".sql");
    reveal_strlit(".md");
    reveal_strlit(".r");
    reveal_strlit(".vue");
    reveal_strlit(".svelte");
    reveal_strlit(".dockerfile");
    reveal_strlit(".tf");
    reveal_strlit(".lua");
    reveal_strlit(".perl");
    reveal_strlit(".pl");
    reveal_strlit(".gradle");
    reveal_strlit(".groovy");
    assert(".py"@ =~= seq!['.', 'p', 'y']);
    assert(".js"@ =~= seq!['.', 'j', 's']);
    assert(".ts"@ =~= seq!['.', 't', 's']);
    assert(".jsx"@ =~= seq!['.', 'j', 's', 'x']);
    assert(".tsx"@ =~= seq!['.', 't', 's', 'x']);
    assert(".java"@ =~= seq!['.', 'j', 'a', 'v', 'a']);
    assert(".kt"@ =~= seq!['.', 'k', 't']);
    assert(".go"@ =~= seq!['.', 'g', 'o']);
    assert(".rs"@ =~= seq!['.', 'r', 's']);
    assert(".rb"@ =~= seq!['.', 'r', 'b']);
    assert(".php"@ =~= seq!['.', 'p', 'h', 'p']);
    assert(".c"@ =~= seq!['.', 'c']);
    assert(".cpp"@ =~= seq!['.', 'c', 'p', 'p']);
    assert(".hpp"@ =~= seq!['.', 'h', 'p', 'p']);
    assert(".h"@ =~= seq!['.', 'h']);
    assert(".cs"@ =~= seq!['.', 'c', 's']);
    assert(".swift"@ =~= seq!['.', 's', 'w', 'i', 'f', 't']);
    assert(".dart"@ =~= seq!['.', 'd', 'a', 'r', 't']);
    assert(".html"@ =~= seq!['.', 'h', 't', 'm', 'l']);
    assert(".css"@ =~= seq!['.', 'c', 's', 's']);
    assert(".scss"@ =~= seq!['.', 's', 'c', 's', 's']);
    assert(".less"@ =~= seq!['.', 'l', 'e', 's', 's']);
    assert(".json"@ =~= seq!['.', 'j', 's', 'o', 'n']);
    assert(".xml"@ =~= seq!['.', 'x', 'm', 'l']);
    assert(".yaml"@ =~= seq!['.', 'y', 'a', 'm', 'l']);
    assert(".yml"@ =~= seq!['.', 'y', 'm', 'l']);
    assert(".toml"@ =~= seq!['.', 't', 'o', 'm', 'l']);
    assert(".ini"@ =~= seq!['.', 'i', 'n', 'i']);
    assert(".cfg"@ =~= seq!['.', 'c', 'f', 'g']);
    assert(".sh"@ =~= seq!['.', 's', 'h']);
    assert(".bash"@ =~= seq!['.', 'b', 'a', 's', 'h']);
    assert(".zsh"@ =~= seq!['.', 'z', 's', 'h']);
    assert(".fish"@ =~= seq!['.', 'f', 'i', 's', 'h']);
    assert(".sql"@ =~= seq!['.', 's', 'q', 'l']);
    assert(".md"@ =~= seq!['.', 'm', 'd']);
    assert(".r"@ =~= seq!['.', 'r']);
    assert(".vue"@ =~= seq!['.', 'v', 'u', 'e']);
    assert(".svelte"@ =~= seq!['.', 's', 'v', 'e', 'l', 't', 'e']);
    assert(".dockerfile"@ =~= seq!['.', 'd', 'o', 'c', 'k', 'e', 'r', 'f', 'i', 'l', 'e']);
    assert(".tf"@ =~= seq!['.', 't', 'f']);
    assert(".lua"@ =~= seq!['.', 'l', 'u', 'a']);
    assert(".perl"@ =~= seq!['.', 'p', 'e', 'r', 'l']);
    assert(".pl"@ =~= seq!['.', 'p', 'l']);
    assert(".gradle"@ =~= seq!['.', 'g', 'r', 'a', 'd', 'l', 'e']);
    assert(".groovy"@ =~= seq!['.', 'g', 'r', 'o', 'o', 'v', 'y']);
}

/// Only `.js` files are fenced as JavaScript: no other extension, known or
/// not, is given that language.
pub proof fn law_only_js_is_javascript(ext: Seq<char>)
    ensures
        language_for(ext) == "javascript"@ ==> ext == ".js"@,
{
    reveal_strlit("");
    assert(""@ =~= Seq::<char>::empty());
    reveal_strlit("python");
    reveal_strlit("javascript");
    reveal_strlit("typescript");
    reveal_strlit("jsx");
    reveal_strlit("tsx");
    reveal_strlit("java");
    reveal_strlit("kotlin");
    reveal_strlit("go");
    reveal_strlit("rust");
    reveal_strlit("ruby");
    reveal_strlit("php");
    reveal_strlit("c");
    reveal_strlit("cpp");
    reveal_strlit("csharp");
    reveal_strlit("swift");
    reveal_strlit("dart");
    reveal_strlit("html");
    reveal_strlit("css");
    reveal_strlit("scss");
    reveal_strlit("less");
    reveal_strlit("json");
    reveal_strlit("xml");
    reveal_strlit("yaml");
    reveal_strlit("toml");
    reveal_strlit("ini");
    reveal_strlit("bash");
    reveal_strlit("zsh");
    reveal_strlit("fish");
    reveal_strlit("sql");
    reveal_strlit("markdown");
    reveal_strlit("r");
    reveal_strlit("vue");
    reveal_strlit("svelte");
    reveal_strlit("dockerfile");
    reveal_strlit("hcl");
    reveal_strlit("lua");
    reveal_strlit("perl");
    reveal_strlit("groovy");
    assert("python"@ =~= seq!['p', 'y', 't', 'h', 'o', 'n']);
    assert("javascript"@ =~= seq!['j', 'a', 'v', 'a', 's', 'c', 'r', 'i', 'p', 't']);
    assert("typescript"@ =~= seq!['t', 'y', 'p', 'e', 's', 'c', 'r', 'i', 'p', 't']);
    assert("jsx"@ =~= seq!['j', 's', 'x']);
    assert("tsx"@ =~= seq!['t', 's', 'x']);
    assert("java"@ =~= seq!['j', 'a', 'v', 'a']);
    assert("kotlin"@ =~= seq!['k', 'o', 't', 'l', 'i', 'n']);
    assert("go"@ =~= seq!['g', 'o']);
    assert("rust"@ =~= seq!['r', 'u', 's', 't']);
    assert("ruby"@ =~= seq!['r', 'u', 'b', 'y']);
    assert("php"@ =~= seq!['p', 'h', 'p']);
    assert("c"@ =~= seq!['c']);
    assert("cpp"@ =~= seq!['c', 'p', 'p']);
    assert("csharp"@ =~= seq!['c', 's', 'h', 'a', 'r', 'p']);
    assert("swift"@ =~= seq!['s', 'w', 'i', 'f', 't']);
    assert("dart"@ =~= seq!['d', 'a', 'r', 't']);
    assert("html"@ =~= seq!['h', 't', 'm', 'l']);
    assert("css"@ =~= seq!['c', 's', 's']);
    assert("scss"@ =~= seq!['s', 'c', 's', 's']);
    assert("less"@ =~= seq!['l', 'e', 's', 's']);
    assert("json"@ =~= seq!['j', 's', 'o', 'n']);
    assert("xml"@ =~= seq!['x', 'm', 'l']);
    assert("yaml"@ =~= seq!['y', 'a', 'm', 'l']);
    assert("toml"@ =~= seq!['t', 'o', 'm', 'l']);
    assert("ini"@ =~= seq!['i', 'n', 'i']);
    assert("bash"@ =~= seq!['b', 'a', 's', 'h']);
    assert("zsh"@ =~= seq!['z', 's', 'h']);
    assert("fish"@ =~= seq!['f', 'i', 's', 'h']);
    assert("sql"@ =~= seq!['s', 'q', 'l']);
    assert("markdown"@ =~= seq!['m', 'a', 'r', 'k', 'd', 'o', 'w', 'n']);
    assert("r"@ =~= seq!['r']);
    assert("vue"@ =~= seq!['v', 'u', 'e']);
    assert("svelte"@ =~= seq!['s', 'v', 'e', 'l', 't', 'e']);
    assert("dockerfile"@ =~= seq!['d', 'o', 'c', 'k', 'e', 'r', 'f', 'i', 'l', 'e']);
    assert("hcl"@ =~= seq!['h', 'c', 'l']);
    assert("lua"@ =~= seq!['l', 'u', 'a']);
    assert("perl"@ =~= seq!['p', 'e', 'r', 'l']);
    assert("groovy"@ =~= seq!['g', 'r', 'o', 'o', 'v', 'y']);
}

} // verus!
