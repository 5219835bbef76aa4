use extract_file_context::config::extensions_label;
use extract_file_context::config::{
    default_ignored_dirs, default_ignored_extensions, extension_to_language,
    extensions_from_languages, languages,
};

#[test]
fn language_of_known_extensions() {
    assert_eq!(extension_to_language(".rs"), "rust");
    assert_eq!(extension_to_language(".py"), "python");
    assert_eq!(extension_to_language(".hpp"), "cpp");
    assert_eq!(extension_to_language(".h"), "c");
    assert_eq!(extension_to_language(".yml"), "yaml");
    assert_eq!(extension_to_language(".gradle"), "groovy");
    assert_eq!(extension_to_language(".tf"), "hcl");
}

#[test]
fn language_of_unknown_extension_is_empty() {
    assert_eq!(extension_to_language(".unknown"), "");
    assert_eq!(extension_to_language(""), "");
    assert_eq!(extension_to_language("rs"), "");
    assert_eq!(extension_to_language(".RS"), "");
}

#[test]
fn default_ignored_lists() {
    let dirs = default_ignored_dirs();
    assert_eq!(dirs.len(), 16);
    assert_eq!(dirs[0], ".git");
    assert_eq!(dirs[4], "node_modules");
    assert_eq!(dirs[15], "coverage");
    let exts = default_ignored_extensions();
    assert_eq!(exts.len(), 31);
    assert_eq!(exts[0], ".pyc");
    assert_eq!(exts[30], ".eot");
    assert!(exts.contains(&".lock".to_string()));
}

#[test]
fn language_table_order() {
    let langs = languages();
    assert_eq!(langs.len(), 32);
    assert_eq!(langs[0].name, "Python");
    assert_eq!(langs[0].extensions, vec![".py"]);
    assert_eq!(langs[21].name, "Shell/Bash");
    assert_eq!(langs[21].extensions, vec![".sh", ".bash", ".zsh", ".fish"]);
    assert_eq!(langs[31].name, "INI/Config");
}

#[test]
fn extensions_of_selected_languages() {
    let r = extensions_from_languages(&[true, true]);
    assert_eq!(r, vec![".py".to_string(), ".js".to_string(), ".jsx".to_string()]);
    let mut sel = vec![false; 32];
    sel[7] = true;
    sel[8] = true;
    let r = extensions_from_languages(&sel);
    assert_eq!(r, vec![".c", ".h", ".cpp", ".hpp"]);
}

#[test]
fn extensions_of_no_language_is_empty() {
    assert!(extensions_from_languages(&[]).is_empty());
    assert!(extensions_from_languages(&vec![false; 32]).is_empty());
}

#[test]
fn extensions_ignore_selection_past_the_table() {
    let mut sel = vec![false; 40];
    sel[35] = true;
    assert!(extensions_from_languages(&sel).is_empty());
}

#[test]
fn extensions_of_all_languages_are_distinct() {
    let r = extensions_from_languages(&vec![true; 32]);
    let mut sorted = r.clone();
    sorted.sort();
    sorted.dedup();
    assert_eq!(sorted.len(), r.len());
    assert_eq!(r.len(), 45);
}

#[test]
fn extensions_label_lists_in_string_order() {
    let mut sel = vec![false; 32];
    sel[8] = true;
    sel[7] = true;
    assert_eq!(extensions_label(&sel), "Extensions: .c .cpp .h .hpp");
    assert_eq!(extensions_label(&[]), "");
    assert_eq!(extensions_label(&[true]), "Extensions: .py");
}
