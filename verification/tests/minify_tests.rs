use extract_file_context::minify::minify;

#[test]
fn collapses_blank_lines_and_indentation() {
    assert_eq!(minify("a\n\n\n    b\n========\n\tc  \n"), "a\n\n b\n c\n");
}

#[test]
fn keeps_short_rules_and_drops_long_ones() {
    assert_eq!(minify("---\n----\n───\nx\n"), "---\nx\n");
    assert_eq!(minify("==-==\n"), "");
}

#[test]
fn indentation_counts_levels() {
    assert_eq!(minify("        deep\n"), "  deep\n");
    assert_eq!(minify("       seven\n"), " seven\n");
    assert_eq!(minify("\u{3000}\u{3000}wide\n"), " wide\n");
}

#[test]
fn leading_blank_lines_become_one() {
    assert_eq!(minify("\n\n  \nz"), "\nz\n");
}

#[test]
fn crlf_lines() {
    assert_eq!(minify("a\r\nb\r\n"), "a\nb\n");
}

#[test]
fn empty_text() {
    assert_eq!(minify(""), "");
}

#[test]
fn one_space_per_leading_tab() {
    assert_eq!(minify("\tx"), " x\n");
    assert_eq!(minify("\t\tx"), "  x\n");
    assert_eq!(minify("\t    x\n"), "  x\n");
    assert_eq!(minify("  \tx\n"), " x\n");
}
