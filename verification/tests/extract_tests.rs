use extract_file_context::extract::{header_text, section_text};
use extract_file_context::extract::{extract_files, try_line_total, ReadOutcome};

fn s(v: &[&str]) -> Vec<String> {
    v.iter().map(|x| x.to_string()).collect()
}

fn rule() -> String {
    "=".repeat(60)
}

#[test]
fn markdown_without_tree() {
    let files = s(&["/p/a.rs"]);
    let reads = vec![ReadOutcome::Text("fn main() {}\n".to_string())];
    let (text, lines) = extract_files(&files, "/p", "md", false, &reads);
    let expected = "# Project Context: p\n\n> Extracted from `/p`\n> Total files: 1\n> Total lines: 1\n\n## `a.rs`\n\n```rust\nfn main() {}\n```\n\n";
    assert_eq!(text, expected);
    assert_eq!(lines, 1);
}

#[test]
fn markdown_closes_block_after_text_without_final_newline() {
    let files = s(&["/p/Notes.MD", "/p/x.unknown"]);
    let reads = vec![ReadOutcome::Text("# t\nline".to_string()), ReadOutcome::Text(String::new())];
    let (text, lines) = extract_files(&files, "/p", "md", false, &reads);
    let expected = "# Project Context: p\n\n> Extracted from `/p`\n> Total files: 2\n> Total lines: 2\n\n## `Notes.MD`\n\n```markdown\n# t\nline\n```\n\n## `x.unknown`\n\n```\n\n```\n\n";
    assert_eq!(text, expected);
    assert_eq!(lines, 2);
}

#[test]
fn text_with_tree_binary_and_error() {
    let files = s(&["/p/a.rs", "/p/b.bin", "/p/c.txt"]);
    let reads = vec![
        ReadOutcome::Text("x".to_string()),
        ReadOutcome::Failed("stream did not contain valid UTF-8".to_string()),
        ReadOutcome::Failed("permission denied".to_string()),
    ];
    let (text, lines) = extract_files(&files, "/p", "txt", true, &reads);
    let r = rule();
    let expected = format!(
        "PROJECT: p\nPATH: /p\nTOTAL FILES: 3\nTOTAL LINES: 1\n\n{r}\nPROJECT STRUCTURE\n{r}\n\n├── a.rs\n├── b.bin\n└── c.txt\n\n{r}\n\n\n{r}\nFILE: a.rs\n{r}\n\nx\n\n{r}\nFILE: b.bin [BINARY IGNORED]\n{r}\n\n\n[ERROR READING c.txt]: permission denied\n"
    );
    assert_eq!(text, expected);
    assert_eq!(lines, 1);
}

#[test]
fn markdown_binary_and_tree() {
    let files = s(&["/p/d/img.dat"]);
    let reads = vec![ReadOutcome::Failed("invalid utf-8 sequence".to_string())];
    let (text, lines) = extract_files(&files, "/p", "md", true, &reads);
    let expected = "# Project Context: p\n\n> Extracted from `/p`\n> Total files: 1\n> Total lines: 0\n\n## Project Structure\n\n```\n└── d\n    └── img.dat\n```\n\n---\n\n## `d/img.dat` - BINARY IGNORED\n\n";
    assert_eq!(text, expected);
    assert_eq!(lines, 0);
}

#[test]
fn file_outside_base_keeps_its_whole_path() {
    let files = s(&["/q/z.py"]);
    let reads = vec![ReadOutcome::Text("a\nb\r\nc\n".to_string())];
    let (text, lines) = extract_files(&files, "/p", "md", true, &reads);
    assert!(text.contains("## `/q/z.py`\n\n```python\n"));
    assert!(text.contains("## Project Structure\n\n```\n\n```\n\n---\n\n"));
    assert_eq!(lines, 3);
}

#[test]
fn root_base_is_its_own_name() {
    let (text, _) = extract_files(&Vec::new(), "/", "txt", false, &Vec::new());
    assert_eq!(text, "PROJECT: /\nPATH: /\nTOTAL FILES: 0\nTOTAL LINES: 0\n\n");
}

#[test]
fn section_and_header_pieces() {
    assert_eq!(
        section_text(true, "a.rs", "rust", &ReadOutcome::Text("x".to_string())),
        "## `a.rs`\n\n```rust\nx\n```\n\n"
    );
    assert_eq!(
        section_text(false, "a", "", &ReadOutcome::Failed("boom".to_string())),
        "\n[ERROR READING a]: boom\n"
    );
    assert_eq!(header_text(false, "n", "/b", 10, 1234), "PROJECT: n\nPATH: /b\nTOTAL FILES: 10\nTOTAL LINES: 1234\n\n");
}

#[test]
fn tree_block_goes_right_after_the_header() {
    let files = s(&["/p/src/a.rs", "/p/b.txt"]);
    let reads = vec![
        ReadOutcome::Text("x\ny\n".to_string()),
        ReadOutcome::Text("z".to_string()),
    ];
    let (without, n1) = extract_files(&files, "/p", "md", false, &reads);
    let (with, n2) = extract_files(&files, "/p", "md", true, &reads);
    assert_eq!(n1, 3);
    assert_eq!(n2, 3);
    let header = "# Project Context: p\n\n> Extracted from `/p`\n> Total files: 2\n> Total lines: 3\n\n";
    assert!(without.starts_with(header));
    let block = "## Project Structure\n\n```\n├── src\n│   └── a.rs\n└── b.txt\n```\n\n---\n\n";
    assert_eq!(with, format!("{}{}{}", header, block, &without[header.len()..]));
}

#[test]
fn line_total_of_reads() {
    let reads = vec![
        ReadOutcome::Text("a\nb\r\nc".to_string()),
        ReadOutcome::Failed("stream did not contain valid UTF-8".to_string()),
        ReadOutcome::Text("\n\n".to_string()),
    ];
    assert_eq!(try_line_total(&reads), Some(5));
    let files = s(&["/p/a", "/p/b", "/p/c"]);
    let (_, lines) = extract_files(&files, "/p", "txt", false, &reads);
    assert_eq!(lines, 5);
    assert_eq!(try_line_total(&Vec::new()), Some(0));
}
