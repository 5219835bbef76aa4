//! The text of an extraction: a header, the optional project structure, and
//! one section per selected file, in Markdown or in plain text. Reading the
//! files is left to the caller, which hands over what each read gave.

use vstd::prelude::*;

use crate::config::{extension_to_language, language_for};
use crate::minify::{split_lines, text_lines};
use crate::paths::{
    dotted_extension, dotted_extension_of, file_name, path_file_name, path_strip_prefix,
    relative_or_whole, relative_or_whole_of,
};
use crate::text::{
    chars_of, contains_seq, decimal, push_chars, push_decimal, push_repeat, push_str,
    repeat_char, seq_contains, str_eq, string_from_chars, views,
};
use crate::tree_text::{generate_tree_text, spec_tree_text};

verus! {

/// What reading one selected file gave: its text, or the message of the
/// error that stopped the read.
pub enum ReadOutcome {
    Text(String),
    Failed(String),
}

/// The value of a [`ReadOutcome`].
pub enum ReadView {
    Text(Seq<char>),
    Failed(Seq<char>),
}

impl ReadOutcome {
    pub open spec fn outcome(&self) -> ReadView {
        match self {
            ReadOutcome::Text(s) => ReadView::Text(s@),
            ReadOutcome::Failed(m) => ReadView::Failed(m@),
        }
    }
}

pub open spec fn outcome_views(s: Seq<ReadOutcome>) -> Seq<ReadView> {
    s.map_values(|o: ReadOutcome| o.outcome())
}

/// A separator of sixty `=`.
pub open spec fn rule() -> Seq<char> {
    repeat_char('=', 60)
}

/// The project's name: the last component of `base`, or `base` itself.
pub open spec fn project_name(base: Seq<char>) -> Seq<char> {
    match path_file_name(base) {
        Some(n) => n,
        None => base,
    }
}

/// Whether a read error means that the file is not text (it is not valid
/// UTF-8).
pub open spec fn is_binary_error(message: Seq<char>) -> bool {
    seq_contains(message, "invalid utf-8"@) || seq_contains(
        message,
        "stream did not contain valid UTF-8"@,
    )
}

/// The header of the project at `base`.
pub open spec fn header(is_md: bool, base: Seq<char>, files: nat, lines: nat) -> Seq<char> {
    header_named(is_md, project_name(base), base, files, lines)
}

/// The header: project name, path, number of files and of lines.
pub open spec fn header_named(is_md: bool, name: Seq<char>, base: Seq<char>, files: nat, lines: nat) -> Seq<char> {
    if is_md {
        "# Project Context: "@ + name + "\n\n"@ + "> Extracted from `"@ + base
            + "`\n"@ + "> Total files: "@ + decimal(files) + "\n"@ + "> Total lines: "@
            + decimal(lines) + "\n\n"@
    } else {
        "PROJECT: "@ + name + "\n"@ + "PATH: "@ + base + "\n"@ + "TOTAL FILES: "@
            + decimal(files) + "\n"@ + "TOTAL LINES: "@ + decimal(lines) + "\n\n"@
    }
}

/// The project-structure block around the drawing `tree`.
pub open spec fn structure(is_md: bool, tree: Seq<char>) -> Seq<char> {
    if is_md {
        "## Project Structure\n\n"@ + "```\n"@ + tree + "\n```\n\n"@ + "---\n\n"@
    } else {
        rule() + "\n"@ + "PROJECT STRUCTURE\n"@ + rule() + "\n\n"@ + tree + "\n\n"@ + rule()
            + "\n\n"@
    }
}

/// The section of one file, given its path relative to the project (`rel`),
/// the code-block language of its extension (`lang`) and what reading it
/// gave.
pub open spec fn section(is_md: bool, rel: Seq<char>, lang: Seq<char>, read: ReadView) -> Seq<char> {
    match read {
        ReadView::Text(content) => {
            if is_md {
                let close: Seq<char> = if content.len() > 0 && content.last() == '\n' {
                    Seq::empty()
                } else {
                    "\n"@
                };
                "## `"@ + rel + "`\n\n"@ + "```"@ + lang + "\n"@ + content + close + "```\n\n"@
            } else {
                "\n"@ + rule() + "\n"@ + "FILE: "@ + rel + "\n"@ + rule() + "\n\n"@ + content
                    + "\n"@
            }
        },
        ReadView::Failed(message) => {
            if is_binary_error(message) {
                if is_md {
                    "## `"@ + rel + "` - BINARY IGNORED\n\n"@
                } else {
                    "\n"@ + rule() + "\n"@ + "FILE: "@ + rel + " [BINARY IGNORED]\n"@ + rule()
                        + "\n\n"@
                }
            } else {
                "\n[ERROR READING "@ + rel + "]: "@ + message + "\n"@
            }
        },
    }
}

/// The section of the file at `path` in the project at `base`.
pub open spec fn file_section(is_md: bool, base: Seq<char>, path: Seq<char>, read: ReadView) -> Seq<
    char,
> {
    section(is_md, relative_or_whole(path, base), language_for(dotted_extension(path)), read)
}

/// The sections of the files, in order.
pub open spec fn sections(is_md: bool, base: Seq<char>, files: Seq<Seq<char>>, reads: Seq<ReadView>) -> Seq<
    char,
>
    decreases files.len(),
{
    if files.len() == 0 {
        Seq::empty()
    } else {
        sections(is_md, base, files.drop_last(), reads) + file_section(
            is_md,
            base,
            files.last(),
            reads[files.len() - 1],
        )
    }
}

/// Number of lines of the files that could be read as text.
pub open spec fn line_total(reads: Seq<ReadView>) -> nat
    decreases reads.len(),
{
    if reads.len() == 0 {
        0
    } else {
        line_total(reads.drop_last()) + match reads.last() {
            ReadView::Text(content) => text_lines(content).len(),
            ReadView::Failed(_) => 0,
        }
    }
}

/// The extraction of `files` (read as `reads` says) from the project at
/// `base`, in Markdown when `format` is `"md"` and in plain text otherwise,
/// with the project structure when `include_tree` is set.
pub open spec fn spec_extraction(
    files: Seq<Seq<char>>,
    base: Seq<char>,
    format: Seq<char>,
    include_tree: bool,
    reads: Seq<ReadView>,
) -> Seq<char> {
    let is_md = format == "md"@;
    header(is_md, base, files.len(), line_total(reads)) + (if include_tree {
        structure(is_md, spec_tree_text(files, base))
    } else {
        Seq::empty()
    }) + sections(is_md, base, files, reads)
}

fn push_rule(out: &mut Vec<char>)
    ensures
        final(out)@ == old(out)@ + rule(),
{
    push_repeat(out, '=', 60);
}

fn project_name_of(base: &str) -> (r: Vec<char>)
    ensures
        r@ == project_name(base@),
{
    match file_name(base) {
        Some(n) => chars_of(n.as_str()),
        None => chars_of(base),
    }
}

fn is_binary_error_exec(message: &str) -> (r: bool)
    ensures
        r == is_binary_error(message@),
{
    let m = chars_of(message);
    let a = chars_of("invalid utf-8");
    let b = chars_of("stream did not contain valid UTF-8");
    contains_seq(&m, &a) || contains_seq(&m, &b)
}

fn push_header_named(
    out: &mut Vec<char>,
    is_md: bool,
    name: &Vec<char>,
    base: &str,
    files: usize,
    lines: usize,
)
    ensures
        final(out)@ == old(out)@ + header_named(is_md, name@, base@, files as nat, lines as nat),
{
    let ghost start = out@;
    if is_md {
        push_str(out, "# Project Context: ");
        push_chars(out, name);
        push_str(out, "\n\n");
        push_str(out, "> Extracted from `");
        push_str(out, base);
        push_str(out, "`\n");
        push_str(out, "> Total files: ");
        push_decimal(out, files);
        push_str(out, "\n");
        push_str(out, "> Total lines: ");
        push_decimal(out, lines);
        push_str(out, "\n\n");
    } else {
        push_str(out, "PROJECT: ");
        push_chars(out, name);
        push_str(out, "\n");
        push_str(out, "PATH: ");
        push_str(out, base);
        push_str(out, "\n");
        push_str(out, "TOTAL FILES: ");
        push_decimal(out, files);
        push_str(out, "\n");
        push_str(out, "TOTAL LINES: ");
        push_decimal(out, lines);
        push_str(out, "\n\n");
    }
    assert(out@ =~= start + header_named(is_md, name@, base@, files as nat, lines as nat));
}

/// The header of an extraction (Markdown when `is_md`): the project's
/// name and path, and the numbers of files and of lines.
pub fn header_text(is_md: bool, name: &str, base: &str, files: usize, lines: usize) -> (r: String)
    ensures
        r@ == header_named(is_md, name@, base@, files as nat, lines as nat),
{
    let mut out: Vec<char> = Vec::new();
    push_header_named(&mut out, is_md, &chars_of(name), base, files, lines);
    assert(out@ =~= header_named(is_md, name@, base@, files as nat, lines as nat));
    string_from_chars(&out)
}

fn push_header(out: &mut Vec<char>, is_md: bool, base: &str, files: usize, lines: usize)
    ensures
        final(out)@ == old(out)@ + header(is_md, base@, files as nat, lines as nat),
{
    let name = project_name_of(base);
    push_header_named(out, is_md, &name, base, files, lines);
}

fn push_structure(out: &mut Vec<char>, is_md: bool, tree: &str)
    ensures
        final(out)@ == old(out)@ + structure(is_md, tree@),
{
    let ghost start = out@;
    if is_md {
        push_str(out, "## Project Structure\n\n");
        push_str(out, "```\n");
        push_str(out, tree);
        push_str(out, "\n```\n\n");
        push_str(out, "---\n\n");
    } else {
        push_rule(out);
        push_str(out, "\n");
        push_str(out, "PROJECT STRUCTURE\n");
        push_rule(out);
        push_str(out, "\n\n");
        push_str(out, tree);
        push_str(out, "\n\n");
        push_rule(out);
        push_str(out, "\n\n");
    }
    assert(out@ =~= start + structure(is_md, tree@));
}

fn push_section(out: &mut Vec<char>, is_md: bool, rel: &Vec<char>, lang: &str, read: &ReadOutcome)
    ensures
        final(out)@ == old(out)@ + section(is_md, rel@, lang@, read.outcome()),
{
    let ghost start = out@;
    match read {
        ReadOutcome::Text(content) => {
            if is_md {
                let cs = chars_of(content.as_str());
                push_str(out, "## `");
                push_chars(out, rel);
                push_str(out, "`\n\n");
                push_str(out, "```");
                push_str(out, lang);
                push_str(out, "\n");
                push_chars(out, &cs);
                if !(cs.len() > 0 && cs[cs.len() - 1] == '\n') {
                    push_str(out, "\n");
                }
                push_str(out, "```\n\n");
            } else {
                push_str(out, "\n");
                push_rule(out);
                push_str(out, "\n");
                push_str(out, "FILE: ");
                push_chars(out, rel);
                push_str(out, "\n");
                push_rule(out);
                push_str(out, "\n\n");
                push_str(out, content.as_str());
                push_str(out, "\n");
            }
        },
        ReadOutcome::Failed(message) => {
            if is_binary_error_exec(message.as_str()) {
                if is_md {
                    push_str(out, "## `");
                    push_chars(out, rel);
                    push_str(out, "` - BINARY IGNORED\n\n");
                } else {
                    push_str(out, "\n");
                    push_rule(out);
                    push_str(out, "\n");
                    push_str(out, "FILE: ");
                    push_chars(out, rel);
                    push_str(out, " [BINARY IGNORED]\n");
                    push_rule(out);
                    push_str(out, "\n\n");
                }
            } else {
                push_str(out, "\n[ERROR READING ");
                push_chars(out, rel);
                push_str(out, "]: ");
                push_str(out, message.as_str());
                push_str(out, "\n");
            }
        },
    }
    assert(out@ =~= start + section(is_md, rel@, lang@, read.outcome()));
}

/// The section of one file in an extraction (Markdown when `is_md`), given
/// its path relative to the project, the code-block language of its
/// extension and what reading it gave.
pub fn section_text(is_md: bool, rel: &str, lang: &str, read: &ReadOutcome) -> (r: String)
    ensures
        r@ == section(is_md, rel@, lang@, read.outcome()),
{
    let mut out: Vec<char> = Vec::new();
    push_section(&mut out, is_md, &chars_of(rel), lang, read);
    assert(out@ =~= section(is_md, rel@, lang@, read.outcome()));
    string_from_chars(&out)
}

fn push_file_section(out: &mut Vec<char>, is_md: bool, base: &str, path: &str, read: &ReadOutcome)
    ensures
        final(out)@ == old(out)@ + file_section(is_md, base@, path@, read.outcome()),
{
    let rel = relative_or_whole_of(path, base);
    let ext = string_from_chars(&dotted_extension_of(path));
    let lang = extension_to_language(ext.as_str());
    push_section(out, is_md, &rel, lang, read);
}

/// Assembles the extraction of `files` from the project at `base`, given
/// what reading each file gave (`reads[i]` for `files[i]`): a header with
/// the number of files and of lines, the project structure when
/// `include_tree` is set, and a section per file; in Markdown when `format`
/// is `"md"`, in plain text otherwise. Returns the text and the number of
/// lines of the files read as text.
pub fn extract_files(
    files: &Vec<String>,
    base: &str,
    format: &str,
    include_tree: bool,
    reads: &Vec<ReadOutcome>,
) -> (r: (String, usize))
    requires
        reads.len() == files.len(),
        line_total(outcome_views(reads@)) <= usize::MAX,
    ensures
        r.0@ == spec_extraction(views(files@), base@, format@, include_tree, outcome_views(reads@)),
        r.1 == line_total(outcome_views(reads@)),
{
    let is_md = str_eq(format, "md");
    let ghost fv = views(files@);
    let ghost rv = outcome_views(reads@);
    let mut body: Vec<char> = Vec::new();
    let mut total_lines: usize = 0;
    let mut i: usize = 0;
    while i < files.len()
        invariant
            reads.len() == files.len(),
            fv == views(files@),
            rv == outcome_views(reads@),
            line_total(rv) <= usize::MAX,
            i <= files.len(),
            body@ == sections(is_md, base@, fv.take(i as int), rv),
            total_lines == line_total(rv.take(i as int)),
        decreases files.len() - i,
    {
        let ghost t = fv.take(i + 1);
        assert(t.drop_last() =~= fv.take(i as int));
        assert(t.last() == files@[i as int]@);
        let ghost u = rv.take(i + 1);
        assert(u.drop_last() =~= rv.take(i as int));
        assert(rv[i as int] == reads@[i as int].outcome());
        proof {
            lemma_line_total_prefix(rv, i + 1);
        }
        push_file_section(&mut body, is_md, base, files[i].as_str(), &reads[i]);
        match &reads[i] {
            ReadOutcome::Text(content) => {
                let cs = chars_of(content.as_str());
                let n = split_lines(&cs).len();
                total_lines = total_lines + n;
            },
            ReadOutcome::Failed(_) => {},
        }
        i += 1;
    }
    assert(fv.take(i as int) =~= fv);
    assert(rv.take(i as int) =~= rv);
    let mut out: Vec<char> = Vec::new();
    push_header(&mut out, is_md, base, files.len(), total_lines);
    if include_tree {
        let tree = generate_tree_text(files, base);
        push_structure(&mut out, is_md, tree.as_str());
    }
    let ghost before = out@;
    push_chars(&mut out, &body);
    assert(out@ =~= spec_extraction(fv, base@, format@, include_tree, rv)) by {
        if !include_tree {
            assert(before =~= before + Seq::<char>::empty());
        }
    }
    (string_from_chars(&out), total_lines)
}

/// Number of lines of the reads that gave text (as [`extract_files`]
/// counts them), or `None` when it does not fit in a `usize` (then
/// [`extract_files`] cannot take these reads).
pub fn try_line_total(reads: &Vec<ReadOutcome>) -> (r: Option<usize>)
    ensures
        match r {
            Some(n) => n == line_total(outcome_views(reads@)),
            None => line_total(outcome_views(reads@)) > usize::MAX,
        },
{
    let ghost rv = outcome_views(reads@);
    let mut total: usize = 0;
    let mut i: usize = 0;
    while i < reads.len()
        invariant
            rv == outcome_views(reads@),
            i <= reads.len(),
            total == line_total(rv.take(i as int)),
        decreases reads.len() - i,
    {
        let ghost u = rv.take(i + 1);
        assert(u.drop_last() =~= rv.take(i as int));
        assert(rv[i as int] == reads@[i as int].outcome());
        proof {
            lemma_line_total_prefix(rv, i + 1);
        }
        match &reads[i] {
            ReadOutcome::Text(content) => {
                let n = split_lines(&chars_of(content.as_str())).len();
                match total.checked_add(n) {
                    Some(t) => {
                        total = t;
                    },
                    None => {
                        return None;
                    },
                }
            },
            ReadOutcome::Failed(_) => {},
        }
        i += 1;
    }
    assert(rv.take(i as int) =~= rv);
    Some(total)
}

/// The lines of a prefix of the reads are no more than those of all.
proof fn lemma_line_total_prefix(reads: Seq<ReadView>, k: int)
    requires
        0 <= k <= reads.len(),
    ensures
        line_total(reads.take(k)) <= line_total(reads),
    decreases reads.len(),
{
    if k == reads.len() {
        assert(reads.take(k) =~= reads);
    } else {
        assert(reads.drop_last().take(k) =~= reads.take(k));
        lemma_line_total_prefix(reads.drop_last(), k);
    }
}

/// Asking for the project structure adds only its block, right after the
/// header: the rest of the extraction, and the line count, stay the same.
pub proof fn law_tree_block_after_header(
    files: Seq<Seq<char>>,
    base: Seq<char>,
    format: Seq<char>,
    reads: Seq<ReadView>,
)
    ensures
        ({
            let is_md = format == "md"@;
            let h = header(is_md, base, files.len(), line_total(reads));
            let without = spec_extraction(files, base, format, false, reads);
            let with = spec_extraction(files, base, format, true, reads);
            &&& without.take(h.len() as int) == h
            &&& with == without.take(h.len() as int) + structure(is_md, spec_tree_text(files, base))
                + without.skip(h.len() as int)
        }),
{
    let is_md = format == "md"@;
    let h = header(is_md, base, files.len(), line_total(reads));
    let rest = sections(is_md, base, files, reads);
    let without = spec_extraction(files, base, format, false, reads);
    assert(without =~= h + rest);
    assert(without.take(h.len() as int) =~= h);
    assert(without.skip(h.len() as int) =~= rest);
}

/// What stands before a file's name in a plain-text section: a line break,
/// a rule, a line break and `FILE: ` (68 characters).
proof fn lemma_plain_name_prefix()
    ensures
        ("\n"@ + rule() + "\n"@ + "FILE: "@).len() == 68,
{
    reveal_strlit("\n");
    reveal_strlit("FILE: ");
}

/// In plain text, a file's section names it by `rel`, its path relative
/// to the project, on the `FILE:` line right after the first rule,
/// whatever the file held: the same name for a file read as text and for
/// one skipped as binary.
pub proof fn law_plain_section_names_relative_path(
    rel: Seq<char>,
    lang: Seq<char>,
    read: ReadView,
)
    ensures
        read is Text ==> section(false, rel, lang, read).subrange(0, rel.len() + 69int) == "\n"@
            + rule() + "\n"@ + "FILE: "@ + rel + seq!['\n'],
        (read matches ReadView::Failed(m) && is_binary_error(m)) ==> section(false, rel, lang, read).subrange(
            0,
            rel.len() + 69int,
        ) == "\n"@ + rule() + "\n"@ + "FILE: "@ + rel + seq![' '],
{
    lemma_plain_name_prefix();
    reveal_strlit("\n");
    reveal_strlit(" [BINARY IGNORED]\n");
    let p = "\n"@ + rule() + "\n"@ + "FILE: "@;
    let sec = section(false, rel, lang, read);
    match read {
        ReadView::Text(c) => {
            assert(sec == p + rel + "\n"@ + rule() + "\n\n"@ + c + "\n"@);
            assert(sec.subrange(0, rel.len() + 69int) =~= p + rel + seq!['\n']);
        },
        ReadView::Failed(m) => {
            if is_binary_error(m) {
                assert(sec == p + rel + " [BINARY IGNORED]\n"@ + rule() + "\n\n"@);
                assert(sec.subrange(0, rel.len() + 69int) =~= p + rel + seq![' ']);
            }
        },
    }
}

/// Files with different relative paths (without line breaks) get
/// different plain-text sections, whatever they hold: no two files of the
/// project are named alike.
pub proof fn law_plain_sections_distinct(
    rel1: Seq<char>,
    rel2: Seq<char>,
    lang1: Seq<char>,
    lang2: Seq<char>,
    content1: Seq<char>,
    content2: Seq<char>,
)
    requires
        forall|i: int| 0 <= i < rel1.len() ==> #[trigger] rel1[i] != '\n',
        forall|i: int| 0 <= i < rel2.len() ==> #[trigger] rel2[i] != '\n',
        rel1 != rel2,
    ensures
        section(false, rel1, lang1, ReadView::Text(content1)) != section(
            false,
            rel2,
            lang2,
            ReadView::Text(content2),
        ),
{
    let s1 = section(false, rel1, lang1, ReadView::Text(content1));
    let s2 = section(false, rel2, lang2, ReadView::Text(content2));
    law_plain_section_names_relative_path(rel1, lang1, ReadView::Text(content1));
    law_plain_section_names_relative_path(rel2, lang2, ReadView::Text(content2));
    lemma_plain_name_prefix();
    let p = "\n"@ + rule() + "\n"@ + "FILE: "@;
    if s1 == s2 {
        let a = s1.subrange(0, rel1.len() + 69int);
        let b = s2.subrange(0, rel2.len() + 69int);
        assert(a == p + rel1 + seq!['\n']);
        assert(b == p + rel2 + seq!['\n']);
        if rel1.len() < rel2.len() {
            assert(a[rel1.len() + 68int] == '\n');
            assert(b[rel1.len() + 68int] == rel2[rel1.len() as int]);
            assert(s1[rel1.len() + 68int] == a[rel1.len() + 68int]);
            assert(s2[rel1.len() + 68int] == b[rel1.len() + 68int]);
        } else if rel2.len() < rel1.len() {
            assert(b[rel2.len() + 68int] == '\n');
            assert(a[rel2.len() + 68int] == rel1[rel2.len() as int]);
            assert(s1[rel2.len() + 68int] == a[rel2.len() + 68int]);
            assert(s2[rel2.len() + 68int] == b[rel2.len() + 68int]);
        } else {
            assert(a == b);
            assert(rel1 =~= a.subrange(68, rel1.len() + 68int));
            assert(rel2 =~= b.subrange(68, rel2.len() + 68int));
        }
    }
}

/// A file below the project folder is named, in both formats, by its path
/// relative to the folder (what `Path::strip_prefix` leaves of it): after
/// `FILE: ` in plain text, between backquotes in the Markdown heading.
pub proof fn law_file_section_names_path_below_base(
    base: Seq<char>,
    path: Seq<char>,
    rel: Seq<char>,
    content: Seq<char>,
)
    requires
        path_strip_prefix(path, base) == Some(rel),
    ensures
        file_section(false, base, path, ReadView::Text(content)).subrange(0, rel.len() + 69int)
            == "\n"@ + rule() + "\n"@ + "FILE: "@ + rel + seq!['\n'],
        file_section(true, base, path, ReadView::Text(content)).subrange(0, rel.len() + 5int)
            == "## `"@ + rel + seq!['`'],
{
    law_plain_section_names_relative_path(
        rel,
        language_for(dotted_extension(path)),
        ReadView::Text(content),
    );
    reveal_strlit("## `");
    reveal_strlit("`\n\n");
    let sec = file_section(true, base, path, ReadView::Text(content));
    assert(relative_or_whole(path, base) == rel);
    assert(sec.subrange(0, rel.len() + 5int) =~= "## `"@ + rel + seq!['`']);
}

} // verus!
