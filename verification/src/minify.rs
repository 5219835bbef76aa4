//! Splitting text into lines and the compact ("minified") form of an
//! extraction that is meant to be pasted into a language model.

use vstd::prelude::*;

use crate::text::{
    count_leading_ws, leading_ws, push_chars, push_repeat, repeat_char, string_from_chars, trim,
    trim_chars, utf8_len, utf8_len_of, char_utf8_len, chars_of, char_views,
};

verus! {

/// Position of the first `'\n'` in `s`, or `s.len()` when there is none.
pub open spec fn newline_pos(s: Seq<char>) -> nat
    decreases s.len(),
{
    if s.len() == 0 {
        0
    } else if s[0] == '\n' {
        0
    } else {
        1 + newline_pos(s.drop_first())
    }
}

/// `s` without one final `'\r'`.
pub open spec fn strip_cr(s: Seq<char>) -> Seq<char> {
    if s.len() > 0 && s.last() == '\r' {
        s.drop_last()
    } else {
        s
    }
}

/// The lines of `s` as `str::lines` yields them: pieces ended by `"\n"` or
/// `"\r\n"` (which are dropped); a last piece without a line end is a line
/// as it stands; there is no empty line after a final line end.
pub open spec fn text_lines(s: Seq<char>) -> Seq<Seq<char>>
    decreases s.len(),
{
    if s.len() == 0 {
        Seq::empty()
    } else if newline_pos(s) >= s.len() {
        seq![s]
    } else {
        seq![strip_cr(s.take(newline_pos(s) as int))] + text_lines(
            s.skip(newline_pos(s) + 1int),
        )
    }
}

/// If no `'\n'` comes before position `k` and one stands at `k` (or `k` is
/// the end), the first line end of `s` is at `k`.
pub proof fn lemma_newline_pos_exact(s: Seq<char>, k: int)
    requires
        0 <= k <= s.len(),
        forall|j: int| 0 <= j < k ==> s[j] != '\n',
        k < s.len() ==> s[k] == '\n',
    ensures
        newline_pos(s) == k,
    decreases s.len(),
{
    if s.len() > 0 && k > 0 {
        assert forall|j: int| 0 <= j < k - 1 implies s.drop_first()[j] != '\n' by {
            assert(s.drop_first()[j] == s[j + 1]);
        }
        lemma_newline_pos_exact(s.drop_first(), k - 1);
    }
}

/// Splits `s` into its lines, as `str::lines` does.
pub fn split_lines(s: &Vec<char>) -> (r: Vec<Vec<char>>)
    ensures
        char_views(r@) == text_lines(s@),
{
    let mut r: Vec<Vec<char>> = Vec::new();
    let mut start: usize = 0;
    assert(s@.skip(0) =~= s@);
    while start < s.len()
        invariant
            start <= s.len(),
            char_views(r@) + text_lines(s@.skip(start as int)) == text_lines(s@),
        decreases s.len() - start,
    {
        let ghost rest = s@.skip(start as int);
        let mut end = start;
        while end < s.len() && s[end] != '\n'
            invariant
                start <= end <= s.len(),
                forall|j: int| start <= j < end ==> s@[j] != '\n',
            decreases s.len() - end,
        {
            end += 1;
        }
        proof {
            assert forall|j: int| 0 <= j < end - start implies rest[j] != '\n' by {
                assert(rest[j] == s@[start + j]);
            }
            lemma_newline_pos_exact(rest, end - start);
        }
        let mut line: Vec<char> = Vec::new();
        let mut i = start;
        let stop = if end < s.len() && end > start && s[end - 1] == '\r' {
            end - 1
        } else {
            end
        };
        while i < stop
            invariant
                start <= i <= stop <= end,
                end <= s.len(),
                line@ == s@.subrange(start as int, i as int),
            decreases stop - i,
        {
            line.push(s[i]);
            i += 1;
        }
        let ghost before = char_views(r@);
        let ghost lv = line@;
        r.push(line);
        assert(char_views(r@) =~= before.push(lv));
        if end < s.len() {
            assert(lv =~= strip_cr(rest.take(end - start)));
            assert(rest.skip(end - start + 1) =~= s@.skip(end + 1));
            start = end + 1;
        } else {
            assert(lv =~= rest);
            assert(s@.skip(end as int) =~= Seq::<char>::empty());
            start = end;
        }
    }
    assert(s@.skip(start as int) =~= Seq::<char>::empty());
    assert(char_views(r@) + Seq::<Seq<char>>::empty() =~= char_views(r@));
    r
}

/// Whether `c` is one of the characters that decorative separator lines
/// are drawn with.
pub open spec fn is_rule_char(c: char) -> bool {
    c == '=' || c == '-' || c == '─' || c == '━'
}

/// A separator line: only rule characters, and more than three bytes long.
pub open spec fn is_rule_line(t: Seq<char>) -> bool {
    (forall|i: int| 0 <= i < t.len() ==> is_rule_char(#[trigger] t[i])) && utf8_len(t) > 3
}

/// The width of leading white space `s`, in columns: a tab is one level
/// of indentation (four columns), any other character counts as the bytes
/// it takes (a space is one column).
pub open spec fn indent_width(s: Seq<char>) -> nat
    decreases s.len(),
{
    if s.len() == 0 {
        0
    } else {
        indent_width(s.drop_last()) + if s.last() == '\t' {
            4
        } else {
            char_utf8_len(s.last())
        }
    }
}

fn indent_width_of(s: &Vec<char>) -> (r: usize)
    requires
        4 * s@.len() <= usize::MAX,
    ensures
        r == indent_width(s@),
{
    let mut n: usize = 0;
    let mut i: usize = 0;
    while i < s.len()
        invariant
            i <= s.len(),
            4 * s@.len() <= usize::MAX,
            n == indent_width(s@.take(i as int)),
            n <= 4 * i,
        decreases s.len() - i,
    {
        assert(s@.take(i + 1).drop_last() =~= s@.take(i as int));
        let c = s[i];
        let w: usize = if c == '\t' {
            4
        } else if (c as u32) < 0x80 {
            1
        } else if (c as u32) < 0x800 {
            2
        } else if (c as u32) < 0x10000 {
            3
        } else {
            4
        };
        n = n + w;
        i += 1;
    }
    assert(s@.take(i as int) =~= s@);
    n
}

/// The minified form of `lines`: runs of blank lines become one empty
/// line (none when the previous line was blank, as `prev_blank` says),
/// separator lines are dropped, and every other line is trimmed and
/// indented by one space per level of its leading white space (a tab, or
/// four columns of other white space).
pub open spec fn minify_lines(lines: Seq<Seq<char>>, prev_blank: bool) -> Seq<char>
    decreases lines.len(),
{
    if lines.len() == 0 {
        Seq::empty()
    } else {
        let line = lines[0];
        let rest = lines.drop_first();
        let t = trim(line);
        if t.len() == 0 {
            if prev_blank {
                minify_lines(rest, true)
            } else {
                seq!['\n'] + minify_lines(rest, true)
            }
        } else if is_rule_line(t) {
            minify_lines(rest, false)
        } else {
            repeat_char(' ', indent_width(line.take(leading_ws(line) as int)) / 4) + t + seq!['\n']
                + minify_lines(rest, false)
        }
    }
}

/// The minified form of the text `content`.
pub open spec fn spec_minify(content: Seq<char>) -> Seq<char> {
    minify_lines(text_lines(content), false)
}

fn is_rule(t: &Vec<char>) -> (r: bool)
    requires
        4 * t@.len() <= usize::MAX,
    ensures
        r == is_rule_line(t@),
{
    let mut i: usize = 0;
    while i < t.len()
        invariant
            i <= t.len(),
            forall|j: int| 0 <= j < i ==> is_rule_char(#[trigger] t@[j]),
        decreases t.len() - i,
    {
        let c = t[i];
        if !(c == '=' || c == '-' || c == '─' || c == '━') {
            return false;
        }
        i += 1;
    }
    utf8_len_of(t) > 3
}

/// Compacts an extraction for pasting into a language model: collapses
/// runs of blank lines, drops separator lines (`====`, `----`, ...), trims
/// every line and keeps one space of indentation per tab or per four
/// columns of other leading white space.
pub fn minify(content: &str) -> (r: String)
    requires
        4 * content@.len() <= usize::MAX,
    ensures
        r@ == spec_minify(content@),
{
    let chars = chars_of(content);
    let lines = split_lines(&chars);
    let mut out: Vec<char> = Vec::new();
    let mut prev_blank = false;
    let mut i: usize = 0;
    proof {
        assert(char_views(lines@).skip(0) =~= char_views(lines@));
        assert(out@ + minify_lines(char_views(lines@), false) =~= spec_minify(chars@));
        lemma_lines_shorter(chars@);
        assert forall|k: int| 0 <= k < lines@.len() implies #[trigger] lines@[k]@.len()
            <= chars@.len() by {
            assert(char_views(lines@)[k] == lines@[k]@);
        }
    }
    while i < lines.len()
        invariant
            i <= lines.len(),
            char_views(lines@) == text_lines(chars@),
            forall|k: int| 0 <= k < lines@.len() ==> #[trigger] lines@[k]@.len() <= chars@.len(),
            4 * chars@.len() <= usize::MAX,
            out@ + minify_lines(char_views(lines@).skip(i as int), prev_blank) == spec_minify(
                chars@,
            ),
        decreases lines.len() - i,
    {
        let line = &lines[i];
        let ghost rest = char_views(lines@).skip(i as int);
        assert(rest[0] == line@);
        assert(rest.drop_first() =~= char_views(lines@).skip(i + 1));
        let t = trim_chars(line);
        proof {
            crate::text::lemma_leading_ws_bound(line@);
            crate::text::lemma_trailing_ws_bound(crate::text::trim_start(line@));
        }
        if t.len() == 0 {
            if !prev_blank {
                let ghost o = out@;
                out.push('\n');
                assert(out@ + minify_lines(rest.drop_first(), true) =~= o + (seq!['\n']
                    + minify_lines(rest.drop_first(), true)));
                prev_blank = true;
            }
        } else {
            prev_blank = false;
            if !is_rule(&t) {
                let lead = count_leading_ws(line);
                let mut head: Vec<char> = Vec::new();
                let mut k: usize = 0;
                while k < lead
                    invariant
                        k <= lead == leading_ws(line@) <= line@.len(),
                        head@ == line@.take(k as int),
                    decreases lead - k,
                {
                    head.push(line[k]);
                    k += 1;
                    assert(head@ =~= line@.take(k as int));
                }
                let width = indent_width_of(&head);
                let ghost o = out@;
                push_repeat(&mut out, ' ', width / 4);
                push_chars(&mut out, &t);
                out.push('\n');
                assert(out@ + minify_lines(rest.drop_first(), false) =~= o + (repeat_char(
                    ' ',
                    indent_width(line@.take(leading_ws(line@) as int)) / 4,
                ) + t@ + seq!['\n'] + minify_lines(rest.drop_first(), false)));
            }
        }
        i += 1;
    }
    assert(char_views(lines@).skip(i as int) =~= Seq::<Seq<char>>::empty());
    assert(out@ + Seq::<char>::empty() =~= out@);
    string_from_chars(&out)
}

/// No line is longer than the text it comes from.
pub proof fn lemma_lines_shorter(s: Seq<char>)
    ensures
        forall|k: int| 0 <= k < text_lines(s).len() ==> #[trigger] text_lines(s)[k].len() <= s.len(),
    decreases s.len(),
{
    if s.len() > 0 && newline_pos(s) < s.len() {
        let p = newline_pos(s);
        lemma_lines_shorter(s.skip(p + 1int));
        assert forall|k: int| 0 <= k < text_lines(s).len() implies #[trigger] text_lines(s)[k].len()
            <= s.len() by {
            if k > 0 {
                assert(text_lines(s)[k] == text_lines(s.skip(p + 1int))[k - 1]);
            }
        }
    }
}

/// A line that is text `t` (no line break, not starting or ending with white
/// space, not a separator) indented by `w` (spaces and tabs) minifies to
/// `t` indented by one space per level of `w`.
proof fn lemma_minify_indented_line(w: Seq<char>, t: Seq<char>)
    requires
        forall|i: int| 0 <= i < w.len() ==> #[trigger] w[i] == ' ' || w[i] == '\t',
        t.len() > 0,
        forall|i: int| 0 <= i < t.len() ==> #[trigger] t[i] != '\n',
        !crate::text::is_ws(t[0]),
        !crate::text::is_ws(t.last()),
        !is_rule_line(t),
    ensures
        spec_minify(w + t) == repeat_char(' ', indent_width(w) / 4) + t + seq!['\n'],
{
    let l = w + t;
    assert forall|j: int| 0 <= j < l.len() implies l[j] != '\n' by {
        if j >= w.len() {
            assert(l[j] == t[j - w.len()]);
        } else {
            assert(l[j] == w[j]);
        }
    }
    lemma_newline_pos_exact(l, l.len() as int);
    assert(text_lines(l) == seq![l]);
    assert forall|j: int| 0 <= j < w.len() implies crate::text::is_ws(l[j]) by {
        assert(l[j] == w[j]);
    }
    assert(l[w.len() as int] == t[0]);
    crate::text::lemma_leading_ws_exact(l, w.len() as int);
    assert(crate::text::trim_start(l) =~= t);
    crate::text::lemma_trailing_ws_exact(t, 0);
    assert(crate::text::trim_end(t) =~= t);
    assert(trim(l) == t);
    assert(l.take(w.len() as int) =~= w);
    let lines = seq![l];
    assert(lines[0] == l);
    assert(lines.drop_first() =~= Seq::<Seq<char>>::empty());
    assert(minify_lines(Seq::<Seq<char>>::empty(), false) == Seq::<char>::empty());
    assert(spec_minify(l) =~= repeat_char(' ', indent_width(w) / 4) + t + seq!['\n']);
}

/// `n` copies of `c` take `n` times the width of one `c`.
proof fn lemma_indent_width_repeat(c: char, n: nat)
    requires
        c == ' ' || c == '\t',
    ensures
        indent_width(repeat_char(c, n)) == n * (if c == '\t' { 4nat } else { 1nat }),
    decreases n,
{
    if n > 0 {
        assert(repeat_char(c, n).drop_last() =~= repeat_char(c, (n - 1) as nat));
        lemma_indent_width_repeat(c, (n - 1) as nat);
        assert((' ' as u32) < 0x80);
    }
}

/// Indentation by spaces, without bound: a line indented by `m` spaces is
/// indented by `m / 4` spaces once minified (4k spaces give k, for every
/// k), the rest of the line kept as it is.
pub proof fn law_minify_spaces_indent(m: nat, t: Seq<char>)
    requires
        t.len() > 0,
        forall|i: int| 0 <= i < t.len() ==> #[trigger] t[i] != '\n',
        !crate::text::is_ws(t[0]),
        !crate::text::is_ws(t.last()),
        !is_rule_line(t),
    ensures
        spec_minify(repeat_char(' ', m) + t) == repeat_char(' ', m / 4) + t + seq!['\n'],
{
    lemma_indent_width_repeat(' ', m);
    lemma_minify_indented_line(repeat_char(' ', m), t);
}

/// Indentation by tabs, without bound: a line indented by `k` tabs is
/// indented by `k` spaces once minified.
pub proof fn law_minify_tabs_indent(k: nat, t: Seq<char>)
    requires
        t.len() > 0,
        forall|i: int| 0 <= i < t.len() ==> #[trigger] t[i] != '\n',
        !crate::text::is_ws(t[0]),
        !crate::text::is_ws(t.last()),
        !is_rule_line(t),
    ensures
        spec_minify(repeat_char('\t', k) + t) == repeat_char(' ', k) + t + seq!['\n'],
{
    lemma_indent_width_repeat('\t', k);
    assert(k * 4 / 4 == k) by (nonlinear_arith);
    lemma_minify_indented_line(repeat_char('\t', k), t);
}

} // verus!
