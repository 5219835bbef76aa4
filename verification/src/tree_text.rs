//! The text drawing of the project structure (`├── src`, `│   └── lib.rs`)
//! that heads an extraction.

use vstd::prelude::*;
use vstd::relations::sorted_by;

use crate::order::{key_order, key_views, sort_keys, KeyView, SortKey};
use crate::paths::{path_strip_prefix, strip_prefix};
use crate::text::{
    char_views, chars_of, copy_chars, dedup, join_lines, join_with_newlines, lemma_dedup,
    lowercase, push_chars, push_str, split_chars, split_on, string_from_chars, to_lower, views,
};

verus! {

/// A path cut into its components.
pub type Parts = Seq<Seq<char>>;

/// The most components that any of `ps` has.
pub open spec fn max_len(ps: Seq<Parts>) -> nat
    decreases ps.len(),
{
    if ps.len() == 0 {
        0
    } else if ps.last().len() > max_len(ps.drop_last()) {
        ps.last().len()
    } else {
        max_len(ps.drop_last())
    }
}

/// The first components of the non-empty paths of `ps`, in order.
pub open spec fn first_names(ps: Seq<Parts>) -> Seq<Seq<char>>
    decreases ps.len(),
{
    if ps.len() == 0 {
        Seq::empty()
    } else if ps.last().len() > 0 {
        first_names(ps.drop_last()).push(ps.last()[0])
    } else {
        first_names(ps.drop_last())
    }
}

/// The paths of `ps` that continue below the entry `name`, without that
/// first component.
pub open spec fn below(ps: Seq<Parts>, name: Seq<char>) -> Seq<Parts>
    decreases ps.len(),
{
    if ps.len() == 0 {
        Seq::empty()
    } else if ps.last().len() > 1 && ps.last()[0] == name {
        below(ps.drop_last(), name).push(ps.last().drop_first())
    } else {
        below(ps.drop_last(), name)
    }
}

/// The entries of one level of the drawing, as sort keys: whether the
/// entry has entries below it, its lower-cased name, its name.
pub open spec fn entry_keys(ps: Seq<Parts>) -> Seq<KeyView> {
    let names = dedup(first_names(ps));
    Seq::new(
        names.len(),
        |i: int| (below(ps, names[i]).len() > 0, lowercase(names[i]), names[i], 0usize),
    )
}

/// The entries of a level in drawing order: those with entries below them
/// first, then by lower-cased name, then by name.
pub open spec fn sorted_entries(ps: Seq<Parts>) -> Seq<KeyView> {
    entry_keys(ps).sort_by(key_order())
}

/// The branch drawn before an entry's name.
pub open spec fn connector(last: bool) -> Seq<char> {
    if last {
        "└── "@
    } else {
        "├── "@
    }
}

/// What the lines below an entry are indented with.
pub open spec fn indent(last: bool) -> Seq<char> {
    if last {
        "    "@
    } else {
        "│   "@
    }
}

/// Entries below an entry have fewer components than the paths they come
/// from.
pub proof fn lemma_below_shorter(ps: Seq<Parts>, name: Seq<char>)
    ensures
        below(ps, name).len() > 0 ==> max_len(below(ps, name)) < max_len(ps),
    decreases ps.len(),
{
    if ps.len() > 0 {
        let rest = ps.drop_last();
        lemma_below_shorter(rest, name);
        assert(max_len(rest) <= max_len(ps));
        assert(ps.last().len() <= max_len(ps));
        if ps.last().len() > 1 && ps.last()[0] == name {
            let b = below(ps, name);
            assert(b == below(rest, name).push(ps.last().drop_first()));
            assert(b.drop_last() =~= below(rest, name));
            assert(b.last() == ps.last().drop_first());
            if below(rest, name).len() == 0 {
                assert(max_len(below(rest, name)) == 0);
            }
            assert(max_len(b.drop_last()) < max_len(ps));
            assert(b.last().len() < max_len(ps));
            assert(max_len(b) < max_len(ps));
        } else {
            assert(below(ps, name) == below(rest, name));
        }
    }
}

/// The lines that draw the level `ps` (paths relative to it), each starting
/// with `prefix`.
pub open spec fn render_level(ps: Seq<Parts>, prefix: Seq<char>) -> Seq<Seq<char>>
    decreases max_len(ps), 1nat, 0nat,
{
    render_entries(ps, sorted_entries(ps), 0, prefix)
}

/// The lines that draw entries `i..` of `es`, the entries of level `ps`.
pub open spec fn render_entries(ps: Seq<Parts>, es: Seq<KeyView>, i: int, prefix: Seq<char>) -> Seq<
    Seq<char>,
>
    decreases max_len(ps), 0nat, es.len() - i,
    when 0 <= i
{
    if i >= es.len() {
        Seq::empty()
    } else {
        let name = es[i].2;
        let last = i == es.len() - 1;
        let line = prefix + connector(last) + name;
        let sub = below(ps, name);
        let nested = if sub.len() > 0 {
            proof {
                lemma_below_shorter(ps, name);
            }
            render_level(sub, prefix + indent(last))
        } else {
            Seq::empty()
        };
        seq![line] + nested + render_entries(ps, es, i + 1, prefix)
    }
}

/// The paths of `files` that lie below `base`, relative to it, in order.
pub open spec fn relative_paths(files: Seq<Seq<char>>, base: Seq<char>) -> Seq<Seq<char>>
    decreases files.len(),
{
    if files.len() == 0 {
        Seq::empty()
    } else {
        match path_strip_prefix(files.last(), base) {
            Some(rest) => relative_paths(files.drop_last(), base).push(rest),
            None => relative_paths(files.drop_last(), base),
        }
    }
}

/// The drawing of the structure formed by the relative paths `rel`
/// (components separated by `/`): one line per folder or file, folders
/// before files and otherwise by lower-cased name; empty when there is no
/// path.
pub open spec fn spec_draw_paths(rel: Seq<Seq<char>>) -> Seq<char> {
    if rel.len() == 0 {
        Seq::empty()
    } else {
        join_lines(render_level(rel.map_values(|p: Seq<char>| split_on(p, '/')), Seq::empty()))
    }
}

/// The drawing of the project structure formed by the paths of `files`
/// below `base`; empty when no file lies below `base`.
pub open spec fn spec_tree_text(files: Seq<Seq<char>>, base: Seq<char>) -> Seq<char> {
    spec_draw_paths(relative_paths(files, base))
}

/// The value of a list of paths cut into components.
pub open spec fn parts_views(ps: Seq<Vec<Vec<char>>>) -> Seq<Parts> {
    ps.map_values(|p: Vec<Vec<char>>| char_views(p@))
}

fn copy_parts(p: &Vec<Vec<char>>, from: usize) -> (r: Vec<Vec<char>>)
    requires
        from <= p.len(),
    ensures
        char_views(r@) == char_views(p@).skip(from as int),
{
    let mut r: Vec<Vec<char>> = Vec::new();
    let mut i = from;
    while i < p.len()
        invariant
            from <= i <= p.len(),
            char_views(r@) == char_views(p@).subrange(from as int, i as int),
        decreases p.len() - i,
    {
        let ghost before = char_views(r@);
        r.push(copy_chars(&p[i]));
        assert(char_views(r@) =~= before.push(p@[i as int]@));
        i += 1;
        assert(char_views(r@) =~= char_views(p@).subrange(from as int, i as int));
    }
    r
}

fn first_names_exec(ps: &Vec<Vec<Vec<char>>>) -> (r: Vec<Vec<char>>)
    ensures
        char_views(r@) == first_names(parts_views(ps@)),
{
    let mut r: Vec<Vec<char>> = Vec::new();
    let mut i: usize = 0;
    while i < ps.len()
        invariant
            i <= ps.len(),
            char_views(r@) == first_names(parts_views(ps@).take(i as int)),
        decreases ps.len() - i,
    {
        let ghost t = parts_views(ps@).take(i + 1);
        assert(t.drop_last() =~= parts_views(ps@).take(i as int));
        assert(t.last() == char_views(ps@[i as int]@));
        if ps[i].len() > 0 {
            let ghost before = char_views(r@);
            r.push(copy_chars(&ps[i][0]));
            assert(char_views(r@) =~= before.push(ps@[i as int]@[0]@));
        }
        i += 1;
    }
    assert(parts_views(ps@).take(i as int) =~= parts_views(ps@));
    r
}

fn below_exec(ps: &Vec<Vec<Vec<char>>>, name: &Vec<char>) -> (r: Vec<Vec<Vec<char>>>)
    ensures
        parts_views(r@) == below(parts_views(ps@), name@),
{
    let mut r: Vec<Vec<Vec<char>>> = Vec::new();
    let mut i: usize = 0;
    while i < ps.len()
        invariant
            i <= ps.len(),
            parts_views(r@) == below(parts_views(ps@).take(i as int), name@),
        decreases ps.len() - i,
    {
        let ghost t = parts_views(ps@).take(i + 1);
        assert(t.drop_last() =~= parts_views(ps@).take(i as int));
        assert(t.last() == char_views(ps@[i as int]@));
        if ps[i].len() > 1 && crate::text::chars_eq(&ps[i][0], name) {
            let ghost before = parts_views(r@);
            let rest = copy_parts(&ps[i], 1);
            assert(char_views(rest@) =~= t.last().drop_first());
            r.push(rest);
            assert(parts_views(r@) =~= before.push(t.last().drop_first()));
        }
        i += 1;
    }
    assert(parts_views(ps@).take(i as int) =~= parts_views(ps@));
    r
}

fn dedup_chars(v: &Vec<Vec<char>>) -> (r: Vec<Vec<char>>)
    ensures
        char_views(r@) == dedup(char_views(v@)),
{
    let mut r: Vec<Vec<char>> = Vec::new();
    let mut k: usize = 0;
    while k < v.len()
        invariant
            k <= v.len(),
            char_views(r@) == dedup(char_views(v@).take(k as int)),
        decreases v.len() - k,
    {
        let ghost prefix = char_views(v@).take(k as int);
        let ghost next = char_views(v@).take(k + 1);
        assert(next.drop_last() =~= prefix);
        assert(next.last() == v@[k as int]@);
        proof {
            lemma_dedup(prefix);
        }
        let mut seen = false;
        let mut j: usize = 0;
        while j < r.len()
            invariant
                k < v.len(),
                j <= r.len(),
                seen == exists|m: int| 0 <= m < j && r@[m]@ == v@[k as int]@,
            decreases r.len() - j,
        {
            if crate::text::chars_eq(&r[j], &v[k]) {
                seen = true;
            }
            j += 1;
        }
        assert(seen == char_views(r@).contains(v@[k as int]@)) by {
            if seen {
                let m = choose|m: int| 0 <= m < j && r@[m]@ == v@[k as int]@;
                assert(char_views(r@)[m] == v@[k as int]@);
            }
            if char_views(r@).contains(v@[k as int]@) {
                let m = choose|m: int|
                    0 <= m < char_views(r@).len() && char_views(r@)[m] == v@[k as int]@;
                assert(r@[m]@ == v@[k as int]@);
            }
        }
        if !seen {
            let ghost before = char_views(r@);
            r.push(copy_chars(&v[k]));
            assert(char_views(r@) =~= before.push(v@[k as int]@));
        }
        k += 1;
    }
    assert(char_views(v@).take(k as int) =~= char_views(v@));
    r
}

fn lower_chars(s: &Vec<char>) -> (r: Vec<char>)
    ensures
        r@ == lowercase(s@),
{
    let st = string_from_chars(s);
    let lower = to_lower(st.as_str());
    chars_of(lower.as_str())
}

fn level_keys(ps: &Vec<Vec<Vec<char>>>) -> (r: Vec<SortKey>)
    ensures
        key_views(r@) == entry_keys(parts_views(ps@)),
{
    let names = dedup_chars(&first_names_exec(ps));
    let ghost pv = parts_views(ps@);
    let ghost ns = dedup(first_names(pv));
    let mut keys: Vec<SortKey> = Vec::new();
    let mut i: usize = 0;
    while i < names.len()
        invariant
            char_views(names@) == ns,
            ns == dedup(first_names(pv)),
            pv == parts_views(ps@),
            i <= names.len(),
            key_views(keys@) == entry_keys(pv).take(i as int),
        decreases names.len() - i,
    {
        assert(ns[i as int] == names@[i as int]@);
        let sub = below_exec(ps, &names[i]);
        let lower = lower_chars(&names[i]);
        let key = SortKey { first: sub.len() > 0, lower, name: copy_chars(&names[i]), index: 0 };
        let ghost before = key_views(keys@);
        keys.push(key);
        assert(key_views(keys@) =~= before.push(entry_keys(pv)[i as int]));
        assert(entry_keys(pv).take(i + 1) =~= entry_keys(pv).take(i as int).push(
            entry_keys(pv)[i as int],
        ));
        i += 1;
    }
    assert(entry_keys(pv).take(i as int) =~= entry_keys(pv));
    keys
}

fn render_level_exec(ps: &Vec<Vec<Vec<char>>>, prefix: &Vec<char>, out: &mut Vec<Vec<char>>)
    ensures
        char_views(final(out)@) == char_views(old(out)@) + render_level(
            parts_views(ps@),
            prefix@,
        ),
    decreases max_len(parts_views(ps@)),
{
    let ghost pv = parts_views(ps@);
    let sorted = sort_keys(level_keys(ps));
    let ghost es = key_views(sorted@);
    let ghost start = char_views(out@);
    let n = sorted.len();
    let mut i: usize = 0;
    assert(char_views(out@) + render_entries(pv, es, 0, prefix@) =~= start + render_level(
        pv,
        prefix@,
    ));
    while i < n
        invariant
            n == sorted.len(),
            es == key_views(sorted@),
            es == sorted_entries(pv),
            pv == parts_views(ps@),
            i <= n,
            char_views(out@) + render_entries(pv, es, i as int, prefix@) == start + render_level(
                pv,
                prefix@,
            ),
        decreases n - i,
    {
        let last = i + 1 == n;
        let name = &sorted[i].name;
        assert(es[i as int].2 == name@);
        let mut line = copy_chars(prefix);
        if last {
            push_str(&mut line, "└── ");
        } else {
            push_str(&mut line, "├── ");
        }
        push_chars(&mut line, name);
        let ghost before = char_views(out@);
        let ghost line_view = line@;
        out.push(line);
        assert(char_views(out@) =~= before.push(line_view));
        let sub = below_exec(ps, name);
        if sub.len() > 0 {
            let mut next_prefix = copy_chars(prefix);
            if last {
                push_str(&mut next_prefix, "    ");
            } else {
                push_str(&mut next_prefix, "│   ");
            }
            proof {
                lemma_below_shorter(pv, name@);
            }
            let ghost mid = char_views(out@);
            render_level_exec(&sub, &next_prefix, out);
            assert(char_views(out@) + render_entries(pv, es, i + 1, prefix@) =~= before + (seq![
                line_view,
            ] + render_level(below(pv, name@), next_prefix@) + render_entries(
                pv,
                es,
                i + 1,
                prefix@,
            )));
        } else {
            assert(char_views(out@) + render_entries(pv, es, i + 1, prefix@) =~= before + (seq![
                line_view,
            ] + Seq::<Seq<char>>::empty() + render_entries(pv, es, i + 1, prefix@)));
        }
        i += 1;
    }
    assert(render_entries(pv, es, i as int, prefix@) =~= Seq::<Seq<char>>::empty());
    assert(char_views(out@) + Seq::<Seq<char>>::empty() =~= char_views(out@));
}

/// Draws the project structure formed by the paths of `files` that lie
/// below `base` (folders first, then by lower-cased name), one line per
/// entry; the empty string when none does.
pub fn generate_tree_text(files: &Vec<String>, base: &str) -> (r: String)
    ensures
        r@ == spec_tree_text(views(files@), base@),
{
    let ghost fv = views(files@);
    let mut rel: Vec<String> = Vec::new();
    let mut i: usize = 0;
    while i < files.len()
        invariant
            fv == views(files@),
            i <= files.len(),
            views(rel@) == relative_paths(fv.take(i as int), base@),
        decreases files.len() - i,
    {
        let ghost t = fv.take(i + 1);
        assert(t.drop_last() =~= fv.take(i as int));
        assert(t.last() == files@[i as int]@);
        match strip_prefix(files[i].as_str(), base) {
            Some(rest) => {
                let ghost before = views(rel@);
                let ghost rv = rest@;
                rel.push(rest);
                assert(views(rel@) =~= before.push(rv));
            },
            None => {},
        }
        i += 1;
    }
    assert(fv.take(i as int) =~= fv);
    draw_paths(&rel)
}

/// Draws the structure formed by the relative paths `rel` (components
/// separated by `/`), folders first, then by lower-cased name; the empty
/// string when there is no path.
pub fn draw_paths(rel: &Vec<String>) -> (r: String)
    ensures
        r@ == spec_draw_paths(views(rel@)),
{
    if rel.len() == 0 {
        return String::new();
    }
    let ghost relv = views(rel@);
    let mut ps: Vec<Vec<Vec<char>>> = Vec::new();
    let mut k: usize = 0;
    while k < rel.len()
        invariant
            relv == views(rel@),
            k <= rel.len(),
            parts_views(ps@) == relv.take(k as int).map_values(|p: Seq<char>| split_on(p, '/')),
        decreases rel.len() - k,
    {
        let cs = chars_of(rel[k].as_str());
        let parts = split_chars(&cs, '/');
        let ghost before = parts_views(ps@);
        let ghost pview = char_views(parts@);
        ps.push(parts);
        assert(relv[k as int] == rel@[k as int]@);
        assert(parts_views(ps@) =~= before.push(pview));
        assert(relv.take(k + 1).map_values(|p: Seq<char>| split_on(p, '/')) =~= relv.take(
            k as int,
        ).map_values(|p: Seq<char>| split_on(p, '/')).push(split_on(relv[k as int], '/')));
        k += 1;
    }
    assert(relv.take(k as int) =~= relv);
    let mut lines: Vec<Vec<char>> = Vec::new();
    let prefix: Vec<char> = Vec::new();
    render_level_exec(&ps, &prefix, &mut lines);
    assert(char_views(lines@) =~= render_level(parts_views(ps@), Seq::empty()));
    let joined = join_with_newlines(&lines);
    string_from_chars(&joined)
}


/// `a` and `b` hold the same elements (in any order, any number of times).
pub open spec fn same_elements<A>(a: Seq<A>, b: Seq<A>) -> bool {
    forall|x: A| a.contains(x) <==> b.contains(x)
}

/// The first names are those of the non-empty paths.
proof fn lemma_first_names_contains(ps: Seq<Parts>, n: Seq<char>)
    ensures
        first_names(ps).contains(n) <==> exists|i: int|
            0 <= i < ps.len() && ps[i].len() > 0 && #[trigger] ps[i][0] == n,
    decreases ps.len(),
{
    if ps.len() > 0 {
        let p = ps.drop_last();
        lemma_first_names_contains(p, n);
        if ps.last().len() > 0 {
            vstd::seq_lib::lemma_seq_contains_after_push(first_names(p), ps.last()[0], n);
        }
        if exists|i: int| 0 <= i < ps.len() && ps[i].len() > 0 && #[trigger] ps[i][0] == n {
            let i = choose|i: int| 0 <= i < ps.len() && ps[i].len() > 0 && #[trigger] ps[i][0] == n;
            if i < ps.len() - 1 {
                assert(p[i] == ps[i]);
            }
        }
        if exists|i: int| 0 <= i < p.len() && p[i].len() > 0 && #[trigger] p[i][0] == n {
            let i = choose|i: int| 0 <= i < p.len() && p[i].len() > 0 && #[trigger] p[i][0] == n;
            assert(ps[i] == p[i]);
        }
    }
}

/// The paths below `n` are the rests of the paths that go deeper under `n`.
proof fn lemma_below_contains(ps: Seq<Parts>, n: Seq<char>, q: Parts)
    ensures
        below(ps, n).contains(q) <==> exists|i: int|
            0 <= i < ps.len() && ps[i].len() > 1 && ps[i][0] == n && #[trigger] ps[i].drop_first()
                == q,
    decreases ps.len(),
{
    if ps.len() > 0 {
        let p = ps.drop_last();
        lemma_below_contains(p, n, q);
        if ps.last().len() > 1 && ps.last()[0] == n {
            vstd::seq_lib::lemma_seq_contains_after_push(below(p, n), ps.last().drop_first(), q);
        }
        if exists|i: int|
            0 <= i < ps.len() && ps[i].len() > 1 && ps[i][0] == n && #[trigger] ps[i].drop_first()
                == q {
            let i = choose|i: int|
                0 <= i < ps.len() && ps[i].len() > 1 && ps[i][0] == n && #[trigger] ps[i].drop_first()
                    == q;
            if i < ps.len() - 1 {
                assert(p[i] == ps[i]);
            }
        }
        if exists|i: int|
            0 <= i < p.len() && p[i].len() > 1 && p[i][0] == n && #[trigger] p[i].drop_first() == q {
            let i = choose|i: int|
                0 <= i < p.len() && p[i].len() > 1 && p[i][0] == n && #[trigger] p[i].drop_first()
                    == q;
            assert(ps[i] == p[i]);
        }
    }
}

/// Paths with the same elements have the same paths below each name.
proof fn lemma_below_same(ps1: Seq<Parts>, ps2: Seq<Parts>, n: Seq<char>)
    requires
        same_elements(ps1, ps2),
    ensures
        same_elements(below(ps1, n), below(ps2, n)),
{
    assert forall|q: Parts| below(ps1, n).contains(q) implies below(ps2, n).contains(q) by {
        lemma_below_contains(ps1, n, q);
        lemma_below_contains(ps2, n, q);
        let i = choose|i: int|
            0 <= i < ps1.len() && ps1[i].len() > 1 && ps1[i][0] == n && #[trigger] ps1[i].drop_first()
                == q;
        assert(ps1.contains(ps1[i]));
        let j = choose|j: int| 0 <= j < ps2.len() && ps2[j] == ps1[i];
        assert(ps2[j].drop_first() == q);
    }
    assert forall|q: Parts| below(ps2, n).contains(q) implies below(ps1, n).contains(q) by {
        lemma_below_contains(ps1, n, q);
        lemma_below_contains(ps2, n, q);
        let i = choose|i: int|
            0 <= i < ps2.len() && ps2[i].len() > 1 && ps2[i][0] == n && #[trigger] ps2[i].drop_first()
                == q;
        assert(ps2.contains(ps2[i]));
        let j = choose|j: int| 0 <= j < ps1.len() && ps1[j] == ps2[i];
        assert(ps1[j].drop_first() == q);
    }
}

/// Paths with the same elements have the same first names.
proof fn lemma_first_names_same(ps1: Seq<Parts>, ps2: Seq<Parts>)
    requires
        same_elements(ps1, ps2),
    ensures
        same_elements(first_names(ps1), first_names(ps2)),
{
    assert forall|n: Seq<char>| first_names(ps1).contains(n) implies first_names(ps2).contains(n) by {
        lemma_first_names_contains(ps1, n);
        lemma_first_names_contains(ps2, n);
        let i = choose|i: int| 0 <= i < ps1.len() && ps1[i].len() > 0 && #[trigger] ps1[i][0] == n;
        assert(ps1.contains(ps1[i]));
        let j = choose|j: int| 0 <= j < ps2.len() && ps2[j] == ps1[i];
        assert(ps2[j][0] == n);
    }
    assert forall|n: Seq<char>| first_names(ps2).contains(n) implies first_names(ps1).contains(n) by {
        lemma_first_names_contains(ps1, n);
        lemma_first_names_contains(ps2, n);
        let i = choose|i: int| 0 <= i < ps2.len() && ps2[i].len() > 0 && #[trigger] ps2[i][0] == n;
        assert(ps2.contains(ps2[i]));
        let j = choose|j: int| 0 <= j < ps1.len() && ps1[j] == ps2[i];
        assert(ps1[j][0] == n);
    }
}

/// Sequences without repeats that hold the same elements have the same
/// multiset.
proof fn lemma_same_multiset<A>(a: Seq<A>, b: Seq<A>)
    requires
        a.no_duplicates(),
        b.no_duplicates(),
        same_elements(a, b),
    ensures
        a.to_multiset() =~= b.to_multiset(),
{
    broadcast use vstd::seq_lib::group_to_multiset_ensures;
    broadcast use vstd::multiset::group_multiset_axioms;

    a.lemma_multiset_has_no_duplicates();
    b.lemma_multiset_has_no_duplicates();
    assert forall|x: A| a.to_multiset().count(x) == b.to_multiset().count(x) by {
        if a.contains(x) {
            assert(b.contains(x));
        }
    }
}

/// The entries of a level with the same paths are the same, in the same
/// order.
proof fn lemma_sorted_entries_same(ps1: Seq<Parts>, ps2: Seq<Parts>)
    requires
        same_elements(ps1, ps2),
    ensures
        sorted_entries(ps1) == sorted_entries(ps2),
{
    broadcast use vstd::seq_lib::group_to_multiset_ensures;

    let n1 = dedup(first_names(ps1));
    let n2 = dedup(first_names(ps2));
    lemma_dedup(first_names(ps1));
    lemma_dedup(first_names(ps2));
    lemma_first_names_same(ps1, ps2);
    let k1 = entry_keys(ps1);
    let k2 = entry_keys(ps2);
    assert forall|n: Seq<char>| below(ps1, n).len() > 0 <==> below(ps2, n).len() > 0 by {
        lemma_below_same(ps1, ps2, n);
        if below(ps1, n).len() > 0 {
            assert(below(ps1, n).contains(below(ps1, n)[0]));
        }
        if below(ps2, n).len() > 0 {
            assert(below(ps2, n).contains(below(ps2, n)[0]));
        }
    }
    assert forall|x: KeyView| k1.contains(x) implies k2.contains(x) by {
        let i = choose|i: int| 0 <= i < k1.len() && k1[i] == x;
        let n = n1[i];
        assert(n1.contains(n));
        assert(first_names(ps1).contains(n));
        assert(first_names(ps2).contains(n));
        assert(n2.contains(n));
        let j = choose|j: int| 0 <= j < n2.len() && n2[j] == n1[i];
        assert(k2[j] == x);
    }
    assert forall|x: KeyView| k2.contains(x) implies k1.contains(x) by {
        let i = choose|i: int| 0 <= i < k2.len() && k2[i] == x;
        let n = n2[i];
        assert(n2.contains(n));
        assert(first_names(ps2).contains(n));
        assert(first_names(ps1).contains(n));
        assert(n1.contains(n));
        let j = choose|j: int| 0 <= j < n1.len() && n1[j] == n2[i];
        assert(k1[j] == x);
    }
    assert(k1.no_duplicates()) by {
        assert forall|i: int, j: int| 0 <= i < k1.len() && 0 <= j < k1.len() && i != j implies k1[i]
            != k1[j] by {
            assert(n1[i] != n1[j]);
        }
    }
    assert(k2.no_duplicates()) by {
        assert forall|i: int, j: int| 0 <= i < k2.len() && 0 <= j < k2.len() && i != j implies k2[i]
            != k2[j] by {
            assert(n2[i] != n2[j]);
        }
    }
    lemma_same_multiset(k1, k2);
    crate::order::lemma_key_order_total();
    k1.lemma_sort_by_ensures(key_order());
    k2.lemma_sort_by_ensures(key_order());
    vstd::seq_lib::lemma_sorted_unique(k1.sort_by(key_order()), k2.sort_by(key_order()), key_order());
}

/// A level's drawing depends only on which paths it has, not on their
/// order or repetition.
proof fn lemma_render_level_same(ps1: Seq<Parts>, ps2: Seq<Parts>, prefix: Seq<char>)
    requires
        same_elements(ps1, ps2),
    ensures
        render_level(ps1, prefix) == render_level(ps2, prefix),
    decreases max_len(ps1), 1nat, 0nat,
{
    lemma_sorted_entries_same(ps1, ps2);
    lemma_render_entries_same(ps1, ps2, sorted_entries(ps1), 0, prefix);
}

proof fn lemma_render_entries_same(
    ps1: Seq<Parts>,
    ps2: Seq<Parts>,
    es: Seq<KeyView>,
    i: int,
    prefix: Seq<char>,
)
    requires
        same_elements(ps1, ps2),
        0 <= i,
    ensures
        render_entries(ps1, es, i, prefix) == render_entries(ps2, es, i, prefix),
    decreases max_len(ps1), 0nat, es.len() - i,
{
    if i < es.len() {
        let name = es[i].2;
        let last = i == es.len() - 1;
        lemma_below_same(ps1, ps2, name);
        let b1 = below(ps1, name);
        let b2 = below(ps2, name);
        if b1.len() > 0 {
            assert(b1.contains(b1[0]));
            lemma_below_shorter(ps1, name);
            lemma_render_level_same(b1, b2, prefix + indent(last));
        }
        if b2.len() > 0 {
            assert(b2.contains(b2[0]));
        }
        lemma_render_entries_same(ps1, ps2, es, i + 1, prefix);
    }
}

/// The drawing of relative paths depends only on which paths there are:
/// their order and repetitions do not change it.
pub proof fn law_draw_ignores_order(rel1: Seq<Seq<char>>, rel2: Seq<Seq<char>>)
    requires
        same_elements(rel1, rel2),
    ensures
        spec_draw_paths(rel1) == spec_draw_paths(rel2),
{
    let f = |p: Seq<char>| split_on(p, '/');
    let ps1 = rel1.map_values(f);
    let ps2 = rel2.map_values(f);
    assert forall|q: Parts| ps1.contains(q) implies ps2.contains(q) by {
        let i = choose|i: int| 0 <= i < ps1.len() && ps1[i] == q;
        assert(rel1.contains(rel1[i]));
        let j = choose|j: int| 0 <= j < rel2.len() && rel2[j] == rel1[i];
        assert(ps2[j] == q);
    }
    assert forall|q: Parts| ps2.contains(q) implies ps1.contains(q) by {
        let i = choose|i: int| 0 <= i < ps2.len() && ps2[i] == q;
        assert(rel2.contains(rel2[i]));
        let j = choose|j: int| 0 <= j < rel1.len() && rel1[j] == rel2[i];
        assert(ps1[j] == q);
    }
    if rel1.len() > 0 {
        assert(rel1.contains(rel1[0]));
    }
    if rel2.len() > 0 {
        assert(rel2.contains(rel2[0]));
    }
    if rel1.len() > 0 {
        lemma_render_level_same(ps1, ps2, Seq::empty());
    }
}

/// The paths below `base` are exactly those that `Path::strip_prefix`
/// gives for the files.
proof fn lemma_relative_paths_contains(files: Seq<Seq<char>>, base: Seq<char>, x: Seq<char>)
    ensures
        relative_paths(files, base).contains(x) <==> exists|i: int|
            0 <= i < files.len() && #[trigger] path_strip_prefix(files[i], base) == Some(x),
    decreases files.len(),
{
    if files.len() > 0 {
        let p = files.drop_last();
        lemma_relative_paths_contains(p, base, x);
        match path_strip_prefix(files.last(), base) {
            Some(rest) => {
                vstd::seq_lib::lemma_seq_contains_after_push(relative_paths(p, base), rest, x);
            },
            None => {},
        }
        if exists|i: int| 0 <= i < files.len() && #[trigger] path_strip_prefix(files[i], base) == Some(x) {
            let i = choose|i: int|
                0 <= i < files.len() && #[trigger] path_strip_prefix(files[i], base) == Some(x);
            if i < files.len() - 1 {
                assert(p[i] == files[i]);
            }
        }
        if exists|i: int| 0 <= i < p.len() && #[trigger] path_strip_prefix(p[i], base) == Some(x) {
            let i = choose|i: int| 0 <= i < p.len() && #[trigger] path_strip_prefix(p[i], base) == Some(x);
            assert(files[i] == p[i]);
        }
    }
}

/// The project structure does not depend on the order in which the files
/// are given, nor on files given twice.
pub proof fn law_tree_text_ignores_order(files1: Seq<Seq<char>>, files2: Seq<Seq<char>>, base: Seq<char>)
    requires
        same_elements(files1, files2),
    ensures
        spec_tree_text(files1, base) == spec_tree_text(files2, base),
{
    let r1 = relative_paths(files1, base);
    let r2 = relative_paths(files2, base);
    assert forall|x: Seq<char>| r1.contains(x) implies r2.contains(x) by {
        lemma_relative_paths_contains(files1, base, x);
        lemma_relative_paths_contains(files2, base, x);
        let i = choose|i: int|
            0 <= i < files1.len() && #[trigger] path_strip_prefix(files1[i], base) == Some(x);
        assert(files1.contains(files1[i]));
        let j = choose|j: int| 0 <= j < files2.len() && files2[j] == files1[i];
        assert(path_strip_prefix(files2[j], base) == Some(x));
    }
    assert forall|x: Seq<char>| r2.contains(x) implies r1.contains(x) by {
        lemma_relative_paths_contains(files1, base, x);
        lemma_relative_paths_contains(files2, base, x);
        let i = choose|i: int|
            0 <= i < files2.len() && #[trigger] path_strip_prefix(files2[i], base) == Some(x);
        assert(files2.contains(files2[i]));
        let j = choose|j: int| 0 <= j < files1.len() && files1[j] == files2[i];
        assert(path_strip_prefix(files1[j], base) == Some(x));
    }
    law_draw_ignores_order(r1, r2);
}

} // verus!
