//! The decisions of a folder scan: in which order a folder's entries are
//! shown, which of them are skipped, and how the kept ones become nodes of
//! the file tree. Reading the folders is left to the caller.

use vstd::prelude::*;

use crate::order::{key_order, key_views, sort_keys, KeyView, SortKey};
use crate::paths::{dotted_extension, dotted_extension_of};
use crate::text::{chars_of, contains_string, lowercase, string_from_chars, to_lower, views};
use crate::tree::{nodes_file_count, nodes_files_are_leaves, nodes_total_files, FileNode, NodeModel};

verus! {

/// One entry of a folder listing: its file name, its full path, and
/// whether it is a folder.
pub struct DirEntryInfo {
    pub name: String,
    pub path: String,
    pub is_dir: bool,
}

/// The value of a [`DirEntryInfo`].
pub type EntryView = (Seq<char>, Seq<char>, bool);

impl DirEntryInfo {
    pub open spec fn entry(&self) -> EntryView {
        (self.name@, self.path@, self.is_dir)
    }
}

pub open spec fn entry_views(s: Seq<DirEntryInfo>) -> Seq<EntryView> {
    s.map_values(|e: DirEntryInfo| e.entry())
}

/// The sort keys of a listing: folders first, then by lower-cased name,
/// then by position in the listing (the sort keeps the listing's order of
/// entries that compare equal).
pub open spec fn listing_keys(es: Seq<EntryView>) -> Seq<KeyView> {
    Seq::new(es.len(), |i: int| (es[i].2, lowercase(es[i].0), Seq::<char>::empty(), i as usize))
}

/// The listing in display order: folders first, then by lower-cased name;
/// entries that compare equal keep their order.
pub open spec fn sorted_listing(es: Seq<EntryView>) -> Seq<EntryView> {
    let ks = listing_keys(es).sort_by(key_order());
    Seq::new(ks.len(), |k: int| es[ks[k].3 as int])
}

/// Whether an entry stays in the tree: a folder whose name is not
/// ignored; a file whose extension (dot and lower case, as
/// [`dotted_extension`]) is not ignored and, when a filter is given, is in
/// the filter.
pub open spec fn keeps(
    e: EntryView,
    ignored_dirs: Seq<Seq<char>>,
    ignored_exts: Seq<Seq<char>>,
    filter: Option<Seq<Seq<char>>>,
) -> bool {
    keeps_given(e.2, e.0, dotted_extension(e.1), ignored_dirs, ignored_exts, filter)
}

/// Whether an entry stays in the tree, given whether it is a folder, its
/// name and its extension key `ext`.
pub open spec fn keeps_given(
    is_dir: bool,
    name: Seq<char>,
    ext: Seq<char>,
    ignored_dirs: Seq<Seq<char>>,
    ignored_exts: Seq<Seq<char>>,
    filter: Option<Seq<Seq<char>>>,
) -> bool {
    if is_dir {
        !ignored_dirs.contains(name)
    } else {
        !ignored_exts.contains(ext) && match filter {
            Some(f) => f.contains(ext),
            None => true,
        }
    }
}

/// The entries of `es` that stay in the tree, in order.
pub open spec fn kept(
    es: Seq<EntryView>,
    ignored_dirs: Seq<Seq<char>>,
    ignored_exts: Seq<Seq<char>>,
    filter: Option<Seq<Seq<char>>>,
) -> Seq<EntryView>
    decreases es.len(),
{
    if es.len() == 0 {
        Seq::empty()
    } else if keeps(es.last(), ignored_dirs, ignored_exts, filter) {
        kept(es.drop_last(), ignored_dirs, ignored_exts, filter).push(es.last())
    } else {
        kept(es.drop_last(), ignored_dirs, ignored_exts, filter)
    }
}

/// The value of an optional list of strings.
pub open spec fn filter_view(f: Option<Vec<String>>) -> Option<Seq<Seq<char>>> {
    match f {
        Some(v) => Some(views(v@)),
        None => None,
    }
}

fn copy_entry(e: &DirEntryInfo) -> (r: DirEntryInfo)
    ensures
        r.entry() == e.entry(),
{
    DirEntryInfo { name: e.name.clone(), path: e.path.clone(), is_dir: e.is_dir }
}

/// Puts a folder listing in display order: folders first, then by
/// lower-cased name; entries that compare equal keep their order.
pub fn sort_entries(entries: &Vec<DirEntryInfo>) -> (r: Vec<DirEntryInfo>)
    ensures
        entry_views(r@) == sorted_listing(entry_views(entries@)),
{
    let ghost es = entry_views(entries@);
    let mut keys: Vec<SortKey> = Vec::new();
    let mut i: usize = 0;
    while i < entries.len()
        invariant
            es == entry_views(entries@),
            i <= entries.len(),
            key_views(keys@) == listing_keys(es).take(i as int),
        decreases entries.len() - i,
    {
        let lower = chars_of(to_lower(entries[i].name.as_str()).as_str());
        let key = SortKey { first: entries[i].is_dir, lower, name: Vec::new(), index: i };
        let ghost before = key_views(keys@);
        assert(es[i as int] == entries@[i as int].entry());
        assert(key.key() == listing_keys(es)[i as int]) by {
            assert(key.name@ =~= Seq::<char>::empty());
        }
        let ghost kk = key.key();
        keys.push(key);
        assert(key_views(keys@) =~= before.push(kk));
        assert(key_views(keys@) =~= listing_keys(es).take(i + 1));
        i += 1;
    }
    assert(listing_keys(es).take(i as int) =~= listing_keys(es));
    let sorted = sort_keys(keys);
    let ghost ks = listing_keys(es).sort_by(key_order());
    proof {
        crate::order::lemma_key_order_total();
        listing_keys(es).lemma_sort_by_ensures(key_order());
    }
    let mut r: Vec<DirEntryInfo> = Vec::new();
    let mut k: usize = 0;
    while k < sorted.len()
        invariant
            es == entry_views(entries@),
            key_views(sorted@) == ks,
            forall|x: KeyView| ks.contains(x) ==> listing_keys(es).contains(x),
            k <= sorted.len(),
            entry_views(r@) == Seq::new(k as nat, |m: int| es[ks[m].3 as int]),
        decreases sorted.len() - k,
    {
        assert(ks[k as int] == sorted@[k as int].key());
        assert(ks.contains(ks[k as int]));
        let idx = sorted[k].index;
        assert(idx < entries.len()) by {
            let j = choose|j: int|
                0 <= j < listing_keys(es).len() && listing_keys(es)[j] == ks[k as int];
            assert(listing_keys(es)[j].3 == j as usize);
        }
        let e = copy_entry(&entries[idx]);
        assert(es[idx as int] == e.entry());
        assert(idx == ks[k as int].3);
        let ghost before = entry_views(r@);
        let ghost ev = e.entry();
        r.push(e);
        assert(entry_views(r@) =~= before.push(ev));
        assert(entry_views(r@) =~= Seq::new((k + 1) as nat, |m: int| es[ks[m].3 as int]));
        k += 1;
    }
    r
}

/// Whether a scan keeps an entry, given whether it is a folder, its name
/// and its extension key `ext` (a dot and the lower-cased extension, or
/// empty): a folder unless its name is ignored; a file unless its
/// extension is ignored or, with a filter, not in the filter.
pub fn keeps_entry(
    is_dir: bool,
    name: &String,
    ext: &String,
    ignored_dirs: &Vec<String>,
    ignored_exts: &Vec<String>,
    filter: &Option<Vec<String>>,
) -> (r: bool)
    ensures
        r == keeps_given(
            is_dir,
            name@,
            ext@,
            views(ignored_dirs@),
            views(ignored_exts@),
            filter_view(*filter),
        ),
{
    if is_dir {
        !contains_string(ignored_dirs, name)
    } else {
        if contains_string(ignored_exts, ext) {
            return false;
        }
        match filter {
            Some(f) => contains_string(f, ext),
            None => true,
        }
    }
}

fn keeps_exec(
    e: &DirEntryInfo,
    ignored_dirs: &Vec<String>,
    ignored_exts: &Vec<String>,
    filter: &Option<Vec<String>>,
) -> (r: bool)
    ensures
        r == keeps(e.entry(), views(ignored_dirs@), views(ignored_exts@), filter_view(*filter)),
{
    let ext = string_from_chars(&dotted_extension_of(e.path.as_str()));
    keeps_entry(e.is_dir, &e.name, &ext, ignored_dirs, ignored_exts, filter)
}

/// The entries of one folder listing that a scan keeps, in display order:
/// folders first, then by lower-cased name; ignored folders, files with an
/// ignored extension and, when `filter` is given, files whose extension is
/// not in it are left out. The caller scans the kept folders in turn.
pub fn plan_level(
    entries: &Vec<DirEntryInfo>,
    ignored_dirs: &Vec<String>,
    ignored_exts: &Vec<String>,
    filter: &Option<Vec<String>>,
) -> (r: Vec<DirEntryInfo>)
    ensures
        entry_views(r@) == kept(
            sorted_listing(entry_views(entries@)),
            views(ignored_dirs@),
            views(ignored_exts@),
            filter_view(*filter),
        ),
{
    let sorted = sort_entries(entries);
    let ghost sv = entry_views(sorted@);
    let ghost d = views(ignored_dirs@);
    let ghost x = views(ignored_exts@);
    let ghost f = filter_view(*filter);
    let mut r: Vec<DirEntryInfo> = Vec::new();
    let mut i: usize = 0;
    while i < sorted.len()
        invariant
            sv == entry_views(sorted@),
            d == views(ignored_dirs@),
            x == views(ignored_exts@),
            f == filter_view(*filter),
            i <= sorted.len(),
            entry_views(r@) == kept(sv.take(i as int), d, x, f),
        decreases sorted.len() - i,
    {
        let ghost t = sv.take(i + 1);
        assert(t.drop_last() =~= sv.take(i as int));
        assert(t.last() == sorted@[i as int].entry());
        if keeps_exec(&sorted[i], ignored_dirs, ignored_exts, filter) {
            let e = copy_entry(&sorted[i]);
            let ghost before = entry_views(r@);
            r.push(e);
            assert(entry_views(r@) =~= before.push(t.last()));
        }
        i += 1;
    }
    assert(sv.take(i as int) =~= sv);
    r
}

/// The tree nodes for the kept entries of a folder, given the nodes built
/// for each of them (empty for a file): a file becomes a checked leaf; a
/// folder becomes a checked, collapsed node over its nodes, unless it has
/// none, in which case it is left out.
pub open spec fn assemble(planned: Seq<EntryView>, children: Seq<Seq<NodeModel>>) -> Seq<
    NodeModel,
>
    decreases planned.len(),
{
    if planned.len() == 0 {
        Seq::empty()
    } else {
        let rest = assemble(planned.drop_last(), children);
        let e = planned.last();
        let kids = children[planned.len() - 1];
        if e.2 {
            if kids.len() == 0 {
                rest
            } else {
                rest.push(
                    NodeModel {
                        name: e.0,
                        path: e.1,
                        is_dir: true,
                        checked: true,
                        children: kids,
                        expanded: false,
                    },
                )
            }
        } else {
            rest.push(
                NodeModel {
                    name: e.0,
                    path: e.1,
                    is_dir: false,
                    checked: true,
                    children: Seq::empty(),
                    expanded: false,
                },
            )
        }
    }
}

/// The values of a list of nodes.
pub open spec fn node_views(s: Seq<FileNode>) -> Seq<NodeModel> {
    s.map_values(|n: FileNode| n@)
}

/// Builds the nodes of a folder from its kept entries (as [`plan_level`]
/// gives them) and the nodes already built for each of them: `children[i]`
/// belongs to `planned[i]` and is empty for a file.
pub fn assemble_level(planned: Vec<DirEntryInfo>, children: Vec<Vec<FileNode>>) -> (r: Vec<
    FileNode,
>)
    requires
        children.len() == planned.len(),
    ensures
        node_views(r@) == assemble(
            entry_views(planned@),
            children@.map_values(|c: Vec<FileNode>| node_views(c@)),
        ),
{
    let ghost pv = entry_views(planned@);
    let ghost cv = children@.map_values(|c: Vec<FileNode>| node_views(c@));
    let n = planned.len();
    let mut planned = planned;
    let mut children = children;
    let mut rev: Vec<FileNode> = Vec::new();
    let mut i: usize = n;
    assert(pv.take(n as int) =~= pv);
    assert(cv.take(n as int) =~= cv);
    assert(node_views(rev@).reverse() =~= Seq::<NodeModel>::empty());
    assert(assemble(pv, cv) =~= assemble(pv, cv) + Seq::<NodeModel>::empty());
    // Entries are taken from the back, so the nodes come out in reverse.
    while i > 0
        invariant
            i <= n,
            planned.len() == i,
            children.len() == i,
            entry_views(planned@) == pv.take(i as int),
            children@.map_values(|c: Vec<FileNode>| node_views(c@)) == cv.take(i as int),
            pv.len() == n,
            cv.len() == n,
            assemble(pv, cv) == assemble(pv.take(i as int), cv) + node_views(rev@).reverse(),
        decreases i,
    {
        let ghost old_children = children@;
        assert(old_children.map_values(|c: Vec<FileNode>| node_views(c@))[i - 1] == node_views(
            old_children[i - 1]@,
        ));
        let e = planned.pop().unwrap();
        let kids = children.pop().unwrap();
        let ghost before = node_views(rev@);
        let ghost tp = pv.take(i as int);
        assert(tp.drop_last() =~= pv.take(i - 1));
        assert(tp.last() == e.entry());
        assert(cv[i - 1] == node_views(kids@));
        assert(entry_views(planned@) =~= pv.take(i - 1));
        assert(children@.map_values(|c: Vec<FileNode>| node_views(c@)) =~= cv.take(i - 1));
        proof {
            lemma_assemble_children(tp, cv);
        }
        if e.is_dir {
            if kids.len() > 0 {
                let node = FileNode {
                    name: e.name,
                    path: e.path,
                    is_dir: true,
                    checked: true,
                    children: kids,
                    expanded: false,
                };
                assert(node@.children =~= cv[i - 1]);
                rev.push(node);
                assert(node_views(rev@).reverse() =~= seq![node@] + before.reverse());
            }
        } else {
            let node = FileNode {
                name: e.name,
                path: e.path,
                is_dir: false,
                checked: true,
                children: Vec::new(),
                expanded: false,
            };
            assert(node@.children =~= Seq::<NodeModel>::empty());
            rev.push(node);
            assert(node_views(rev@).reverse() =~= seq![node@] + before.reverse());
        }
        i -= 1;
    }
    let mut r: Vec<FileNode> = Vec::new();
    let ghost total = node_views(rev@).reverse();
    while rev.len() > 0
        invariant
            node_views(r@) + node_views(rev@).reverse() == total,
        decreases rev.len(),
    {
        let ghost before_r = node_views(r@);
        let ghost before_rev = node_views(rev@);
        let x = rev.pop().unwrap();
        r.push(x);
        assert(before_rev.reverse() =~= seq![x@] + node_views(rev@).reverse());
        assert(node_views(r@) =~= before_r.push(x@));
    }
    assert(pv.take(0) =~= Seq::<EntryView>::empty());
    assert(node_views(rev@).reverse() =~= Seq::<NodeModel>::empty());
    assert(node_views(r@) =~= total);
    r
}

/// How the last entry's nodes extend those of the entries before it.
proof fn lemma_assemble_children(planned: Seq<EntryView>, children: Seq<Seq<NodeModel>>)
    requires
        planned.len() > 0,
    ensures
        assemble(planned, children) == assemble(planned.drop_last(), children) + (if planned.last().2
            && children[planned.len() - 1].len() == 0 {
            Seq::<NodeModel>::empty()
        } else {
            seq![assemble(planned, children).last()]
        }),
{
    let rest = assemble(planned.drop_last(), children);
    if planned.last().2 && children[planned.len() - 1].len() == 0 {
        assert(assemble(planned, children) =~= rest + Seq::<NodeModel>::empty());
    } else {
        assert(assemble(planned, children) =~= rest + seq![assemble(planned, children).last()]);
    }
}


/// Nodes with every file checked and no file holding children.
pub open spec fn all_selected_leaves(nodes: Seq<NodeModel>) -> bool {
    nodes_file_count(nodes) == nodes_total_files(nodes) && nodes_files_are_leaves(nodes)
}

/// A scan selects every file it finds: when the nodes built for the
/// folders below have every file checked (and files without children), so
/// do the nodes of the folder itself.
pub proof fn law_scan_selects_all(planned: Seq<EntryView>, children: Seq<Seq<NodeModel>>)
    requires
        children.len() == planned.len(),
        forall|i: int| 0 <= i < children.len() ==> all_selected_leaves(#[trigger] children[i]),
    ensures
        all_selected_leaves(assemble(planned, children)),
    decreases planned.len(),
{
    if planned.len() > 0 {
        let k = planned.len() - 1;
        let rest = planned.drop_last();
        assert forall|i: int| 0 <= i < children.drop_last().len() implies all_selected_leaves(
            #[trigger] children.drop_last()[i],
        ) by {
            assert(children.drop_last()[i] == children[i]);
        }
        lemma_assemble_prefix(rest, children);
        law_scan_selects_all(rest, children.drop_last());
        let a = assemble(planned, children);
        let r = assemble(rest, children);
        assert(all_selected_leaves(children[k]));
        if a.len() > r.len() {
            assert(a.drop_last() =~= r);
            let n = a.last();
            if n.is_dir {
                assert(n.children == children[k]);
            } else {
                assert(nodes_files_are_leaves(n.children));
                assert(nodes_file_count(n.children) == 0);
            }
            assert(n.file_count() == n.total_files());
            assert(n.files_are_leaves());
        } else {
            assert(a == r);
        }
    }
}

/// The nodes of the first entries do not depend on the children of later
/// ones.
proof fn lemma_assemble_prefix(planned: Seq<EntryView>, children: Seq<Seq<NodeModel>>)
    requires
        planned.len() < children.len(),
    ensures
        assemble(planned, children) == assemble(planned, children.drop_last()),
    decreases planned.len(),
{
    if planned.len() > 0 {
        lemma_assemble_prefix(planned.drop_last(), children);
        assert(children[planned.len() - 1] == children.drop_last()[planned.len() - 1]);
    }
}

/// In a sorted listing no file comes before a folder.
pub proof fn law_sorted_listing_folders_first(es: Seq<EntryView>, i: int, j: int)
    requires
        es.len() <= usize::MAX,
        0 <= i < j < sorted_listing(es).len(),
        sorted_listing(es)[j].2,
    ensures
        sorted_listing(es)[i].2,
{
    let ks = listing_keys(es).sort_by(key_order());
    crate::order::lemma_key_order_total();
    listing_keys(es).lemma_sort_by_ensures(key_order());
    assert(key_order()(ks[i], ks[j]));
    lemma_key_in_listing(es, ks, i);
    lemma_key_in_listing(es, ks, j);
}

proof fn lemma_key_in_listing(es: Seq<EntryView>, ks: Seq<KeyView>, k: int)
    requires
        es.len() <= usize::MAX,
        ks == listing_keys(es).sort_by(key_order()),
        0 <= k < ks.len(),
        listing_keys(es).to_multiset() =~= ks.to_multiset(),
    ensures
        0 <= ks[k].3 < es.len(),
        ks[k].0 == es[ks[k].3 as int].2,
{
    broadcast use vstd::seq_lib::group_to_multiset_ensures;

    assert(ks.to_multiset().contains(ks[k]));
    assert(listing_keys(es).contains(ks[k]));
    let m = choose|m: int| 0 <= m < listing_keys(es).len() && listing_keys(es)[m] == ks[k];
    assert(listing_keys(es)[m].3 == m as usize);
}


/// Every entry that a scan keeps passes the keep test, and comes from the
/// listing.
pub proof fn law_kept_entries(
    es: Seq<EntryView>,
    ignored_dirs: Seq<Seq<char>>,
    ignored_exts: Seq<Seq<char>>,
    filter: Option<Seq<Seq<char>>>,
)
    ensures
        forall|i: int|
            0 <= i < kept(es, ignored_dirs, ignored_exts, filter).len() ==> keeps(
                #[trigger] kept(es, ignored_dirs, ignored_exts, filter)[i],
                ignored_dirs,
                ignored_exts,
                filter,
            ) && es.contains(kept(es, ignored_dirs, ignored_exts, filter)[i]),
        kept(es, ignored_dirs, ignored_exts, filter).len() <= es.len(),
    decreases es.len(),
{
    if es.len() > 0 {
        let p = es.drop_last();
        law_kept_entries(p, ignored_dirs, ignored_exts, filter);
        let k = kept(es, ignored_dirs, ignored_exts, filter);
        let kp = kept(p, ignored_dirs, ignored_exts, filter);
        assert forall|i: int| 0 <= i < k.len() implies keeps(
            #[trigger] k[i],
            ignored_dirs,
            ignored_exts,
            filter,
        ) && es.contains(k[i]) by {
            if i < kp.len() {
                assert(k[i] == kp[i]);
                let j = choose|j: int| 0 <= j < p.len() && p[j] == kp[i];
                assert(es[j] == p[j]);
            } else {
                assert(k[i] == es.last());
                assert(es[es.len() - 1] == es.last());
            }
        }
    }
}

/// What decides whether a file stays: only its extension. Two files with
/// the same extension are kept or skipped alike, whatever their names (so
/// `.gitignore` is kept like any file whose extension is not ignored);
/// without a filter a file is kept exactly when its extension is not
/// ignored, with one exactly when it is also in the filter.
pub proof fn law_file_kept_by_extension(
    name1: Seq<char>,
    name2: Seq<char>,
    ext: Seq<char>,
    ignored_dirs: Seq<Seq<char>>,
    ignored_exts: Seq<Seq<char>>,
    filter: Option<Seq<Seq<char>>>,
)
    ensures
        keeps_given(false, name1, ext, ignored_dirs, ignored_exts, filter) == keeps_given(
            false,
            name2,
            ext,
            ignored_dirs,
            ignored_exts,
            filter,
        ),
        keeps_given(false, name1, ext, ignored_dirs, ignored_exts, None) <==> !ignored_exts.contains(
            ext,
        ),
        filter matches Some(f) ==> (keeps_given(false, name1, ext, ignored_dirs, ignored_exts, filter)
            <==> !ignored_exts.contains(ext) && f.contains(ext)),
{
}

/// What decides whether a folder stays: only its name, which must not be
/// ignored; extensions and the filter play no part.
pub proof fn law_folder_kept_by_name(
    name: Seq<char>,
    ext: Seq<char>,
    ignored_dirs: Seq<Seq<char>>,
    ignored_exts: Seq<Seq<char>>,
    filter: Option<Seq<Seq<char>>>,
)
    ensures
        keeps_given(true, name, ext, ignored_dirs, ignored_exts, filter) <==> !ignored_dirs.contains(
            name,
        ),
{
}

/// A scan loses no entry that passes: every entry of the listing that
/// passes the keep test is among the kept ones.
pub proof fn law_kept_complete(
    es: Seq<EntryView>,
    ignored_dirs: Seq<Seq<char>>,
    ignored_exts: Seq<Seq<char>>,
    filter: Option<Seq<Seq<char>>>,
)
    ensures
        forall|i: int|
            0 <= i < es.len() && keeps(#[trigger] es[i], ignored_dirs, ignored_exts, filter)
                ==> kept(es, ignored_dirs, ignored_exts, filter).contains(es[i]),
    decreases es.len(),
{
    if es.len() > 0 {
        let p = es.drop_last();
        law_kept_complete(p, ignored_dirs, ignored_exts, filter);
        let k = kept(es, ignored_dirs, ignored_exts, filter);
        let kp = kept(p, ignored_dirs, ignored_exts, filter);
        assert forall|i: int|
            0 <= i < es.len() && keeps(#[trigger] es[i], ignored_dirs, ignored_exts, filter)
                implies k.contains(es[i]) by {
            if i < es.len() - 1 {
                assert(p[i] == es[i]);
                let j = choose|j: int| 0 <= j < kp.len() && kp[j] == p[i];
                assert(k[j] == kp[j]);
            } else {
                assert(k[k.len() - 1] == es.last());
            }
        }
    }
}

} // verus!
