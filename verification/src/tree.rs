//! The selectable file tree: nodes for folders and files, each with a
//! check box, and the operations that count, toggle and collect them.

use vstd::prelude::*;

verus! {

/// The mathematical value of a [`FileNode`]: the same fields, with strings
/// as character sequences and the children as a sequence of models.
#[verifier::ext_equal]
pub struct NodeModel {
    pub name: Seq<char>,
    pub path: Seq<char>,
    pub is_dir: bool,
    pub checked: bool,
    pub children: Seq<NodeModel>,
    pub expanded: bool,
}

/// A node of the project's file tree: a folder (`is_dir`) with its
/// children, or a file.
pub struct FileNode {
    pub name: String,
    pub path: String,
    pub is_dir: bool,
    pub checked: bool,
    pub children: Vec<FileNode>,
    pub expanded: bool,
}

/// A placeholder model, used only outside the valid index range of a
/// sequence of children.
pub open spec fn blank_model() -> NodeModel {
    NodeModel {
        name: Seq::empty(),
        path: Seq::empty(),
        is_dir: false,
        checked: false,
        children: Seq::empty(),
        expanded: false,
    }
}

impl FileNode {
    pub open spec fn model(self) -> NodeModel
        decreases self,
    {
        NodeModel {
            name: self.name@,
            path: self.path@,
            is_dir: self.is_dir,
            checked: self.checked,
            children: Seq::new(
                self.children@.len(),
                |i: int|
                    if 0 <= i < self.children@.len() {
                        self.children@[i].model()
                    } else {
                        blank_model()
                    },
            ),
            expanded: self.expanded,
        }
    }
}

impl View for FileNode {
    type V = NodeModel;

    open spec fn view(&self) -> NodeModel {
        self.model()
    }
}

/// Number of checked files among `nodes` and their descendants.
pub open spec fn nodes_file_count(nodes: Seq<NodeModel>) -> nat
    decreases nodes,
{
    if nodes.len() == 0 {
        0
    } else {
        nodes_file_count(nodes.drop_last()) + nodes.last().file_count()
    }
}

/// Number of files among `nodes` and their descendants.
pub open spec fn nodes_total_files(nodes: Seq<NodeModel>) -> nat
    decreases nodes,
{
    if nodes.len() == 0 {
        0
    } else {
        nodes_total_files(nodes.drop_last()) + nodes.last().total_files()
    }
}

/// Paths of the checked files among `nodes` and their descendants, in
/// depth-first order.
pub open spec fn nodes_checked_paths(nodes: Seq<NodeModel>) -> Seq<Seq<char>>
    decreases nodes,
{
    if nodes.len() == 0 {
        Seq::empty()
    } else {
        nodes_checked_paths(nodes.drop_last()) + nodes.last().checked_paths()
    }
}

/// No file among `nodes` (or below) has children.
pub open spec fn nodes_files_are_leaves(nodes: Seq<NodeModel>) -> bool
    decreases nodes,
{
    nodes.len() == 0 || (nodes_files_are_leaves(nodes.drop_last())
        && nodes.last().files_are_leaves())
}

/// Every file among `nodes` is checked (looking below folders only, as
/// the counts do).
pub open spec fn nodes_all_files_checked(nodes: Seq<NodeModel>) -> bool
    decreases nodes,
{
    nodes.len() == 0 || (nodes_all_files_checked(nodes.drop_last())
        && nodes.last().all_files_checked())
}

/// Whether some node of `nodes` (or below) matches the search term.
pub open spec fn nodes_match(nodes: Seq<NodeModel>, term: Seq<char>) -> bool
    decreases nodes,
{
    if nodes.len() == 0 {
        false
    } else {
        nodes_match(nodes.drop_last(), term) || nodes.last().matches(term)
    }
}

impl NodeModel {
    /// No file in the node has children, as in every tree that a folder
    /// scan builds.
    pub open spec fn files_are_leaves(self) -> bool
        decreases self,
    {
        (!self.is_dir ==> self.children.len() == 0) && nodes_files_are_leaves(self.children)
    }

    /// Every file of the node is checked: the node itself when it is a
    /// file, every file below it when it is a folder.
    pub open spec fn all_files_checked(self) -> bool
        decreases self,
    {
        if self.is_dir {
            nodes_all_files_checked(self.children)
        } else {
            self.checked
        }
    }

    /// A file counts 1 when checked; a folder counts its descendants.
    pub open spec fn file_count(self) -> nat
        decreases self,
    {
        if !self.is_dir {
            if self.checked {
                1
            } else {
                0
            }
        } else {
            nodes_file_count(self.children)
        }
    }

    /// A file counts 1; a folder counts the files below it.
    pub open spec fn total_files(self) -> nat
        decreases self,
    {
        if !self.is_dir {
            1
        } else {
            nodes_total_files(self.children)
        }
    }

    /// The node with every check box in it set to `state`.
    pub open spec fn with_checked(self, state: bool) -> NodeModel
        decreases self,
    {
        NodeModel {
            checked: state,
            children: Seq::new(
                self.children.len(),
                |i: int|
                    if 0 <= i < self.children.len() {
                        self.children[i].with_checked(state)
                    } else {
                        blank_model()
                    },
            ),
            ..self
        }
    }

    /// The node with the check box of every file in it flipped; folders
    /// keep theirs.
    pub open spec fn inverted(self) -> NodeModel
        decreases self,
    {
        NodeModel {
            checked: if self.is_dir {
                self.checked
            } else {
                !self.checked
            },
            children: Seq::new(
                self.children.len(),
                |i: int|
                    if 0 <= i < self.children.len() {
                        self.children[i].inverted()
                    } else {
                        blank_model()
                    },
            ),
            ..self
        }
    }

    /// Paths of the checked files in the node, depth first.
    pub open spec fn checked_paths(self) -> Seq<Seq<char>>
        decreases self,
    {
        let own: Seq<Seq<char>> = if !self.is_dir && self.checked {
            seq![self.path]
        } else {
            Seq::empty()
        };
        own + nodes_checked_paths(self.children)
    }

    /// Whether the node is shown for the search term: every node for an
    /// empty term, a file whose lower-cased name contains the term, a
    /// folder with such a node below it.
    pub open spec fn matches(self, term: Seq<char>) -> bool
        decreases self,
    {
        if term.len() == 0 {
            true
        } else if !self.is_dir {
            crate::text::seq_contains(crate::text::lowercase(self.name), term)
        } else {
            nodes_match(self.children, term)
        }
    }
}


/// Going from the first `k` nodes to the first `k + 1` adds what node `k`
/// contributes to each count, to the collected paths and to the search.
pub proof fn lemma_nodes_step(s: Seq<NodeModel>, k: int)
    requires
        0 <= k < s.len(),
    ensures
        nodes_file_count(s.take(k + 1)) == nodes_file_count(s.take(k)) + s[k].file_count(),
        nodes_total_files(s.take(k + 1)) == nodes_total_files(s.take(k)) + s[k].total_files(),
        nodes_checked_paths(s.take(k + 1)) == nodes_checked_paths(s.take(k))
            + s[k].checked_paths(),
        forall|term: Seq<char>|
            nodes_match(s.take(k + 1), term) == (nodes_match(s.take(k), term) || s[k].matches(
                term,
            )),
{
    assert(s.take(k + 1).drop_last() =~= s.take(k));
}

/// A prefix of the nodes counts no more than all of them.
pub proof fn lemma_prefix_counts(s: Seq<NodeModel>, k: int)
    requires
        0 <= k <= s.len(),
    ensures
        nodes_file_count(s.take(k)) <= nodes_file_count(s),
        nodes_total_files(s.take(k)) <= nodes_total_files(s),
    decreases s.len(),
{
    if k == s.len() {
        assert(s.take(k) =~= s);
    } else {
        lemma_prefix_counts(s.drop_last(), k);
        assert(s.drop_last().take(k) =~= s.take(k));
    }
}

impl FileNode {
    /// Number of checked files in the node (1 or 0 for a file).
    pub fn file_count(&self) -> (r: usize)
        requires
            self@.file_count() <= usize::MAX,
        ensures
            r == self@.file_count(),
    {
        self.try_file_count().unwrap()
    }

    /// Number of checked files in the node, or `None` when it does not fit
    /// in a `usize`.
    pub fn try_file_count(&self) -> (r: Option<usize>)
        ensures
            match r {
                Some(c) => c == self@.file_count(),
                None => self@.file_count() > usize::MAX,
            },
        decreases self,
    {
        if !self.is_dir {
            return Some(
                if self.checked {
                    1
                } else {
                    0
                },
            );
        }
        let mut sum: usize = 0;
        let mut i: usize = 0;
        while i < self.children.len()
            invariant
                self.is_dir,
                i <= self.children.len(),
                sum == nodes_file_count(self@.children.take(i as int)),
            decreases self.children.len() - i,
        {
            proof {
                lemma_nodes_step(self@.children, i as int);
                lemma_prefix_counts(self@.children, i + 1);
            }
            match self.children[i].try_file_count() {
                Some(c) => match sum.checked_add(c) {
                    Some(t) => {
                        sum = t;
                    },
                    None => {
                        return None;
                    },
                },
                None => {
                    return None;
                },
            }
            i += 1;
        }
        assert(self@.children.take(i as int) =~= self@.children);
        Some(sum)
    }

    /// Number of files in the node, or `None` when it does not fit in a
    /// `usize`.
    pub fn try_total_files(&self) -> (r: Option<usize>)
        ensures
            match r {
                Some(c) => c == self@.total_files(),
                None => self@.total_files() > usize::MAX,
            },
        decreases self,
    {
        if !self.is_dir {
            return Some(1);
        }
        let mut sum: usize = 0;
        let mut i: usize = 0;
        while i < self.children.len()
            invariant
                self.is_dir,
                i <= self.children.len(),
                sum == nodes_total_files(self@.children.take(i as int)),
            decreases self.children.len() - i,
        {
            proof {
                lemma_nodes_step(self@.children, i as int);
                lemma_prefix_counts(self@.children, i + 1);
            }
            match self.children[i].try_total_files() {
                Some(c) => match sum.checked_add(c) {
                    Some(t) => {
                        sum = t;
                    },
                    None => {
                        return None;
                    },
                },
                None => {
                    return None;
                },
            }
            i += 1;
        }
        assert(self@.children.take(i as int) =~= self@.children);
        Some(sum)
    }

    /// Number of files in the node, checked or not (1 for a file).
    pub fn total_files(&self) -> (r: usize)
        requires
            self@.total_files() <= usize::MAX,
        ensures
            r == self@.total_files(),
    {
        self.try_total_files().unwrap()
    }
}


impl FileNode {
    /// Sets the check box of the node and of everything below it.
    pub fn set_checked(&mut self, state: bool)
        ensures
            final(self)@ == old(self)@.with_checked(state),
        decreases *old(self),
    {
        self.checked = state;
        let n = self.children.len();
        let mut i: usize = 0;
        while i < n
            invariant
                n == self.children.len(),
                n == old(self).children.len(),
                i <= n,
                self.name == old(self).name,
                self.path == old(self).path,
                self.is_dir == old(self).is_dir,
                self.expanded == old(self).expanded,
                self.checked == state,
                forall|j: int|
                    0 <= j < i ==> #[trigger] self.children@[j]@ == old(self).children@[j]@.with_checked(
                        state,
                    ),
                forall|j: int| i <= j < n ==> #[trigger] self.children@[j] == old(self).children@[j],
            decreases n - i,
        {
            assert(self.children@[i as int] == old(self).children@[i as int]);
            self.children[i].set_checked(state);
            i += 1;
        }
        assert forall|j: int| 0 <= j < n implies #[trigger] self@.children[j] == old(
            self,
        )@.with_checked(state).children[j] by {
            assert(self@.children[j] == self.children@[j]@);
            assert(old(self)@.children[j] == old(self).children@[j]@);
        }
        assert(self@.children =~= old(self)@.with_checked(state).children);
    }

    /// Flips the check box of every file in the node; folders keep theirs.
    pub fn invert_files(&mut self)
        ensures
            final(self)@ == old(self)@.inverted(),
        decreases *old(self),
    {
        if !self.is_dir {
            self.checked = !self.checked;
        }
        let n = self.children.len();
        let mut i: usize = 0;
        while i < n
            invariant
                n == self.children.len(),
                n == old(self).children.len(),
                i <= n,
                self.name == old(self).name,
                self.path == old(self).path,
                self.is_dir == old(self).is_dir,
                self.expanded == old(self).expanded,
                self.checked == old(self)@.inverted().checked,
                forall|j: int|
                    0 <= j < i ==> #[trigger] self.children@[j]@ == old(self).children@[j]@.inverted(),
                forall|j: int| i <= j < n ==> #[trigger] self.children@[j] == old(self).children@[j],
            decreases n - i,
        {
            assert(self.children@[i as int] == old(self).children@[i as int]);
            self.children[i].invert_files();
            i += 1;
        }
        assert forall|j: int| 0 <= j < n implies #[trigger] self@.children[j] == old(
            self,
        )@.inverted().children[j] by {
            assert(self@.children[j] == self.children@[j]@);
            assert(old(self)@.children[j] == old(self).children@[j]@);
        }
        assert(self@.children =~= old(self)@.inverted().children);
    }

    /// Paths of the checked files in the node, depth first.
    pub fn collect_checked_files(&self) -> (r: Vec<String>)
        ensures
            r@.map_values(|p: String| p@) == self@.checked_paths(),
        decreases self,
    {
        let mut result: Vec<String> = Vec::new();
        if !self.is_dir && self.checked {
            result.push(self.path.clone());
        }
        let ghost own = result@.map_values(|p: String| p@);
        assert(own =~= self@.checked_paths().take(own.len() as int)) by {
            assert(nodes_checked_paths(self@.children.take(0)) =~= Seq::<Seq<char>>::empty());
        }
        let mut i: usize = 0;
        while i < self.children.len()
            invariant
                i <= self.children.len(),
                own == (if !self.is_dir && self.checked {
                    seq![self.path@]
                } else {
                    Seq::<Seq<char>>::empty()
                }),
                result@.map_values(|p: String| p@) == own + nodes_checked_paths(
                    self@.children.take(i as int),
                ),
            decreases self.children.len() - i,
        {
            proof {
                lemma_nodes_step(self@.children, i as int);
            }
            let mut sub = self.children[i].collect_checked_files();
            let ghost before = result@.map_values(|p: String| p@);
            let ghost added = sub@.map_values(|p: String| p@);
            result.append(&mut sub);
            assert(result@.map_values(|p: String| p@) =~= before + added);
            i += 1;
        }
        assert(self@.children.take(i as int) =~= self@.children);
        result
    }

    /// Whether the node is shown for the search term `term` (which the
    /// caller has already lower-cased): every node when `term` is empty, a
    /// file whose lower-cased name contains `term`, a folder with such a
    /// file below it.
    pub fn matches_search(&self, term: &str) -> (r: bool)
        ensures
            r == self@.matches(term@),
        decreases self,
    {
        let t = crate::text::chars_of(term);
        self.matches_chars(&t)
    }

    fn matches_chars(&self, term: &Vec<char>) -> (r: bool)
        ensures
            r == self@.matches(term@),
        decreases self,
    {
        if term.len() == 0 {
            return true;
        }
        if !self.is_dir {
            let lower = crate::text::to_lower(self.name.as_str());
            let name_chars = crate::text::chars_of(lower.as_str());
            return crate::text::contains_seq(&name_chars, term);
        }
        let mut i: usize = 0;
        while i < self.children.len()
            invariant
                self.is_dir,
                term.len() > 0,
                i <= self.children.len(),
                !nodes_match(self@.children.take(i as int), term@),
            decreases self.children.len() - i,
        {
            proof {
                lemma_nodes_step(self@.children, i as int);
            }
            if self.children[i].matches_chars(term) {
                proof {
                    lemma_prefix_match(self@.children, i + 1, term@);
                }
                return true;
            }
            i += 1;
        }
        assert(self@.children.take(i as int) =~= self@.children);
        false
    }
}

/// A match among the first `k` nodes is a match among all of them.
pub proof fn lemma_prefix_match(s: Seq<NodeModel>, k: int, term: Seq<char>)
    requires
        0 <= k <= s.len(),
        nodes_match(s.take(k), term),
    ensures
        nodes_match(s, term),
    decreases s.len(),
{
    if k == s.len() {
        assert(s.take(k) =~= s);
    } else {
        assert(s.drop_last().take(k) =~= s.take(k));
        lemma_prefix_match(s.drop_last(), k, term);
    }
}


/// Searching by name: a file is shown for a non-empty term exactly when the
/// term occurs somewhere in its lower-cased name, at any position (so
/// "rs" finds "main.rs"); an empty term shows every node.
pub proof fn law_search_finds_term_anywhere(n: NodeModel, term: Seq<char>)
    ensures
        n.matches(Seq::<char>::empty()),
        !n.is_dir && term.len() > 0 ==> (n.matches(term) <==> exists|i: int|
            0 <= i && i + term.len() <= crate::text::lowercase(n.name).len()
                && #[trigger] crate::text::lowercase(n.name).subrange(i, i + term.len()) == term),
{
    let l = crate::text::lowercase(n.name);
    if !n.is_dir && term.len() > 0 {
        if n.matches(term) {
            let i = choose|i: int| crate::text::occurs_at(l, term, i);
            assert(l.subrange(i, i + term.len()) == term);
        }
        if exists|i: int| 0 <= i && i + term.len() <= l.len() && #[trigger] l.subrange(i, i + term.len())
            == term {
            let i = choose|i: int|
                0 <= i && i + term.len() <= l.len() && #[trigger] l.subrange(i, i + term.len()) == term;
            assert(crate::text::occurs_at(l, term, i));
        }
    }
}

/// A file whose lower-cased name ends with the term is found.
pub proof fn law_search_finds_suffix(n: NodeModel, head: Seq<char>, term: Seq<char>)
    requires
        !n.is_dir,
        crate::text::lowercase(n.name) == head + term,
    ensures
        n.matches(term),
{
    let l = crate::text::lowercase(n.name);
    if term.len() > 0 {
        assert(l.subrange(head.len() as int, (head.len() + term.len()) as int) =~= term);
        assert(crate::text::occurs_at(l, term, head.len() as int));
    }
}

/// A folder is shown for a non-empty term exactly when some node directly
/// below it is shown.
pub proof fn law_search_folder(n: NodeModel, term: Seq<char>)
    requires
        n.is_dir,
        term.len() > 0,
    ensures
        n.matches(term) <==> exists|j: int| 0 <= j < n.children.len() && #[trigger] n.children[j].matches(term),
{
    lemma_nodes_match_some(n.children, term);
}

proof fn lemma_nodes_match_some(s: Seq<NodeModel>, term: Seq<char>)
    ensures
        nodes_match(s, term) <==> exists|j: int| 0 <= j < s.len() && #[trigger] s[j].matches(term),
    decreases s.len(),
{
    if s.len() > 0 {
        let p = s.drop_last();
        lemma_nodes_match_some(p, term);
        if s.last().matches(term) {
            assert(s[s.len() - 1].matches(term));
        }
        if exists|j: int| 0 <= j < p.len() && #[trigger] p[j].matches(term) {
            let j = choose|j: int| 0 <= j < p.len() && #[trigger] p[j].matches(term);
            assert(s[j] == p[j]);
        }
        if exists|j: int| 0 <= j < s.len() && #[trigger] s[j].matches(term) {
            let j = choose|j: int| 0 <= j < s.len() && #[trigger] s[j].matches(term);
            if j < s.len() - 1 {
                assert(p[j] == s[j]);
            }
        }
    }
}

/// A node never has more checked files than files.
pub proof fn law_checked_at_most_total(n: NodeModel)
    ensures
        n.file_count() <= n.total_files(),
    decreases n,
{
    if n.is_dir {
        law_nodes_checked_at_most_total(n.children);
    }
}

/// Among any nodes, the checked files are no more than the files.
pub proof fn law_nodes_checked_at_most_total(s: Seq<NodeModel>)
    ensures
        nodes_file_count(s) <= nodes_total_files(s),
    decreases s,
{
    if s.len() > 0 {
        law_nodes_checked_at_most_total(s.drop_last());
        law_checked_at_most_total(s.last());
    }
}

/// A node has as many checked files as files exactly when every one of its
/// files is checked.
pub proof fn law_all_checked_iff_counts_equal(n: NodeModel)
    ensures
        n.file_count() == n.total_files() <==> n.all_files_checked(),
    decreases n,
{
    if n.is_dir {
        law_nodes_all_checked_iff_counts_equal(n.children);
    }
}

/// Among nodes, the checked files are as many as the files exactly when
/// every file is checked.
pub proof fn law_nodes_all_checked_iff_counts_equal(s: Seq<NodeModel>)
    ensures
        nodes_file_count(s) == nodes_total_files(s) <==> nodes_all_files_checked(s),
    decreases s,
{
    if s.len() > 0 {
        law_nodes_all_checked_iff_counts_equal(s.drop_last());
        law_all_checked_iff_counts_equal(s.last());
        law_nodes_checked_at_most_total(s.drop_last());
        law_checked_at_most_total(s.last());
    }
}

/// Checking everything selects every file ("All"); unchecking everything
/// selects none ("None"); neither changes how many files there are.
pub proof fn law_set_checked_counts(n: NodeModel, state: bool)
    ensures
        n.with_checked(state).total_files() == n.total_files(),
        n.with_checked(state).file_count() == (if state {
            n.total_files()
        } else {
            0
        }),
    decreases n,
{
    if n.is_dir {
        lemma_nodes_set_checked_counts(n.children, n.with_checked(state).children, state);
    }
}

proof fn lemma_nodes_set_checked_counts(s: Seq<NodeModel>, t: Seq<NodeModel>, state: bool)
    requires
        s.len() == t.len(),
        forall|i: int| 0 <= i < s.len() ==> #[trigger] t[i] == s[i].with_checked(state),
    ensures
        nodes_total_files(t) == nodes_total_files(s),
        nodes_file_count(t) == (if state {
            nodes_total_files(s)
        } else {
            0
        }),
    decreases s,
{
    if s.len() > 0 {
        let k = s.len() - 1;
        assert(t[k] == s[k].with_checked(state));
        lemma_nodes_set_checked_counts(s.drop_last(), t.drop_last(), state);
        law_set_checked_counts(s.last(), state);
    }
}

/// Unchecking everything ("None") leaves no file to collect.
pub proof fn law_uncheck_collects_nothing(n: NodeModel)
    ensures
        n.with_checked(false).checked_paths() == Seq::<Seq<char>>::empty(),
    decreases n,
{
    lemma_nodes_uncheck_collects_nothing(n.children, n.with_checked(false).children);
    assert(n.with_checked(false).checked_paths() =~= Seq::<Seq<char>>::empty());
}

proof fn lemma_nodes_uncheck_collects_nothing(s: Seq<NodeModel>, t: Seq<NodeModel>)
    requires
        s.len() == t.len(),
        forall|i: int| 0 <= i < s.len() ==> #[trigger] t[i] == s[i].with_checked(false),
    ensures
        nodes_checked_paths(t) == Seq::<Seq<char>>::empty(),
    decreases s,
{
    if s.len() > 0 {
        let k = s.len() - 1;
        assert(t[k] == s[k].with_checked(false));
        lemma_nodes_uncheck_collects_nothing(s.drop_last(), t.drop_last());
        law_uncheck_collects_nothing(s.last());
        assert(nodes_checked_paths(t) =~= Seq::<Seq<char>>::empty());
    }
}

/// Inverting the selection twice gives back the original tree.
pub proof fn law_invert_twice(n: NodeModel)
    ensures
        n.inverted().inverted() == n,
    decreases n,
{
    let m = n.inverted().inverted();
    assert forall|i: int| 0 <= i < n.children.len() implies #[trigger] m.children[i]
        == n.children[i] by {
        assert(n.inverted().children[i] == n.children[i].inverted());
        law_invert_twice(n.children[i]);
    }
    assert(m.children =~= n.children);
}

/// After inverting, the checked files are exactly the files that were not
/// checked before; the number of files stays the same.
pub proof fn law_invert_counts(n: NodeModel)
    ensures
        n.inverted().total_files() == n.total_files(),
        n.inverted().file_count() + n.file_count() == n.total_files(),
    decreases n,
{
    if n.is_dir {
        lemma_nodes_invert_counts(n.children, n.inverted().children);
    }
}

proof fn lemma_nodes_invert_counts(s: Seq<NodeModel>, t: Seq<NodeModel>)
    requires
        s.len() == t.len(),
        forall|i: int| 0 <= i < s.len() ==> #[trigger] t[i] == s[i].inverted(),
    ensures
        nodes_total_files(t) == nodes_total_files(s),
        nodes_file_count(t) + nodes_file_count(s) == nodes_total_files(s),
    decreases s,
{
    if s.len() > 0 {
        let k = s.len() - 1;
        assert(t[k] == s[k].inverted());
        lemma_nodes_invert_counts(s.drop_last(), t.drop_last());
        law_invert_counts(s.last());
    }
}

/// In a tree whose files have no children, the collected paths are one
/// per checked file.
pub proof fn law_collected_len(n: NodeModel)
    requires
        n.files_are_leaves(),
    ensures
        n.checked_paths().len() == n.file_count(),
    decreases n,
{
    law_nodes_collected_len(n.children);
}

/// Among nodes whose files have no children, the collected paths are one
/// per checked file.
pub proof fn law_nodes_collected_len(s: Seq<NodeModel>)
    requires
        nodes_files_are_leaves(s),
    ensures
        nodes_checked_paths(s).len() == nodes_file_count(s),
    decreases s,
{
    if s.len() > 0 {
        law_nodes_collected_len(s.drop_last());
        law_collected_len(s.last());
    }
}

} // verus!
