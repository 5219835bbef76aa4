//! The orders in which folder listings and tree lines are shown, and a
//! sort that provably produces them.

use vstd::prelude::*;
use vstd::multiset::Multiset;
use vstd::relations::{sorted_by, total_ordering};

verus! {

broadcast use vstd::seq_lib::group_to_multiset_ensures;

/// Lexicographic order of character sequences by code point; for strings
/// this is the order of `String`'s `Ord` (UTF-8 keeps code point order).
pub open spec fn chars_le(a: Seq<char>, b: Seq<char>) -> bool
    decreases a.len(),
{
    if a.len() == 0 {
        true
    } else if b.len() == 0 {
        false
    } else if a[0] != b[0] {
        (a[0] as int) < (b[0] as int)
    } else {
        chars_le(a.drop_first(), b.drop_first())
    }
}

pub proof fn lemma_chars_le_antisymmetric(a: Seq<char>, b: Seq<char>)
    requires
        chars_le(a, b),
        chars_le(b, a),
    ensures
        a == b,
    decreases a.len(),
{
    if a.len() > 0 && b.len() > 0 && a[0] == b[0] {
        lemma_chars_le_antisymmetric(a.drop_first(), b.drop_first());
        assert(a =~= seq![a[0]] + a.drop_first());
        assert(b =~= seq![b[0]] + b.drop_first());
    }
    if a.len() == 0 {
        assert(b =~= a);
    }
}

pub proof fn lemma_chars_le_transitive(a: Seq<char>, b: Seq<char>, c: Seq<char>)
    requires
        chars_le(a, b),
        chars_le(b, c),
    ensures
        chars_le(a, c),
    decreases a.len(),
{
    if a.len() > 0 && b.len() > 0 && c.len() > 0 && a[0] == b[0] && b[0] == c[0] {
        lemma_chars_le_transitive(a.drop_first(), b.drop_first(), c.drop_first());
    }
}

pub proof fn lemma_chars_le_total(a: Seq<char>, b: Seq<char>)
    ensures
        chars_le(a, b) || chars_le(b, a),
    decreases a.len(),
{
    if a.len() > 0 && b.len() > 0 && a[0] == b[0] {
        lemma_chars_le_total(a.drop_first(), b.drop_first());
    }
}

pub proof fn lemma_chars_le_reflexive(a: Seq<char>)
    ensures
        chars_le(a, a),
    decreases a.len(),
{
    if a.len() > 0 {
        lemma_chars_le_reflexive(a.drop_first());
    }
}

/// Whether `a` comes before `b` or equals it, by code point.
pub fn chars_le_exec(a: &Vec<char>, b: &Vec<char>) -> (r: bool)
    ensures
        r == chars_le(a@, b@),
{
    let mut i: usize = 0;
    assert(a@.skip(0) =~= a@);
    assert(b@.skip(0) =~= b@);
    while i < a.len() && i < b.len() && a[i] == b[i]
        invariant
            i <= a.len(),
            i <= b.len(),
            a@.take(i as int) == b@.take(i as int),
            chars_le(a@, b@) == chars_le(a@.skip(i as int), b@.skip(i as int)),
        decreases a.len() - i,
    {
        assert(a@.skip(i as int).drop_first() =~= a@.skip(i + 1));
        assert(b@.skip(i as int).drop_first() =~= b@.skip(i + 1));
        assert(a@.take(i + 1) =~= a@.take(i as int).push(a@[i as int]));
        assert(b@.take(i + 1) =~= b@.take(i as int).push(b@[i as int]));
        i += 1;
    }
    if i == a.len() {
        true
    } else if i == b.len() {
        false
    } else {
        assert(a@.skip(i as int)[0] == a@[i as int]);
        assert(b@.skip(i as int)[0] == b@[i as int]);
        a[i] < b[i]
    }
}

/// The sort key of an entry: entries with `first` set come first, then by
/// `lower`, then by `name`, then by `index`.
pub struct SortKey {
    pub first: bool,
    pub lower: Vec<char>,
    pub name: Vec<char>,
    pub index: usize,
}

/// The value of a [`SortKey`].
pub type KeyView = (bool, Seq<char>, Seq<char>, usize);

impl SortKey {
    pub open spec fn key(&self) -> KeyView {
        (self.first, self.lower@, self.name@, self.index)
    }
}

pub open spec fn key_views(s: Seq<SortKey>) -> Seq<KeyView> {
    s.map_values(|k: SortKey| k.key())
}

/// The order of sort keys (a total order).
pub open spec fn key_le(x: KeyView, y: KeyView) -> bool {
    if x.0 != y.0 {
        x.0
    } else if x.1 != y.1 {
        chars_le(x.1, y.1)
    } else if x.2 != y.2 {
        chars_le(x.2, y.2)
    } else {
        x.3 <= y.3
    }
}

pub open spec fn key_order() -> spec_fn(KeyView, KeyView) -> bool {
    |x: KeyView, y: KeyView| key_le(x, y)
}

pub proof fn lemma_key_order_total()
    ensures
        total_ordering(key_order()),
{
    assert forall|x: KeyView| #[trigger] key_order()(x, x) by {
        lemma_chars_le_reflexive(x.1);
    }
    assert forall|x: KeyView, y: KeyView|
        #[trigger] key_order()(x, y) && #[trigger] key_order()(y, x) implies x == y by {
        if x.1 != y.1 {
            lemma_chars_le_antisymmetric(x.1, y.1);
        }
        if x.2 != y.2 {
            lemma_chars_le_antisymmetric(x.2, y.2);
        }
    }
    assert forall|x: KeyView, y: KeyView, z: KeyView|
        #[trigger] key_order()(x, y) && #[trigger] key_order()(y, z) implies key_order()(x, z) by {
        if x.0 == y.0 && y.0 == z.0 {
            if x.1 != y.1 && y.1 != z.1 {
                lemma_chars_le_transitive(x.1, y.1, z.1);
                if x.1 == z.1 {
                    lemma_chars_le_antisymmetric(x.1, y.1);
                }
            } else if x.1 == y.1 && y.1 == z.1 {
                if x.2 != y.2 && y.2 != z.2 {
                    lemma_chars_le_transitive(x.2, y.2, z.2);
                    if x.2 == z.2 {
                        lemma_chars_le_antisymmetric(x.2, y.2);
                    }
                }
            }
        }
    }
    assert forall|x: KeyView, y: KeyView| #[trigger] key_order()(x, y) || #[trigger] key_order()(
        y,
        x,
    ) by {
        lemma_chars_le_total(x.1, y.1);
        lemma_chars_le_total(x.2, y.2);
    }
}

/// Whether key `a` comes before key `b` or equals it.
pub fn key_le_exec(a: &SortKey, b: &SortKey) -> (r: bool)
    ensures
        r == key_le(a.key(), b.key()),
{
    if a.first != b.first {
        return a.first;
    }
    let lower_le = chars_le_exec(&a.lower, &b.lower);
    let lower_ge = chars_le_exec(&b.lower, &a.lower);
    if !(lower_le && lower_ge) {
        proof {
            if a.lower@ == b.lower@ {
                lemma_chars_le_reflexive(a.lower@);
            }
        }
        return lower_le;
    }
    proof {
        lemma_chars_le_antisymmetric(a.lower@, b.lower@);
    }
    let name_le = chars_le_exec(&a.name, &b.name);
    let name_ge = chars_le_exec(&b.name, &a.name);
    if !(name_le && name_ge) {
        proof {
            if a.name@ == b.name@ {
                lemma_chars_le_reflexive(a.name@);
            }
        }
        return name_le;
    }
    proof {
        lemma_chars_le_antisymmetric(a.name@, b.name@);
    }
    a.index <= b.index
}

/// Sorts the keys into the order [`key_le`]; since that order is total,
/// the result is the one sorted arrangement of the keys.
pub fn sort_keys(v: Vec<SortKey>) -> (r: Vec<SortKey>)
    ensures
        key_views(r@) == key_views(v@).sort_by(key_order()),
{
    let ghost orig = key_views(v@);
    let mut rest = v;
    let mut sorted: Vec<SortKey> = Vec::new();
    proof {
        lemma_key_order_total();
    }
    while rest.len() > 0
        invariant
            total_ordering(key_order()),
            sorted_by(key_views(sorted@), key_order()),
            key_views(sorted@).to_multiset().add(key_views(rest@).to_multiset())
                == orig.to_multiset(),
        decreases rest.len(),
    {
        let ghost old_rest = key_views(rest@);
        let ghost old_sorted = key_views(sorted@);
        let x = rest.pop().unwrap();
        assert(old_rest =~= key_views(rest@).push(x.key()));
        let mut j: usize = 0;
        while j < sorted.len() && !key_le_exec(&x, &sorted[j])
            invariant
                j <= sorted.len(),
                key_views(sorted@) == old_sorted,
                forall|k: int| 0 <= k < j ==> !key_le(x.key(), #[trigger] old_sorted[k]),
            decreases sorted.len() - j,
        {
            j += 1;
        }
        sorted.insert(j, x);
        let ghost new_sorted = key_views(sorted@);
        assert(new_sorted =~= old_sorted.insert(j as int, x.key()));
        assert forall|a: int, b: int| 0 <= a < b < new_sorted.len() implies #[trigger] key_order()(
            new_sorted[a],
            new_sorted[b],
        ) by {
            if a < j && b == j {
                assert(!key_order()(x.key(), old_sorted[a]));
                assert(key_order()(x.key(), old_sorted[a]) || key_order()(old_sorted[a], x.key()));
            } else if a == j && b > j {
                assert(key_order()(x.key(), old_sorted[j as int]));
                if b - 1 > j {
                    assert(key_order()(old_sorted[j as int], old_sorted[b - 1]));
                }
            } else if a < j && b > j {
                assert(key_order()(old_sorted[a], old_sorted[b - 1]));
            } else if a > j {
                assert(key_order()(old_sorted[a - 1], old_sorted[b - 1]));
            } else {
                assert(key_order()(old_sorted[a], old_sorted[b]));
            }
        }
        assert(key_views(sorted@).to_multiset() == old_sorted.to_multiset().insert(x.key()));
        assert(old_rest.to_multiset() == key_views(rest@).to_multiset().insert(x.key()));
        assert(key_views(sorted@).to_multiset().add(key_views(rest@).to_multiset())
            =~= old_sorted.to_multiset().add(old_rest.to_multiset()));
    }
    assert(key_views(rest@).to_multiset() =~= Multiset::empty());
    assert(key_views(sorted@).to_multiset() =~= orig.to_multiset());
    proof {
        orig.lemma_sort_by_ensures(key_order());
        vstd::seq_lib::lemma_sorted_unique(key_views(sorted@), orig.sort_by(key_order()), key_order());
    }
    sorted
}

} // verus!
