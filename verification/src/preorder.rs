//! Why a listing that can be laid out is a preorder walk of its tree.
//!
//! Where every entry finds its directory open, the entries below a
//! directory follow it without a gap, the first of them is its child, and
//! behind the subtree of a child the next child follows.

use crate::layout::{encodable, extent, has_parent, is_parent_at, lemma_parent_unique, lemma_run_end_bounds, parent_record};
use crate::path::{is_ancestor, is_valid_path, lemma_ancestor_transitive, lemma_parent_longest, lemma_parent_name, parent_of};
use crate::trie::is_listing;
use vstd::prelude::*;

verus! {

/// No two entries have the same path.
pub open spec fn distinct_paths(es: Seq<(Seq<char>, Option<Seq<u8>>)>) -> bool {
    forall|i: int, j: int| 0 <= i < j < es.len() ==> #[trigger] es[i].0 != #[trigger] es[j].0
}

/// Every entry's path is a valid path.
pub open spec fn valid_paths(es: Seq<(Seq<char>, Option<Seq<u8>>)>) -> bool {
    forall|i: int| 0 <= i < es.len() ==> is_valid_path(#[trigger] es[i].0)
}

/// A listing of valid, distinct paths that can be laid out.
pub open spec fn is_preorder(es: Seq<(Seq<char>, Option<Seq<u8>>)>) -> bool {
    encodable(es) && distinct_paths(es) && valid_paths(es)
}

/// The path of directory `j`, where -1 stands for the root.
pub open spec fn dir_path(es: Seq<(Seq<char>, Option<Seq<u8>>)>, j: int) -> Seq<char> {
    if j < 0 {
        Seq::empty()
    } else {
        es[j].0
    }
}

/// One past the last entry below directory `j`, where -1 stands for the root.
pub open spec fn dir_end(es: Seq<(Seq<char>, Option<Seq<u8>>)>, j: int) -> int {
    if j < 0 {
        es.len() as int
    } else {
        extent(es, j)
    }
}

/// Entry `i` lies directly in directory `j`, where -1 stands for the root.
pub open spec fn child_of(es: Seq<(Seq<char>, Option<Seq<u8>>)>, i: int, j: int) -> bool {
    parent_record(es, i) == j + 1
}

/// The entry behind entry `i` and what lies below it.
pub open spec fn next_after(es: Seq<(Seq<char>, Option<Seq<u8>>)>, i: int) -> int {
    if es[i].1.is_some() {
        i + 1
    } else {
        extent(es, i)
    }
}

/// The entries of a sorted listing have distinct paths.
pub proof fn lemma_listing_distinct(es: Seq<(Seq<char>, Option<Seq<u8>>)>, m: Map<Seq<char>, Option<Seq<u8>>>)
    requires
        is_listing(es, m),
    ensures
        distinct_paths(es),
{
    assert forall|i: int, j: int| 0 <= i < j < es.len() implies #[trigger] es[i].0 != #[trigger] es[j].0 by {
        crate::order::lemma_bytes_lt_irreflexive(vstd::utf8::encode_utf8(es[i].0));
    }
}

/// Two paths are not each other's ancestors.
pub proof fn lemma_no_mutual_ancestors(a: Seq<char>, b: Seq<char>)
    requires
        is_ancestor(a, b),
    ensures
        !is_ancestor(b, a),
        a != b,
{
}

/// What lies directly in a directory: where entry `k` finds `j` open as
/// its directory, it is a child of `j`, and its parent's path is `j`'s.
pub proof fn lemma_child_of(es: Seq<(Seq<char>, Option<Seq<u8>>)>, k: int, j: int)
    requires
        is_preorder(es),
        0 <= k < es.len(),
        is_parent_at(es, k, j),
    ensures
        child_of(es, k, j),
        parent_of(es[k].0) == dir_path(es, j),
{
    assert(is_valid_path(es[j].0));
    let c = choose|c: int| is_parent_at(es, k, c);
    lemma_parent_unique(es, k, c, j);
}

/// A child's parent path is its directory's path.
pub proof fn lemma_child_parent(es: Seq<(Seq<char>, Option<Seq<u8>>)>, k: int, j: int)
    requires
        is_preorder(es),
        0 <= k < es.len(),
        -1 <= j,
        child_of(es, k, j),
    ensures
        parent_of(es[k].0) == dir_path(es, j),
        j < k,
        j >= 0 ==> es[j].1.is_none() && is_ancestor(es[j].0, es[k].0),
{
    assert(has_parent(es, k));
    crate::layout::lemma_parent_record_bounds(es, k);
    if j >= 0 {
        assert(is_valid_path(es[k].0));
        lemma_parent_name(es[k].0);
        assert(is_valid_path(es[j].0));
    }
}

/// What lies below directory `j` lies in it.
pub proof fn lemma_below(es: Seq<(Seq<char>, Option<Seq<u8>>)>, j: int, k: int)
    requires
        0 <= j < k < extent(es, j),
        j < es.len(),
    ensures
        is_ancestor(es[j].0, es[k].0),
        k < es.len(),
{
    lemma_run_end_bounds(es, j, j + 1);
}

/// The entry at which the subtree of directory `j` ends does not lie in it.
pub proof fn lemma_beyond(es: Seq<(Seq<char>, Option<Seq<u8>>)>, j: int)
    requires
        0 <= j < es.len(),
    ensures
        j < extent(es, j) <= es.len(),
        extent(es, j) < es.len() ==> !is_ancestor(es[j].0, es[extent(es, j)].0),
{
    lemma_run_end_bounds(es, j, j + 1);
}

/// The entry that finds no directory open but the root lies in the root,
/// and the entry that lies below `j` and whose directory is not `j` has its
/// directory below `j` and before itself.
proof fn lemma_parent_cases(es: Seq<(Seq<char>, Option<Seq<u8>>)>, j: int, k: int)
    requires
        is_preorder(es),
        -1 <= j < k < dir_end(es, j),
        k < es.len(),
        j >= 0 ==> es[j].1.is_none(),
    ensures
        child_of(es, k, j) || exists|d: int| j < d < k && is_parent_at(es, k, d),
{
    assert(has_parent(es, k));
    assert(is_valid_path(es[k].0));
    if j >= 0 {
        lemma_below(es, j, k);
        lemma_parent_longest(es[j].0, es[k].0);
    }
    if parent_of(es[k].0).len() == 0 {
        assert(j < 0);
    } else {
        let d = choose|d: int| is_parent_at(es, k, d);
        assert(is_parent_at(es, k, d));
        lemma_child_of(es, k, d);
        if d == j {
        } else if d < j {
            assert(is_ancestor(es[d].0, es[j].0));
            lemma_no_mutual_ancestors(es[d].0, es[j].0);
            assert(es[j].0 != es[d].0);
        }
    }
}

/// The first entry below a directory is its child.
pub proof fn lemma_first_child(es: Seq<(Seq<char>, Option<Seq<u8>>)>, j: int)
    requires
        is_preorder(es),
        -1 <= j,
        j + 1 < dir_end(es, j),
        j + 1 < es.len(),
        j >= 0 ==> es[j].1.is_none(),
    ensures
        child_of(es, j + 1, j),
{
    lemma_parent_cases(es, j, j + 1);
}

/// What lies below a child of `j` lies below `j`.
pub proof fn lemma_nested(es: Seq<(Seq<char>, Option<Seq<u8>>)>, j: int, i: int)
    requires
        is_preorder(es),
        -1 <= j < i < dir_end(es, j),
        i < es.len(),
        child_of(es, i, j),
    ensures
        i < next_after(es, i) <= dir_end(es, j),
{
    lemma_beyond(es, i);
    if j >= 0 {
        lemma_beyond(es, j);
        lemma_child_parent(es, i, j);
        let e = next_after(es, i);
        if e > extent(es, j) {
            let x = extent(es, j);
            assert(i < x < extent(es, i));
            lemma_below(es, i, x);
            lemma_ancestor_transitive(es[j].0, es[i].0, es[x].0);
        }
    }
}

/// Behind a child of `j` and what lies below it, the next entry below `j`
/// is a child of `j` again.
pub proof fn lemma_next_sibling(es: Seq<(Seq<char>, Option<Seq<u8>>)>, j: int, i: int)
    requires
        is_preorder(es),
        -1 <= j < i < dir_end(es, j),
        i < es.len(),
        child_of(es, i, j),
        next_after(es, i) < dir_end(es, j),
    ensures
        child_of(es, next_after(es, i), j),
{
    let k = next_after(es, i);
    lemma_beyond(es, i);
    lemma_child_parent(es, i, j);
    if j >= 0 {
        lemma_beyond(es, j);
    }
    lemma_parent_cases(es, j, k);
    if !child_of(es, k, j) {
        let d = choose|d: int| j < d < k && is_parent_at(es, k, d);
        assert(is_valid_path(es[k].0));
        assert(is_valid_path(es[d].0));
        lemma_child_of(es, k, d);
        lemma_parent_name(es[k].0);
        assert(is_ancestor(es[d].0, es[k].0));
        if d > i {
            lemma_below(es, i, d);
            lemma_ancestor_transitive(es[i].0, es[d].0, es[k].0);
        } else if d == i {
        } else {
            assert(is_ancestor(es[d].0, es[i].0));
            lemma_parent_longest(es[d].0, es[i].0);
            if j >= 0 {
                lemma_below(es, j, d);
                lemma_no_mutual_ancestors(es[j].0, es[d].0);
            }
        }
    }
}

/// Some entry from `lo` up to `hi` has the path `k`.
pub open spec fn in_range(es: Seq<(Seq<char>, Option<Seq<u8>>)>, lo: int, hi: int, k: Seq<char>) -> bool {
    exists|i: int| lo <= i < hi && 0 <= i < es.len() && #[trigger] es[i].0 == k
}

/// The entry from `lo` up to `hi` that has the path `k`.
pub open spec fn index_in(es: Seq<(Seq<char>, Option<Seq<u8>>)>, lo: int, hi: int, k: Seq<char>) -> int {
    choose|i: int| lo <= i < hi && 0 <= i < es.len() && #[trigger] es[i].0 == k
}

/// The tree `m0` with the entries from `lo` up to `hi` put into it.
pub open spec fn with_range(
    m0: Map<Seq<char>, Option<Seq<u8>>>,
    es: Seq<(Seq<char>, Option<Seq<u8>>)>,
    lo: int,
    hi: int,
) -> Map<Seq<char>, Option<Seq<u8>>> {
    Map::new(
        |k: Seq<char>| m0.contains_key(k) || in_range(es, lo, hi, k),
        |k: Seq<char>|
            if in_range(es, lo, hi, k) {
                es[index_in(es, lo, hi, k)].1
            } else {
                m0[k]
            },
    )
}

/// An entry of the range is found under its path, and nowhere else.
pub proof fn lemma_index_in(es: Seq<(Seq<char>, Option<Seq<u8>>)>, lo: int, hi: int, i: int)
    requires
        distinct_paths(es),
        lo <= i < hi,
        0 <= i < es.len(),
    ensures
        in_range(es, lo, hi, es[i].0),
        index_in(es, lo, hi, es[i].0) == i,
{
    let c = index_in(es, lo, hi, es[i].0);
    if c < i {
        assert(es[c].0 != es[i].0);
    } else if i < c {
        assert(es[i].0 != es[c].0);
    }
}

/// What the tree holds under a path once a range was put into it.
pub proof fn lemma_with_range(
    m0: Map<Seq<char>, Option<Seq<u8>>>,
    es: Seq<(Seq<char>, Option<Seq<u8>>)>,
    lo: int,
    hi: int,
    k: Seq<char>,
)
    requires
        distinct_paths(es),
    ensures
        with_range(m0, es, lo, hi).contains_key(k) == (m0.contains_key(k) || in_range(es, lo, hi, k)),
        in_range(es, lo, hi, k) ==> lo <= index_in(es, lo, hi, k) < hi && 0 <= index_in(es, lo, hi, k)
            < es.len() && es[index_in(es, lo, hi, k)].0 == k && with_range(m0, es, lo, hi)[k]
            == es[index_in(es, lo, hi, k)].1,
        !in_range(es, lo, hi, k) && m0.contains_key(k) ==> with_range(m0, es, lo, hi)[k] == m0[k],
{
}

/// Putting an empty range into a tree changes nothing.
pub proof fn lemma_range_empty(m0: Map<Seq<char>, Option<Seq<u8>>>, es: Seq<(Seq<char>, Option<Seq<u8>>)>, lo: int)
    ensures
        with_range(m0, es, lo, lo) == m0,
{
    assert(with_range(m0, es, lo, lo) =~= m0);
}

/// Putting the first entry of a range in before the rest, or after it,
/// gives the tree with the whole range put in.
pub proof fn lemma_range_first(
    m0: Map<Seq<char>, Option<Seq<u8>>>,
    es: Seq<(Seq<char>, Option<Seq<u8>>)>,
    lo: int,
    hi: int,
)
    requires
        distinct_paths(es),
        0 <= lo < hi <= es.len(),
    ensures
        with_range(m0.insert(es[lo].0, es[lo].1), es, lo + 1, hi) == with_range(m0, es, lo, hi),
        with_range(m0, es, lo + 1, hi).insert(es[lo].0, es[lo].1) == with_range(m0, es, lo, hi),
{
    let all = with_range(m0, es, lo, hi);
    let a = with_range(m0.insert(es[lo].0, es[lo].1), es, lo + 1, hi);
    let b = with_range(m0, es, lo + 1, hi).insert(es[lo].0, es[lo].1);
    lemma_index_in(es, lo, hi, lo);
    assert forall|k: Seq<char>| #![auto] all.contains_key(k) == a.contains_key(k) && all.contains_key(k)
        == b.contains_key(k) && (all.contains_key(k) ==> all[k] == a[k] && all[k] == b[k]) by {
        lemma_with_range(m0, es, lo, hi, k);
        lemma_with_range(m0.insert(es[lo].0, es[lo].1), es, lo + 1, hi, k);
        lemma_with_range(m0, es, lo + 1, hi, k);
        if in_range(es, lo + 1, hi, k) {
            let i = index_in(es, lo + 1, hi, k);
            lemma_index_in(es, lo, hi, i);
            assert(es[lo].0 != es[i].0);
        } else if in_range(es, lo, hi, k) {
            let i = index_in(es, lo, hi, k);
            assert(i == lo);
        }
    }
    assert(all =~= a);
    assert(all =~= b);
}

/// Putting in one range and then the range that follows it gives the tree
/// with both put in as one.
pub proof fn lemma_range_join(
    m0: Map<Seq<char>, Option<Seq<u8>>>,
    es: Seq<(Seq<char>, Option<Seq<u8>>)>,
    lo: int,
    mid: int,
    hi: int,
)
    requires
        distinct_paths(es),
        0 <= lo <= mid <= hi <= es.len(),
    ensures
        with_range(with_range(m0, es, lo, mid), es, mid, hi) == with_range(m0, es, lo, hi),
{
    let all = with_range(m0, es, lo, hi);
    let first = with_range(m0, es, lo, mid);
    let both = with_range(first, es, mid, hi);
    assert forall|k: Seq<char>| #![auto] all.contains_key(k) == both.contains_key(k) && (all.contains_key(k)
        ==> all[k] == both[k]) by {
        lemma_with_range(m0, es, lo, hi, k);
        lemma_with_range(m0, es, lo, mid, k);
        lemma_with_range(first, es, mid, hi, k);
        if in_range(es, mid, hi, k) {
            let i = index_in(es, mid, hi, k);
            lemma_index_in(es, lo, hi, i);
        } else if in_range(es, lo, mid, k) {
            let i = index_in(es, lo, mid, k);
            lemma_index_in(es, lo, hi, i);
        } else if in_range(es, lo, hi, k) {
            let i = index_in(es, lo, hi, k);
            if i < mid {
                assert(in_range(es, lo, mid, k));
            } else {
                assert(in_range(es, mid, hi, k));
            }
        }
    }
    assert(all =~= both);
}

/// Putting the whole listing of a tree into the empty tree gives the tree.
pub proof fn lemma_range_all(es: Seq<(Seq<char>, Option<Seq<u8>>)>, m: Map<Seq<char>, Option<Seq<u8>>>)
    requires
        is_listing(es, m),
    ensures
        with_range(Map::empty(), es, 0, es.len() as int) == m,
{
    lemma_listing_distinct(es, m);
    let r = with_range(Map::empty(), es, 0, es.len() as int);
    assert forall|k: Seq<char>| #![auto] r.contains_key(k) == m.contains_key(k) && (r.contains_key(k) ==> r[k]
        == m[k]) by {
        lemma_with_range(Map::empty(), es, 0, es.len() as int, k);
        if m.contains_key(k) {
            let i = choose|i: int| 0 <= i < es.len() && #[trigger] es[i].0 == k;
            lemma_index_in(es, 0, es.len() as int, i);
        }
        if in_range(es, 0, es.len() as int, k) {
            let i = index_in(es, 0, es.len() as int, k);
            assert(m.contains_key(es[i].0));
        }
    }
    assert(r =~= m);
}

} // verus!
