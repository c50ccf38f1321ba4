//! Where each entry of a sorted listing goes in a flat array of records.
//!
//! Record 0 stands for the root and record `i + 1` for entry `i`. A single
//! pass with a stack of the directories that are still open finds each
//! entry's parent, and closes a directory, fixing where its subtree ends,
//! when the first entry outside it arrives.

use crate::path::{is_ancestor, lemma_ancestor_transitive, lemma_parent_longest, parent_of, same_text, split_parent};
use crate::tree::is_above;
use crate::trie::entries_view;
use vstd::prelude::*;
use vstd::string::*;

verus! {

/// The entries of a tree in the order of their paths, each with the
/// contents of the file or nothing for a directory.
pub type Listing = Seq<(Seq<char>, Option<Seq<u8>>)>;

/// The place of one entry among the records.
#[derive(Clone, Copy, Debug)]
pub struct Slot {
    /// The record of the directory that holds the entry: 0 for the root.
    pub parent: usize,
    /// One past the last record of the entry's subtree; for a file, one past
    /// its own record.
    pub end: usize,
}

/// The first index from `k` on whose entry is not below entry `i`, or the
/// length of the listing.
pub open spec fn run_end(es: Seq<(Seq<char>, Option<Seq<u8>>)>, i: int, k: int) -> int
    decreases es.len() - k,
{
    if k < 0 || k >= es.len() || !is_ancestor(es[i].0, es[k].0) {
        k
    } else {
        run_end(es, i, k + 1)
    }
}

/// One past the last of the entries that directly follow entry `i` and lie below it.
pub open spec fn extent(es: Seq<(Seq<char>, Option<Seq<u8>>)>, i: int) -> int {
    run_end(es, i, i + 1)
}

/// Entry `j` is the directory that holds entry `i`, and everything between
/// the two lies in it.
pub open spec fn is_parent_at(es: Seq<(Seq<char>, Option<Seq<u8>>)>, i: int, j: int) -> bool {
    &&& 0 <= j < i
    &&& es[j].1.is_none()
    &&& es[j].0 == parent_of(es[i].0)
    &&& forall|k: int| j < k < i ==> is_ancestor(es[j].0, #[trigger] es[k].0)
}

/// Entry `i` lies in the root, or its directory is open when it arrives.
pub open spec fn has_parent(es: Seq<(Seq<char>, Option<Seq<u8>>)>, i: int) -> bool {
    parent_of(es[i].0).len() == 0 || exists|j: int| is_parent_at(es, i, j)
}

/// The listing can be laid out in one pass: every entry finds its directory open.
pub open spec fn encodable(es: Seq<(Seq<char>, Option<Seq<u8>>)>) -> bool {
    forall|i: int| 0 <= i < es.len() ==> has_parent(es, i)
}

/// The record of the directory that holds entry `i`.
pub open spec fn parent_record(es: Seq<(Seq<char>, Option<Seq<u8>>)>, i: int) -> int {
    if parent_of(es[i].0).len() == 0 {
        0
    } else {
        1 + choose|j: int| is_parent_at(es, i, j)
    }
}

/// One past the last record of entry `i`'s subtree.
pub open spec fn end_record(es: Seq<(Seq<char>, Option<Seq<u8>>)>, i: int) -> int {
    if es[i].1.is_some() {
        i + 2
    } else {
        extent(es, i) + 1
    }
}

/// The slot of every entry of the listing.
pub open spec fn is_plan(slots: Seq<Slot>, es: Seq<(Seq<char>, Option<Seq<u8>>)>) -> bool {
    &&& slots.len() == es.len()
    &&& forall|i: int|
        0 <= i < es.len() ==> (#[trigger] slots[i]).parent == parent_record(es, i) && slots[i].end
            == end_record(es, i)
}

/// The contents of the files among the first `k` entries, one after another.
pub open spec fn data_upto(es: Seq<(Seq<char>, Option<Seq<u8>>)>, k: int) -> Seq<u8>
    decreases k,
{
    if k <= 0 {
        Seq::empty()
    } else {
        data_upto(es, k - 1) + match es[k - 1].1 {
            Some(d) => d,
            None => Seq::empty(),
        }
    }
}

/// The next multiple of 32 from `x` on.
pub open spec fn align32(x: int) -> int {
    ((x + 31) / 32) * 32
}

/// The data only grows.
pub proof fn lemma_data_grows(es: Seq<(Seq<char>, Option<Seq<u8>>)>, a: int, b: int)
    requires
        0 <= a <= b,
    ensures
        data_upto(es, a).len() <= data_upto(es, b).len(),
    decreases b,
{
    if a < b {
        lemma_data_grows(es, a, b - 1);
    }
}

/// The record of an entry's directory comes before the entry's own.
pub proof fn lemma_parent_record_bounds(es: Seq<(Seq<char>, Option<Seq<u8>>)>, i: int)
    requires
        0 <= i < es.len(),
        has_parent(es, i),
    ensures
        0 <= parent_record(es, i) <= i,
        parent_record(es, i) > 0 ==> es[parent_record(es, i) - 1].1.is_none() && es[parent_record(
            es,
            i,
        ) - 1].0 == parent_of(es[i].0),
{
    if parent_of(es[i].0).len() != 0 {
        let j = choose|j: int| is_parent_at(es, i, j);
        assert(is_parent_at(es, i, j));
    }
}

/// Only one entry can be the open parent of another.
pub proof fn lemma_parent_unique(es: Seq<(Seq<char>, Option<Seq<u8>>)>, i: int, j: int, k: int)
    requires
        is_parent_at(es, i, j),
        is_parent_at(es, i, k),
    ensures
        j == k,
{
    if j < k {
        assert(is_ancestor(es[j].0, es[k].0));
    } else if k < j {
        assert(is_ancestor(es[k].0, es[j].0));
    }
}

/// Where everything from `k` up to `e` lies below entry `i` and entry `e`
/// does not (or the listing ends there), the run from `k` ends at `e`.
pub proof fn lemma_run_end(es: Seq<(Seq<char>, Option<Seq<u8>>)>, i: int, k: int, e: int)
    requires
        0 <= k <= e <= es.len(),
        forall|x: int| k <= x < e ==> is_ancestor(es[i].0, #[trigger] es[x].0),
        e == es.len() || !is_ancestor(es[i].0, es[e].0),
    ensures
        run_end(es, i, k) == e,
    decreases e - k,
{
    if k < e {
        assert(is_ancestor(es[i].0, es[k].0));
        lemma_run_end(es, i, k + 1, e);
    }
}

/// The subtree of an entry ends after the entry and within the listing.
pub proof fn lemma_run_end_bounds(es: Seq<(Seq<char>, Option<Seq<u8>>)>, i: int, k: int)
    requires
        0 <= k <= es.len(),
    ensures
        k <= run_end(es, i, k) <= es.len(),
        forall|x: int| k <= x < run_end(es, i, k) ==> is_ancestor(es[i].0, #[trigger] es[x].0),
        run_end(es, i, k) < es.len() ==> !is_ancestor(es[i].0, es[run_end(es, i, k)].0),
    decreases es.len() - k,
{
    if k < es.len() && is_ancestor(es[i].0, es[k].0) {
        lemma_run_end_bounds(es, i, k + 1);
    }
}

/// The directories among the first `i` entries that are still open: `open`
/// holds, in ascending order, exactly those below which every later entry
/// before `i` lies.
pub open spec fn is_open_stack(open: Seq<usize>, es: Seq<(Seq<char>, Option<Seq<u8>>)>, i: int) -> bool {
    &&& all_open(open, es, i)
    &&& forall|j: int|
        0 <= j < i && es[j].1.is_none() && #[trigger] stays_open(es, j, i) ==> open.contains(
            j as usize,
        )
}

/// `open` holds directories among the first `i` entries, in ascending order,
/// below each of which every later entry before `i` lies.
pub open spec fn all_open(open: Seq<usize>, es: Seq<(Seq<char>, Option<Seq<u8>>)>, i: int) -> bool {
    &&& forall|a: int, b: int| 0 <= a < b < open.len() ==> open[a] < open[b]
    &&& forall|a: int|
        0 <= a < open.len() ==> (#[trigger] open[a]) < i && es[open[a] as int].1.is_none()
            && stays_open(es, open[a] as int, i)
}

/// Every entry after `j` and before `i` lies below entry `j`.
pub open spec fn stays_open(es: Seq<(Seq<char>, Option<Seq<u8>>)>, j: int, i: int) -> bool {
    forall|k: int| j < k < i ==> is_ancestor(es[j].0, #[trigger] es[k].0)
}

/// The slots filled so far: parents are final; the end is final for files
/// and for the directories that were closed.
pub open spec fn slots_so_far(
    slots: Seq<Slot>,
    open: Seq<usize>,
    es: Seq<(Seq<char>, Option<Seq<u8>>)>,
    i: int,
) -> bool {
    &&& slots.len() == i
    &&& forall|j: int| 0 <= j < i ==> #[trigger] has_parent(es, j)
    &&& forall|j: int| 0 <= j < i ==> (#[trigger] slots[j]).parent == parent_record(es, j)
    &&& forall|j: int|
        0 <= j < i && !open.contains(j as usize) ==> (#[trigger] slots[j]).end == end_record(es, j)
}

/// Lays out a listing: finds for each entry the record of its directory and
/// the end of its subtree. The result is `None` exactly where some entry
/// does not find its directory open: where the directory is missing or is a
/// file, or where an entry outside the directory precedes the entry.
pub fn plan(es: &Vec<(&str, Option<&[u8]>)>) -> (r: Option<Vec<Slot>>)
    requires
        es@.len() < usize::MAX,
    ensures
        r.is_some() == encodable(entries_view(es@)),
        r.is_some() ==> is_plan(r.unwrap()@, entries_view(es@)),
{
    let n: usize = es.len();
    let ghost v = entries_view(es@);
    let mut slots: Vec<Slot> = Vec::new();
    let mut open: Vec<usize> = Vec::new();
    let mut i: usize = 0;
    while i < n
        invariant
            i <= n,
            n == es@.len(),
            n < usize::MAX,
            v == entries_view(es@),
            is_open_stack(open@, v, i as int),
            slots_so_far(slots@, open@, v, i as int),
        decreases n - i,
    {
        let path: &str = es[i].0;
        assert(v[i as int].0 == path@);
        let ghost open0 = open@;
        // Close the directories that the entry does not lie in.
        while open.len() > 0 && !is_above(es[open[open.len() - 1]].0, path)
            invariant
                i < n,
                n == es@.len(),
                n < usize::MAX,
                v == entries_view(es@),
                path@ == v[i as int].0,
                is_open_stack(open0, v, i as int),
                open@.len() <= open0.len(),
                open@ == open0.subrange(0, open@.len() as int),
                forall|a: int| open@.len() <= a < open0.len() ==> !is_ancestor(v[(#[trigger] open0[a]) as int].0, path@),
                slots_so_far(slots@, open@, v, i as int),
            decreases open@.len(),
        {
            let ghost before = open@;
            let t: usize = open.pop().unwrap();
            assert(t == open0[before.len() - 1]);
            assert(v[t as int].0 == es@[t as int].0@);
            let parent: usize = slots[t].parent;
            slots.set(t, Slot { parent, end: i + 1 });
            proof {
                assert(stays_open(v, t as int, i as int));
                lemma_run_end(v, t as int, t + 1, i as int);
                assert(open@ =~= open0.subrange(0, open@.len() as int));
                assert forall|j: int|
                    0 <= j < i && !open@.contains(j as usize) implies (#[trigger] slots@[j]).end
                    == end_record(v, j) by {
                    if j != t {
                        if before.contains(j as usize) {
                            let a = choose|a: int| 0 <= a < before.len() && before[a] == j as usize;
                            assert(open@[a] == j as usize);
                        }
                    }
                }
            }
        }
        let ghost kept = open@;
        proof {
            // The directories that stay open hold the entry.
            assert forall|a: int| 0 <= a < kept.len() implies is_ancestor(v[(#[trigger] kept[a]) as int].0, path@) by {
                let top = kept[kept.len() - 1];
                assert(v[top as int].0 == es@[top as int].0@);
                if a < kept.len() - 1 {
                    let s = kept[a];
                    assert(open0[a] == s && open0[kept.len() - 1] == top);
                    assert(stays_open(v, s as int, i as int));
                    assert(is_ancestor(v[s as int].0, v[top as int].0));
                    lemma_ancestor_transitive(v[s as int].0, v[top as int].0, path@);
                }
            }
        }
        let (parent, _name) = split_parent(path);
        let record: usize;
        if open.len() == 0 {
            if parent.unicode_len() != 0 {
                proof {
                    if has_parent(v, i as int) {
                        let j = choose|j: int| is_parent_at(v, i as int, j);
                        lemma_still_open(open0, kept, v, i as int, j);
                    }
                }
                return None;
            }
            record = 0;
        } else {
            let t: usize = open[open.len() - 1];
            assert(v[t as int].0 == es@[t as int].0@);
            assert(is_ancestor(v[t as int].0, path@));
            proof {
                lemma_parent_longest(v[t as int].0, path@);
            }
            if !same_text(es[t].0, parent) {
                proof {
                    if has_parent(v, i as int) {
                        let j = choose|j: int| is_parent_at(v, i as int, j);
                        lemma_still_open(open0, kept, v, i as int, j);
                        let a = choose|a: int| 0 <= a < kept.len() && kept[a] == j as usize;
                        assert(j < t);
                        assert(is_ancestor(v[j].0, v[t as int].0));
                    }
                }
                return None;
            }
            proof {
                assert(open0[kept.len() - 1] == t);
                assert(stays_open(v, t as int, i as int));
                assert(is_parent_at(v, i as int, t as int));
                let j = choose|j: int| is_parent_at(v, i as int, j);
                lemma_parent_unique(v, i as int, j, t as int);
            }
            record = t + 1;
        }
        slots.push(Slot { parent: record, end: i + 2 });
        if es[i].1.is_none() {
            open.push(i);
        }
        proof {
            assert(v[i as int].1 == crate::trie::slice_view(es@[i as int].1));
            lemma_stack_step(open0, kept, open@, v, i as int);
            assert forall|j: int|
                0 <= j < i + 1 && !open@.contains(j as usize) implies (#[trigger] slots@[j]).end
                == end_record(v, j) by {
                if j < i {
                    if kept.contains(j as usize) {
                        let a = choose|a: int| 0 <= a < kept.len() && kept[a] == j as usize;
                        assert(open@[a] == j as usize);
                    }
                } else {
                    if v[i as int].1.is_none() {
                        assert(open@[open@.len() - 1] == i);
                    }
                }
            }
        }
        i += 1;
    }
    // Close what is still open at the end.
    while open.len() > 0
        invariant
            i == n,
            n == es@.len(),
            n < usize::MAX,
            v == entries_view(es@),
            all_open(open@, v, n as int),
            slots_so_far(slots@, open@, v, n as int),
        decreases open@.len(),
    {
        let ghost before = open@;
        let t: usize = open.pop().unwrap();
        let parent: usize = slots[t].parent;
        slots.set(t, Slot { parent, end: n + 1 });
        proof {
            assert(before[before.len() - 1] == t);
            assert(stays_open(v, t as int, n as int));
            lemma_run_end(v, t as int, t + 1, n as int);
            assert(open@ =~= before.subrange(0, open@.len() as int));
            assert forall|a: int| 0 <= a < open@.len() implies (#[trigger] open@[a]) < n && v[open@[a] as int].1.is_none()
                && stays_open(v, open@[a] as int, n as int) by {
                assert(before[a] == open@[a]);
            }
            assert forall|j: int|
                0 <= j < n && !open@.contains(j as usize) implies (#[trigger] slots@[j]).end
                == end_record(v, j) by {
                if j != t {
                    if before.contains(j as usize) {
                        let a = choose|a: int| 0 <= a < before.len() && before[a] == j as usize;
                        assert(open@[a] == j as usize);
                    }
                }
            }
        }
    }
    assert(open@.len() == 0);
    Some(slots)
}

/// A directory that holds the entry arriving at `i` and was open before it
/// arrived is among those kept open.
proof fn lemma_still_open(
    open0: Seq<usize>,
    kept: Seq<usize>,
    es: Seq<(Seq<char>, Option<Seq<u8>>)>,
    i: int,
    j: int,
)
    requires
        0 <= i < es.len(),
        i < usize::MAX,
        is_open_stack(open0, es, i),
        kept.len() <= open0.len(),
        kept == open0.subrange(0, kept.len() as int),
        forall|a: int| kept.len() <= a < open0.len() ==> !is_ancestor(es[(#[trigger] open0[a]) as int].0, es[i].0),
        is_parent_at(es, i, j),
        parent_of(es[i].0).len() > 0,
    ensures
        kept.contains(j as usize),
{
    assert(stays_open(es, j, i));
    assert(open0.contains(j as usize));
    let a = choose|a: int| 0 <= a < open0.len() && open0[a] == j as usize;
    crate::path::lemma_last_sep_bounds(es[i].0);
    assert(is_ancestor(es[j].0, es[i].0)) by {
        let p = es[i].0;
        assert(crate::path::last_sep(p) >= 0);
    }
    assert(a < kept.len());
    assert(kept[a] == j as usize);
}

/// The open directories after entry `i` was placed.
proof fn lemma_stack_step(
    open0: Seq<usize>,
    kept: Seq<usize>,
    open1: Seq<usize>,
    es: Seq<(Seq<char>, Option<Seq<u8>>)>,
    i: int,
)
    requires
        0 <= i < es.len(),
        i < usize::MAX,
        is_open_stack(open0, es, i),
        kept.len() <= open0.len(),
        kept == open0.subrange(0, kept.len() as int),
        forall|a: int| kept.len() <= a < open0.len() ==> !is_ancestor(es[(#[trigger] open0[a]) as int].0, es[i].0),
        forall|a: int| 0 <= a < kept.len() ==> is_ancestor(es[(#[trigger] kept[a]) as int].0, es[i].0),
        open1 == if es[i].1.is_none() {
            kept.push(i as usize)
        } else {
            kept
        },
    ensures
        is_open_stack(open1, es, i + 1),
{
    assert forall|a: int, b: int| 0 <= a < b < open1.len() implies open1[a] < open1[b] by {
        if b < kept.len() {
            assert(open0[a] < open0[b]);
        } else {
            assert(open0[a] < i);
        }
    }
    assert forall|a: int| 0 <= a < open1.len() implies (#[trigger] open1[a]) < i + 1 && es[open1[a] as int].1.is_none()
        && stays_open(es, open1[a] as int, i + 1) by {
        if a < kept.len() {
            assert(open0[a] == kept[a]);
            assert(stays_open(es, open0[a] as int, i));
            assert(is_ancestor(es[kept[a] as int].0, es[i].0));
        }
    }
    assert forall|j: int| 0 <= j < i + 1 && es[j].1.is_none() && #[trigger] stays_open(es, j, i + 1) implies open1.contains(
        j as usize,
    ) by {
        if j == i {
            assert(open1[open1.len() - 1] == i as usize);
        } else {
            assert(is_ancestor(es[j].0, es[i].0));
            assert(stays_open(es, j, i));
            assert(open0.contains(j as usize));
            let a = choose|a: int| 0 <= a < open0.len() && open0[a] == j as usize;
            assert(a < kept.len());
            assert(open1[a] == j as usize);
        }
    }
}

} // verus!
