//! Filling the entry table of an archive.
//!
//! Every directory owns a run of the table: two entries for itself and its
//! parent, then one for each child. The runs follow one another in the
//! order of the directories. Each entry of the listing goes to the next
//! free place of its directory's run.

use crate::jsystem::rarc::encode::{child_entry, children_upto, dirs_below, dot_entry, dotdot_entry, entries_upto, files_below, group, is_dir_record, strings_upto, DIRECTORY_ID, DOTDOT_HASH, DOT_HASH};
use crate::jsystem::rarc::entry::{RarcEntry, ENTRY_DIRECTORY, ENTRY_FILE};
use crate::jsystem::rarc::tables::lemma_children_len;
use crate::jsystem::rarc::utils::{hash_str, name_hash};
use crate::layout::{data_upto, encodable, is_plan, lemma_parent_record_bounds, Slot};
use crate::path::split_parent;
use crate::trie::{entries_view, slice_view};
use crate::endian::Endian;
use vstd::prelude::*;

verus! {

/// Where the run of record `rec` starts in the entry table.
pub open spec fn run_start(es: Seq<(Seq<char>, Option<Seq<u8>>)>, rec: int) -> int {
    entries_upto(es, rec).len() as int
}

/// The runs follow one another: a directory's run ends where the run of
/// the next record starts, and a file has none.
pub proof fn lemma_run_step(es: Seq<(Seq<char>, Option<Seq<u8>>)>, rec: int)
    requires
        0 <= rec,
    ensures
        is_dir_record(es, rec) ==> run_start(es, rec + 1) == run_start(es, rec) + 2 + children_upto(
            es,
            rec,
            es.len() as int,
        ).len(),
        !is_dir_record(es, rec) ==> run_start(es, rec + 1) == run_start(es, rec),
{
}

/// A later record's run starts where an earlier one's ends, or later.
pub proof fn lemma_runs_ordered(es: Seq<(Seq<char>, Option<Seq<u8>>)>, a: int, b: int)
    requires
        0 <= a < b,
    ensures
        run_start(es, a + 1) <= run_start(es, b),
        run_start(es, a) <= run_start(es, a + 1),
    decreases b,
{
    lemma_run_step(es, a);
    if a + 1 < b {
        lemma_runs_ordered(es, a, b - 1);
        lemma_run_step(es, b - 1);
    }
}

/// A record's children among fewer entries are among its children among more.
pub proof fn lemma_children_grow(es: Seq<(Seq<char>, Option<Seq<u8>>)>, rec: int, a: int, b: int)
    requires
        0 <= a <= b,
    ensures
        children_upto(es, rec, a).len() <= children_upto(es, rec, b).len(),
    decreases b,
{
    if a < b {
        lemma_children_grow(es, rec, a, b - 1);
    }
}

/// The entries for the directories themselves and their parents stand at
/// the start of the runs of the directories before record `r`.
pub open spec fn dots_placed(table: Seq<RarcEntry>, es: Seq<(Seq<char>, Option<Seq<u8>>)>, r: int) -> bool {
    forall|rec: int|
        0 <= rec < r && #[trigger] is_dir_record(es, rec) ==> table[run_start(es, rec)] == dot_entry(
            es,
            rec,
        ) && table[run_start(es, rec) + 1] == dotdot_entry(es, rec)
}

/// The entries of the first `k` entries of the listing stand in the runs of
/// their directories.
pub open spec fn children_placed(table: Seq<RarcEntry>, es: Seq<(Seq<char>, Option<Seq<u8>>)>, k: int) -> bool {
    forall|rec: int, c: int|
        0 <= rec <= es.len() && is_dir_record(es, rec) && 0 <= c < children_upto(es, rec, k).len()
            ==> table[run_start(es, rec) + 2 + c] == #[trigger] children_upto(es, rec, k)[c]
}

/// A table in which every entry stands in its place is the entry table.
pub proof fn lemma_table_complete(table: Seq<RarcEntry>, es: Seq<(Seq<char>, Option<Seq<u8>>)>, r: int)
    requires
        0 <= r <= es.len() + 1,
        table.len() >= run_start(es, r),
        dots_placed(table, es, r),
        children_placed(table, es, es.len() as int),
    ensures
        table.subrange(0, run_start(es, r)) == entries_upto(es, r),
    decreases r,
{
    if r > 0 {
        lemma_runs_ordered(es, r - 1, r);
        lemma_table_complete(table, es, r - 1);
        lemma_run_step(es, r - 1);
        let a = run_start(es, r - 1);
        if is_dir_record(es, r - 1) {
            let g = group(es, r - 1);
            assert forall|q: int| 0 <= q < g.len() implies table[a + q] == g[q] by {
                if q >= 2 {
                    assert(children_upto(es, r - 1, es.len() as int)[q - 2] == g[q]);
                }
            }
            assert(table.subrange(0, run_start(es, r)) =~= table.subrange(0, a) + g);
        }
    } else {
        assert(table.subrange(0, 0) =~= Seq::<RarcEntry>::empty());
    }
}

/// A table of `n` entries that say nothing yet.
fn blank_table(n: usize) -> (r: Vec<RarcEntry>)
    ensures
        r@.len() == n,
{
    let mut r: Vec<RarcEntry> = Vec::new();
    let mut i: usize = 0;
    while i < n
        invariant
            i <= n,
            r@.len() == i,
        decreases n - i,
    {
        r.push(RarcEntry { id: 0, name_hash: 0, ty: 0, name_offset: 0, data_offset: 0, length: 0 });
        i += 1;
    }
    r
}

/// Puts the two entries that every directory starts with into the table.
fn place_dots(
    table: &mut Vec<RarcEntry>,
    es: &Vec<(&str, Option<&[u8]>)>,
    slots: &Vec<Slot>,
    ids: &Vec<u32>,
    offsets: &Vec<u32>,
)
    requires
        es@.len() <= 0xFFFF,
        encodable(entries_view(es@)),
        is_plan(slots@, entries_view(es@)),
        ids@.len() == es@.len() + 2,
        offsets@.len() == es@.len() + 2,
        forall|rec: int|
            0 <= rec <= es@.len() + 1 ==> #[trigger] ids@[rec] == dirs_below(entries_view(es@), rec),
        forall|rec: int|
            0 <= rec <= es@.len() + 1 ==> #[trigger] offsets@[rec] == run_start(entries_view(es@), rec),
        old(table)@.len() == run_start(entries_view(es@), es@.len() as int + 1),
    ensures
        final(table)@.len() == old(table)@.len(),
        dots_placed(final(table)@, entries_view(es@), es@.len() as int + 1),
{
    let n: usize = es.len();
    let ghost v = entries_view(es@);
    let total: usize = table.len();
    let mut rec: usize = 0;
    while rec <= n
        invariant
            rec <= n + 1,
            n == es@.len(),
            n <= 0xFFFF,
            total == table@.len(),
            v == entries_view(es@),
            encodable(v),
            is_plan(slots@, v),
            ids@.len() == n + 2,
            offsets@.len() == n + 2,
            forall|q: int| 0 <= q <= n + 1 ==> #[trigger] ids@[q] == dirs_below(v, q),
            forall|q: int| 0 <= q <= n + 1 ==> #[trigger] offsets@[q] == run_start(v, q),
            table@.len() == run_start(v, n + 1),
            dots_placed(table@, v, rec as int),
        decreases n + 1 - rec,
    {
        let is_dir: bool = rec == 0 || es[rec - 1].1.is_none();
        proof {
            if rec > 0 {
                assert(v[rec - 1].1 == slice_view(es@[rec - 1].1));
                lemma_parent_record_bounds(v, rec - 1);
            }
        }
        if is_dir {
            let at: usize = offsets[rec] as usize;
            let parent: u32 = if rec == 0 {
                0
            } else {
                ids[slots[rec - 1].parent]
            };
            proof {
                lemma_run_step(v, rec as int);
                lemma_runs_ordered(v, rec as int, n + 1);
                assert(offsets@[rec as int] == run_start(v, rec as int));
                assert(ids@[rec as int] == dirs_below(v, rec as int));
            }
            let ghost before = table@;
            table.set(
                at,
                RarcEntry {
                    id: DIRECTORY_ID,
                    name_hash: DOT_HASH,
                    ty: ENTRY_DIRECTORY,
                    name_offset: 0,
                    data_offset: ids[rec],
                    length: 0,
                },
            );
            table.set(
                at + 1,
                RarcEntry {
                    id: DIRECTORY_ID,
                    name_hash: DOTDOT_HASH,
                    ty: ENTRY_DIRECTORY,
                    name_offset: 2,
                    data_offset: parent,
                    length: 0,
                },
            );
            proof {
                assert forall|q: int| 0 <= q < rec + 1 && #[trigger] is_dir_record(v, q) implies table@[run_start(
                    v,
                    q,
                )] == dot_entry(v, q) && table@[run_start(v, q) + 1] == dotdot_entry(v, q) by {
                    if q < rec {
                        lemma_runs_ordered(v, q, rec as int);
                        lemma_runs_ordered(v, q, n + 1);
                        lemma_run_step(v, q);
                        assert(before[run_start(v, q)] == dot_entry(v, q));
                    }
                }
            }
        }
        rec += 1;
    }
}

/// The entry table of a listing.
pub fn place_entries(
    es: &Vec<(&str, Option<&[u8]>)>,
    slots: &Vec<Slot>,
    ids: &Vec<u32>,
    offsets: &Vec<u32>,
    name_offsets: &Vec<u16>,
    data_offsets: &Vec<u32>,
    files: &Vec<u16>,
) -> (table: Vec<RarcEntry>)
    requires
        es@.len() <= 0xFFFF,
        encodable(entries_view(es@)),
        is_plan(slots@, entries_view(es@)),
        ids@.len() == es@.len() + 2,
        offsets@.len() == es@.len() + 2,
        name_offsets@.len() == es@.len(),
        data_offsets@.len() == es@.len(),
        files@.len() == es@.len() + 1,
        forall|rec: int|
            0 <= rec <= es@.len() + 1 ==> #[trigger] ids@[rec] == dirs_below(entries_view(es@), rec),
        forall|rec: int|
            0 <= rec <= es@.len() + 1 ==> #[trigger] offsets@[rec] == run_start(entries_view(es@), rec),
        forall|i: int|
            0 <= i < es@.len() ==> #[trigger] name_offsets@[i] == strings_upto(entries_view(es@), i).len(),
        forall|i: int|
            0 <= i < es@.len() ==> #[trigger] data_offsets@[i] == data_upto(entries_view(es@), i).len(),
        forall|i: int| 0 <= i <= es@.len() ==> #[trigger] files@[i] == files_below(entries_view(es@), i),
        forall|i: int|
            0 <= i < es@.len() && (#[trigger] es@[i]).1.is_some() ==> es@[i].1.unwrap()@.len()
                <= 0xFFFF_FFFF,
    ensures
        table@ == entries_upto(entries_view(es@), es@.len() as int + 1),
{
    let n: usize = es.len();
    let ghost v = entries_view(es@);
    let total: usize = offsets[n + 1] as usize;
    let mut table: Vec<RarcEntry> = blank_table(total);
    place_dots(&mut table, es, slots, ids, offsets);
    let mut fill: Vec<u32> = Vec::new();
    let mut r: usize = 0;
    while r <= n
        invariant
            r <= n + 1,
            n <= 0xFFFF,
            fill@.len() == r,
            forall|q: int| 0 <= q < r ==> fill@[q] == 0,
        decreases n + 1 - r,
    {
        fill.push(0);
        r += 1;
    }
    let mut i: usize = 0;
    while i < n
        invariant
            i <= n,
            n == es@.len(),
            n <= 0xFFFF,
            total == table@.len(),
            v == entries_view(es@),
            encodable(v),
            is_plan(slots@, v),
            ids@.len() == n + 2,
            offsets@.len() == n + 2,
            name_offsets@.len() == n,
            data_offsets@.len() == n,
            files@.len() == n + 1,
            forall|q: int| 0 <= q <= n + 1 ==> #[trigger] ids@[q] == dirs_below(v, q),
            forall|q: int| 0 <= q <= n + 1 ==> #[trigger] offsets@[q] == run_start(v, q),
            forall|q: int| 0 <= q < n ==> #[trigger] name_offsets@[q] == strings_upto(v, q).len(),
            forall|q: int| 0 <= q < n ==> #[trigger] data_offsets@[q] == data_upto(v, q).len(),
            forall|q: int| 0 <= q <= n ==> #[trigger] files@[q] == files_below(v, q),
            forall|q: int|
                0 <= q < n && (#[trigger] es@[q]).1.is_some() ==> es@[q].1.unwrap()@.len() <= 0xFFFF_FFFF,
            table@.len() == run_start(v, n + 1),
            dots_placed(table@, v, n + 1),
            children_placed(table@, v, i as int),
            fill@.len() == n + 1,
            forall|q: int| 0 <= q <= n ==> #[trigger] fill@[q] == children_upto(v, q, i as int).len(),
        decreases n - i,
    {
        let p: usize = slots[i].parent;
        let (_parent, name) = split_parent(es[i].0);
        assert(v[i as int].0 == es@[i as int].0@);
        assert(v[i as int].1 == slice_view(es@[i as int].1));
        let hash: u16 = hash_str(name);
        let entry: RarcEntry = match es[i].1 {
            Some(d) => {
                assert(es@[i as int].1.is_some());
                RarcEntry {
                    id: files[i],
                    name_hash: hash,
                    ty: ENTRY_FILE,
                    name_offset: name_offsets[i],
                    data_offset: data_offsets[i],
                    length: d.len() as u32,
                }
            },
            None => RarcEntry {
                id: DIRECTORY_ID,
                name_hash: hash,
                ty: ENTRY_DIRECTORY,
                name_offset: name_offsets[i],
                data_offset: ids[i + 1],
                length: 0,
            },
        };
        assert(entry == child_entry(v, i as int));
        proof {
            lemma_parent_record_bounds(v, i as int);
            assert(is_dir_record(v, p as int));
            lemma_children_grow(v, p as int, i + 1, n as int);
            lemma_children_len(v, p as int, i as int);
            lemma_run_step(v, p as int);
            lemma_runs_ordered(v, p as int, n + 1);
            assert(fill@[p as int] == children_upto(v, p as int, i as int).len());
            assert(offsets@[p as int] == run_start(v, p as int));
        }
        let c: u32 = fill[p];
        let at: usize = offsets[p] as usize + 2 + c as usize;
        let ghost before = table@;
        table.set(at, entry);
        fill.set(p, c + 1);
        proof {
            assert forall|rec: int, k: int|
                0 <= rec <= v.len() && is_dir_record(v, rec) && 0 <= k < children_upto(v, rec, i + 1).len() implies table@[run_start(
                v,
                rec,
            ) + 2 + k] == #[trigger] children_upto(v, rec, i + 1)[k] by {
                lemma_children_grow(v, rec, i + 1, n as int);
                lemma_children_grow(v, rec, i as int, n as int);
                lemma_run_step(v, rec);
                lemma_runs_ordered(v, rec, n + 1);
                if rec == p {
                    if k < c {
                        assert(before[run_start(v, rec) + 2 + k] == children_upto(v, rec, i as int)[k]);
                    }
                } else {
                    if rec < p {
                        lemma_runs_ordered(v, rec, p as int);
                    } else {
                        lemma_runs_ordered(v, p as int, rec);
                    }
                    assert(before[run_start(v, rec) + 2 + k] == children_upto(v, rec, i as int)[k]);
                }
            }
            assert forall|q: int| 0 <= q < n + 1 && #[trigger] is_dir_record(v, q) implies table@[run_start(
                v,
                q,
            )] == dot_entry(v, q) && table@[run_start(v, q) + 1] == dotdot_entry(v, q) by {
                lemma_run_step(v, q);
                lemma_runs_ordered(v, q, n + 1);
                if q < p {
                    lemma_runs_ordered(v, q, p as int);
                } else if q > p {
                    lemma_runs_ordered(v, p as int, q);
                }
                assert(before[run_start(v, q)] == dot_entry(v, q));
            }
        }
        i += 1;
    }
    proof {
        lemma_table_complete(table@, v, n + 1);
        assert(table@.subrange(0, run_start(v, n + 1)) =~= table@);
    }
    table
}

} // verus!
