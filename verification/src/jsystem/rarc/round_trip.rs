//! Reading back what was written.
//!
//! The tables of an image that was written from a listing are read as the
//! tables of that listing, and the walk over them follows the listing:
//! the children of a directory stand in its run in the order of the
//! listing, and between two of them in the listing lies what is below the
//! first.

use crate::jsystem::rarc::decode::{entry_name, walk};
use crate::jsystem::rarc::encode::{all_names_ok, child_entry, children_upto, dirs_below, dot_entry, dotdot_entry, entries_upto, files_below, fixed_strings, group, groups_fit, image_len, is_dir_record, name_ok, stored_name, strings_upto};
use crate::jsystem::rarc::entry::{RarcEntry, ENTRY_DIRECTORY, ENTRY_FILE};
use crate::jsystem::rarc::error::RarcError;
use crate::jsystem::rarc::place::{lemma_children_grow, lemma_run_step, lemma_runs_ordered, run_start};
use crate::jsystem::rarc::tables::lemma_strings_grow;
use crate::layout::{data_upto, encodable, extent, has_parent, is_parent_at, lemma_data_grows, lemma_parent_record_bounds, parent_record, Listing};
use crate::path::{is_ancestor, is_valid_path, join, lemma_parent_longest, lemma_parent_name, name_of};
use crate::preorder::{child_of, dir_end, dir_path, is_preorder, lemma_below, lemma_beyond, lemma_child_parent, lemma_first_child, lemma_nested, lemma_next_sibling, lemma_no_mutual_ancestors, lemma_range_empty, lemma_range_first, lemma_range_join, with_range};
use crate::wii::utils::nul_from;
use crate::endian::Endian;
use vstd::prelude::*;

verus! {

/// The listing can be written: it has an image.
pub open spec fn writable(es: Listing) -> bool {
    &&& es.len() <= 0xFFFF
    &&& encodable(es)
    &&& groups_fit(es)
    &&& all_names_ok(es)
    &&& strings_upto(es, es.len() as int).len() <= 0x1_0000
    &&& image_len(es) <= 0xFFFF_FFFF
}

/// The tables are those of the listing.
pub open spec fn tables_read(
    nodes: Seq<(Seq<u8>, int, int, int, int)>,
    entries: Seq<RarcEntry>,
    strings: Seq<u8>,
    data: Seq<u8>,
    es: Listing,
) -> bool {
    &&& nodes.len() == dirs_below(es, es.len() as int + 1)
    &&& forall|rec: int|
        0 <= rec <= es.len() && #[trigger] is_dir_record(es, rec) ==> nodes[dirs_below(es, rec)].3
            == group(es, rec).len() && nodes[dirs_below(es, rec)].4 == run_start(es, rec)
    &&& entries == entries_upto(es, es.len() as int + 1)
    &&& strings == strings_upto(es, es.len() as int)
    &&& data == data_upto(es, es.len() as int)
}

/// There are no more directories or files before a record than records.
pub proof fn lemma_counts(es: Listing, r: int)
    requires
        0 <= r,
    ensures
        0 <= dirs_below(es, r) <= r,
        0 <= files_below(es, r) <= r,
    decreases r,
{
    if r > 0 {
        lemma_counts(es, r - 1);
    }
}

/// The directories are numbered in the order of their records.
pub proof fn lemma_dirs_ordered(es: Listing, a: int, b: int)
    requires
        0 <= a < b,
    ensures
        dirs_below(es, a) <= dirs_below(es, b),
        is_dir_record(es, a) ==> dirs_below(es, a) < dirs_below(es, b),
    decreases b,
{
    if a + 1 < b {
        lemma_dirs_ordered(es, a, b - 1);
    }
}

/// The entries of a directory stand in its run of the entry table.
pub proof fn lemma_entry_in_run(es: Listing, rec: int, q: int, r: int)
    requires
        0 <= rec < r,
        is_dir_record(es, rec),
        0 <= q < group(es, rec).len(),
    ensures
        run_start(es, rec) + q < entries_upto(es, r).len(),
        entries_upto(es, r)[run_start(es, rec) + q] == group(es, rec)[q],
    decreases r,
{
    lemma_run_step(es, rec);
    if rec < r - 1 {
        lemma_entry_in_run(es, rec, q, r - 1);
        lemma_runs_ordered(es, rec, r - 1);
    }
}

/// A child stands in its directory's run behind the children before it.
pub proof fn lemma_child_at(es: Listing, rec: int, i: int, n: int)
    requires
        0 <= i < n,
        parent_record(es, i) == rec,
    ensures
        children_upto(es, rec, i).len() < children_upto(es, rec, n).len(),
        children_upto(es, rec, n)[children_upto(es, rec, i).len() as int] == child_entry(es, i),
        children_upto(es, rec, i + 1).len() == children_upto(es, rec, i).len() + 1,
    decreases n,
{
    if i < n - 1 {
        lemma_child_at(es, rec, i, n - 1);
    }
}

/// Where no entry from `a` up to `b` is a child of a record, the record
/// has as many children before `b` as before `a`.
pub proof fn lemma_no_children(es: Listing, rec: int, a: int, b: int)
    requires
        0 <= a <= b,
        forall|k: int| a <= k < b ==> #[trigger] parent_record(es, k) != rec,
    ensures
        children_upto(es, rec, b).len() == children_upto(es, rec, a).len(),
    decreases b,
{
    if a < b {
        lemma_no_children(es, rec, a, b - 1);
    }
}

/// What lies below a child of directory `j` is no child of `j`.
pub proof fn lemma_not_child_inside(es: Listing, j: int, i: int, k: int)
    requires
        is_preorder(es),
        -1 <= j < i < k,
        k < extent(es, i),
        i < es.len(),
        child_of(es, i, j),
    ensures
        parent_record(es, k) != j + 1,
{
    lemma_below(es, i, k);
    lemma_child_parent(es, i, j);
    lemma_parent_longest(es[i].0, es[k].0);
    if parent_record(es, k) == j + 1 {
        lemma_child_parent(es, k, j);
        if j >= 0 {
            assert(es[j].0 != es[i].0);
            lemma_no_mutual_ancestors(es[j].0, es[i].0);
        }
    }
}

/// What stands behind the subtree of directory `j` is no child of `j`.
pub proof fn lemma_not_child_beyond(es: Listing, j: int, k: int)
    requires
        is_preorder(es),
        0 <= j < es.len(),
        extent(es, j) <= k < es.len(),
    ensures
        parent_record(es, k) != j + 1,
{
    lemma_beyond(es, j);
    if parent_record(es, k) == j + 1 {
        lemma_child_parent(es, k, j);
        assert(has_parent(es, k));
        assert(is_valid_path(es[j].0));
        let d = choose|d: int| is_parent_at(es, k, d);
        assert(is_parent_at(es, k, j));
        if extent(es, j) < k {
            assert(is_ancestor(es[j].0, es[extent(es, j)].0));
        }
    }
}

/// The string table starts with the three names that every table holds.
pub proof fn lemma_fixed_strings(es: Listing, n: int)
    requires
        0 <= n,
    ensures
        strings_upto(es, n).len() >= 10,
        strings_upto(es, n).subrange(0, 10) == fixed_strings(),
    decreases n,
{
    if n > 0 {
        lemma_fixed_strings(es, n - 1);
        assert(strings_upto(es, n).subrange(0, 10) =~= strings_upto(es, n - 1).subrange(0, 10));
    } else {
        assert(strings_upto(es, n).subrange(0, 10) =~= fixed_strings());
    }
}

/// The name of entry `i` stands at its place in the string table.
pub proof fn lemma_strings_window(es: Listing, i: int, n: int)
    requires
        0 <= i < n,
    ensures
        strings_upto(es, i).len() + stored_name(es, i).len() + 1 <= strings_upto(es, n).len(),
        strings_upto(es, n).subrange(
            strings_upto(es, i).len() as int,
            (strings_upto(es, i).len() + stored_name(es, i).len() + 1) as int,
        ) == stored_name(es, i).push(0u8),
    decreases n,
{
    let p = strings_upto(es, n - 1);
    let r = strings_upto(es, n);
    let a = strings_upto(es, i).len() as int;
    let e = stored_name(es, i).push(0u8);
    if i < n - 1 {
        lemma_strings_window(es, i, n - 1);
        assert(r.subrange(a, a + e.len()) =~= p.subrange(a, a + e.len()));
    } else {
        assert(r.subrange(a, a + e.len()) =~= e);
    }
}

/// Where bytes without a zero are followed by a zero, the zero is the
/// first from their start on.
pub proof fn lemma_nul_after(b: Seq<u8>, pos: int, len: int)
    requires
        0 <= pos,
        0 <= len,
        pos + len < b.len(),
        forall|k: int| pos <= k < pos + len ==> #[trigger] b[k] != 0,
        b[pos + len] == 0,
    ensures
        nul_from(b, pos) == pos + len,
    decreases len,
{
    if len > 0 {
        lemma_nul_after(b, pos + 1, len - 1);
    }
}

/// The names of the two entries that every directory starts with are read
/// as names to pass over.
pub proof fn lemma_dot_names(es: Listing, rec: int)
    ensures
        entry_name(strings_upto(es, es.len() as int), dot_entry(es, rec)) == Ok::<
            Option<Seq<char>>,
            RarcError,
        >(None),
        entry_name(strings_upto(es, es.len() as int), dotdot_entry(es, rec)) == Ok::<
            Option<Seq<char>>,
            RarcError,
        >(None),
{
    let s = strings_upto(es, es.len() as int);
    lemma_fixed_strings(es, es.len() as int);
    let f = s.subrange(0, 10);
    assert(s[0] == f[0] && s[1] == f[1] && s[2] == f[2] && s[3] == f[3] && s[4] == f[4]);
    lemma_nul_after(s, 0, 1);
    lemma_nul_after(s, 2, 2);
    assert(s.subrange(0, 1) =~= seq![0x2Eu8]);
    assert(s.subrange(2, 4) =~= seq![0x2Eu8, 0x2Eu8]);
}

/// The name of an entry is read back from the string table.
pub proof fn lemma_child_name(es: Listing, i: int)
    requires
        writable(es),
        0 <= i < es.len(),
        is_valid_path(es[i].0),
    ensures
        entry_name(strings_upto(es, es.len() as int), child_entry(es, i)) == Ok::<
            Option<Seq<char>>,
            RarcError,
        >(Some(name_of(es[i].0))),
{
    let n = es.len() as int;
    let s = strings_upto(es, n);
    let name = name_of(es[i].0);
    let bytes = stored_name(es, i);
    assert(name_ok(name));
    lemma_parent_name(es[i].0);
    lemma_strings_window(es, i, n);
    lemma_strings_grow(es, i, n);
    lemma_strings_grow(es, 0, i);
    let off = strings_upto(es, i).len() as int;
    assert(child_entry(es, i).name_offset == off);
    let w = s.subrange(off, off + bytes.len() + 1);
    assert forall|k: int| off <= k < off + bytes.len() implies #[trigger] s[k] != 0 by {
        assert(s[k] == w[k - off]);
        assert(w[k - off] == bytes[k - off]);
    }
    assert(s[off + bytes.len()] == 0) by {
        assert(s[off + bytes.len()] == w[bytes.len() as int]);
    }
    lemma_nul_after(s, off, bytes.len() as int);
    assert(s.subrange(off, off + bytes.len()) =~= bytes) by {
        assert forall|k: int| 0 <= k < bytes.len() implies s.subrange(off, off + bytes.len())[k]
            == bytes[k] by {
            assert(s[off + k] == w[k]);
        }
    }
}

/// The contents of entry `i` stand at their place in the data.
pub proof fn lemma_data_window(es: Listing, i: int, n: int)
    requires
        0 <= i < n,
        es[i].1.is_some(),
    ensures
        data_upto(es, i).len() + es[i].1.unwrap().len() <= data_upto(es, n).len(),
        data_upto(es, n).subrange(
            data_upto(es, i).len() as int,
            (data_upto(es, i).len() + es[i].1.unwrap().len()) as int,
        ) == es[i].1.unwrap(),
    decreases n,
{
    let p = data_upto(es, n - 1);
    let r = data_upto(es, n);
    let a = data_upto(es, i).len() as int;
    let d = es[i].1.unwrap();
    if i < n - 1 {
        lemma_data_window(es, i, n - 1);
        assert(r.subrange(a, a + d.len()) =~= p.subrange(a, a + d.len()));
    } else {
        assert(r.subrange(a, a + d.len()) =~= d);
    }
}

/// The data is no longer than the image.
pub proof fn lemma_data_fits(es: Listing)
    requires
        writable(es),
    ensures
        data_upto(es, es.len() as int).len() <= 0xFFFF_FFFF,
        crate::jsystem::rarc::encode::strings_start(es) >= 0x40,
        crate::jsystem::rarc::encode::data_start(es) >= crate::jsystem::rarc::encode::strings_start(es)
            + strings_upto(es, es.len() as int).len(),
        image_len(es) >= crate::jsystem::rarc::encode::data_start(es) + data_upto(
            es,
            es.len() as int,
        ).len(),
{
    lemma_counts(es, es.len() as int + 1);
}

/// The entry that stands for entry `i` of the listing holds what the
/// listing says, without loss.
pub proof fn lemma_child_fields(es: Listing, i: int)
    requires
        writable(es),
        0 <= i < es.len(),
    ensures
        child_entry(es, i).name_offset == strings_upto(es, i).len(),
        es[i].1.is_some() ==> child_entry(es, i).ty == ENTRY_FILE && child_entry(es, i).data_offset
            == data_upto(es, i).len() && child_entry(es, i).length == es[i].1.unwrap().len(),
        es[i].1.is_none() ==> child_entry(es, i).ty == ENTRY_DIRECTORY && child_entry(es, i).data_offset
            == dirs_below(es, i + 1),
{
    let n = es.len() as int;
    lemma_data_fits(es);
    lemma_strings_grow(es, i, n);
    lemma_data_grows(es, i, n);
    lemma_counts(es, i + 1);
    if es[i].1.is_some() {
        lemma_data_window(es, i, n);
    }
}

/// The walk over the entries of a directory's run, from the entry of a
/// child on, puts the entries from that child up to the end of the
/// directory's subtree into the tree.
pub proof fn lemma_walk(
    nodes: Seq<(Seq<u8>, int, int, int, int)>,
    entries: Seq<RarcEntry>,
    strings: Seq<u8>,
    data: Seq<u8>,
    es: Listing,
    j: int,
    i: int,
    m0: Map<Seq<char>, Option<Seq<u8>>>,
)
    requires
        is_preorder(es),
        writable(es),
        tables_read(nodes, entries, strings, data, es),
        -1 <= j < es.len(),
        j >= 0 ==> es[j].1.is_none(),
        j < i <= dir_end(es, j),
        i < dir_end(es, j) ==> child_of(es, i, j),
    ensures
        walk(
            nodes,
            entries,
            strings,
            data,
            dirs_below(es, j + 1),
            run_start(es, j + 1) + 2 + children_upto(es, j + 1, i).len(),
            run_start(es, j + 1) + group(es, j + 1).len(),
            dir_path(es, j),
            m0,
        ) == Ok::<Map<Seq<char>, Option<Seq<u8>>>, RarcError>(with_range(m0, es, i, dir_end(es, j))),
    decreases dir_end(es, j) - i,
{
    let n = es.len() as int;
    let rec = j + 1;
    let rs = run_start(es, rec);
    let c = children_upto(es, rec, i).len() as int;
    let total = children_upto(es, rec, n).len() as int;
    let k = rs + 2 + c;
    let end = rs + 2 + total;
    let node = dirs_below(es, rec);
    let hi = dir_end(es, j);
    let prefix = dir_path(es, j);
    if j >= 0 {
        lemma_beyond(es, j);
    }
    assert(is_dir_record(es, rec));
    lemma_run_step(es, rec);
    lemma_runs_ordered(es, rec, n + 1);
    assert(end <= entries.len());
    lemma_children_grow(es, rec, i, n);
    if i >= hi {
        assert forall|x: int| hi <= x < n implies #[trigger] parent_record(es, x) != rec by {
            lemma_not_child_beyond(es, j, x);
        }
        lemma_no_children(es, rec, hi, n);
        lemma_range_empty(m0, es, hi);
    } else {
        lemma_child_at(es, rec, i, n);
        lemma_entry_in_run(es, rec, 2 + c, n + 1);
        let e = entries[k];
        assert(e == child_entry(es, i));
        assert(is_valid_path(es[i].0));
        lemma_child_name(es, i);
        lemma_child_fields(es, i);
        lemma_child_parent(es, i, j);
        lemma_parent_name(es[i].0);
        let name = name_of(es[i].0);
        assert(join(prefix, name) == es[i].0);
        lemma_nested(es, j, i);
        match es[i].1 {
            Some(d) => {
                lemma_data_window(es, i, n);
                let m1 = m0.insert(es[i].0, Some(d));
                if i + 1 < hi {
                    lemma_next_sibling(es, j, i);
                }
                lemma_walk(nodes, entries, strings, data, es, j, i + 1, m1);
                lemma_range_first(m0, es, i, hi);
                assert(walk(nodes, entries, strings, data, node, k, end, prefix, m0) == walk(
                    nodes,
                    entries,
                    strings,
                    data,
                    node,
                    k + 1,
                    end,
                    prefix,
                    m1,
                ));
            },
            None => {
                lemma_beyond(es, i);
                let ei = extent(es, i);
                let child = dirs_below(es, i + 1);
                assert(is_dir_record(es, i + 1));
                lemma_dirs_ordered(es, rec, i + 1);
                lemma_dirs_ordered(es, i + 1, n + 1);
                lemma_run_step(es, i + 1);
                lemma_runs_ordered(es, i + 1, n + 1);
                let rs2 = run_start(es, i + 1);
                let end2 = rs2 + group(es, i + 1).len();
                assert(nodes[child].4 == rs2);
                assert(nodes[child].3 == group(es, i + 1).len());
                // the two entries that the child's run starts with are passed over
                lemma_entry_in_run(es, i + 1, 0, n + 1);
                lemma_entry_in_run(es, i + 1, 1, n + 1);
                lemma_dot_names(es, i + 1);
                assert(entries[rs2] == dot_entry(es, i + 1));
                assert(entries[rs2 + 1] == dotdot_entry(es, i + 1));
                assert forall|x: int| 0 <= x < i + 1 implies #[trigger] parent_record(es, x) != i + 1 by {
                    assert(has_parent(es, x));
                    lemma_parent_record_bounds(es, x);
                }
                lemma_no_children(es, i + 1, 0, i + 1);
                if i + 1 < ei {
                    lemma_first_child(es, i);
                }
                lemma_walk(nodes, entries, strings, data, es, i, i + 1, m0);
                let inner = with_range(m0, es, i + 1, ei);
                assert(walk(nodes, entries, strings, data, child, rs2, end2, es[i].0, m0) == walk(
                    nodes,
                    entries,
                    strings,
                    data,
                    child,
                    rs2 + 1,
                    end2,
                    es[i].0,
                    m0,
                ));
                assert(walk(nodes, entries, strings, data, child, rs2 + 1, end2, es[i].0, m0) == walk(
                    nodes,
                    entries,
                    strings,
                    data,
                    child,
                    rs2 + 2,
                    end2,
                    es[i].0,
                    m0,
                ));
                assert(walk(nodes, entries, strings, data, child, rs2, end2, es[i].0, m0) == Ok::<
                    Map<Seq<char>, Option<Seq<u8>>>,
                    RarcError,
                >(inner));
                lemma_range_first(m0, es, i, ei);
                let m2 = inner.insert(es[i].0, None);
                assert(m2 == with_range(m0, es, i, ei));
                assert forall|x: int| i + 1 <= x < ei implies #[trigger] parent_record(es, x) != rec by {
                    lemma_not_child_inside(es, j, i, x);
                }
                lemma_no_children(es, rec, i + 1, ei);
                if ei < hi {
                    lemma_next_sibling(es, j, i);
                }
                lemma_walk(nodes, entries, strings, data, es, j, ei, m2);
                lemma_range_join(m0, es, i, ei, hi);
                assert(walk(nodes, entries, strings, data, node, k, end, prefix, m0) == walk(
                    nodes,
                    entries,
                    strings,
                    data,
                    node,
                    k + 1,
                    end,
                    prefix,
                    m2,
                ));
            },
        }
    }
}

/// The walk over the root's run reads the whole listing.
pub proof fn lemma_walk_root(
    nodes: Seq<(Seq<u8>, int, int, int, int)>,
    entries: Seq<RarcEntry>,
    strings: Seq<u8>,
    data: Seq<u8>,
    es: Listing,
)
    requires
        is_preorder(es),
        writable(es),
        tables_read(nodes, entries, strings, data, es),
    ensures
        nodes.len() > 0,
        nodes[0].4 + nodes[0].3 <= entries.len(),
        walk(
            nodes,
            entries,
            strings,
            data,
            0,
            nodes[0].4,
            nodes[0].4 + nodes[0].3,
            Seq::empty(),
            Map::empty(),
        ) == Ok::<Map<Seq<char>, Option<Seq<u8>>>, RarcError>(
            with_range(Map::empty(), es, 0, es.len() as int),
        ),
{
    let n = es.len() as int;
    let m0: Map<Seq<char>, Option<Seq<u8>>> = Map::empty();
    assert(is_dir_record(es, 0));
    lemma_dirs_ordered(es, 0, n + 1);
    lemma_run_step(es, 0);
    lemma_runs_ordered(es, 0, n + 1);
    let end = group(es, 0).len() as int;
    assert(nodes[0].4 == 0);
    assert(nodes[0].3 == end);
    lemma_entry_in_run(es, 0, 0, n + 1);
    lemma_entry_in_run(es, 0, 1, n + 1);
    lemma_dot_names(es, 0);
    assert forall|x: int| 0 <= x < 0 implies #[trigger] parent_record(es, x) != 0 by {}
    lemma_no_children(es, 0, 0, 0);
    if n > 0 {
        lemma_first_child(es, -1);
    }
    lemma_walk(nodes, entries, strings, data, es, -1, 0, m0);
    assert(dir_path(es, -1) =~= Seq::<char>::empty());
    assert(walk(nodes, entries, strings, data, 0, 0, end, Seq::empty(), m0) == walk(
        nodes,
        entries,
        strings,
        data,
        0,
        1,
        end,
        Seq::empty(),
        m0,
    ));
    assert(walk(nodes, entries, strings, data, 0, 1, end, Seq::empty(), m0) == walk(
        nodes,
        entries,
        strings,
        data,
        0,
        2,
        end,
        Seq::empty(),
        m0,
    ));
}

} // verus!
