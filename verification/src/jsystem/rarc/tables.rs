//! The tables that the writer of an archive prepares.

use crate::endian::put_slice;
use crate::jsystem::rarc::encode::{all_names_ok, children_upto, dirs_below, entries_upto, files_below, fixed_strings, groups_fit, is_dir_record, name_ok, stored_name, strings_upto};
use crate::jsystem::rarc::utils::{encode_shift_jis, StringTableWriter};
use crate::layout::{data_upto, encodable, is_plan, lemma_data_grows, lemma_parent_record_bounds, Slot};
use crate::path::{name_of, split_parent};
use crate::trie::{entries_view, slice_view};
use vstd::prelude::*;

verus! {

/// A vector of `n` zeros.
fn zeros_u32(n: usize) -> (r: Vec<u32>)
    ensures
        r@.len() == n,
        forall|i: int| 0 <= i < n ==> r@[i] == 0,
{
    let mut r: Vec<u32> = Vec::new();
    let mut i: usize = 0;
    while i < n
        invariant
            i <= n,
            r@.len() == i,
            forall|j: int| 0 <= j < i ==> r@[j] == 0,
        decreases n - i,
    {
        r.push(0);
        i += 1;
    }
    r
}

/// No record has more children than there are entries.
pub proof fn lemma_children_len(es: Seq<(Seq<char>, Option<Seq<u8>>)>, rec: int, k: int)
    requires
        0 <= k,
    ensures
        children_upto(es, rec, k).len() <= k,
    decreases k,
{
    if k > 0 {
        lemma_children_len(es, rec, k - 1);
    }
}

/// Counts the children of every record: the result holds, for each record,
/// how many entries have it as their directory.
pub fn count_children(es: &Vec<(&str, Option<&[u8]>)>, slots: &Vec<Slot>) -> (counts: Vec<u32>)
    requires
        es@.len() <= 0xFFFF,
        encodable(entries_view(es@)),
        is_plan(slots@, entries_view(es@)),
    ensures
        counts@.len() == es@.len() + 1,
        forall|rec: int|
            0 <= rec <= es@.len() ==> #[trigger] counts@[rec] == children_upto(
                entries_view(es@),
                rec,
                es@.len() as int,
            ).len(),
{
    let n: usize = es.len();
    let ghost v = entries_view(es@);
    let mut counts: Vec<u32> = zeros_u32(n + 1);
    let mut i: usize = 0;
    while i < n
        invariant
            i <= n,
            n == es@.len(),
            n <= 0xFFFF,
            v == entries_view(es@),
            encodable(v),
            is_plan(slots@, v),
            counts@.len() == n + 1,
            forall|rec: int| 0 <= rec <= n ==> #[trigger] counts@[rec] == children_upto(v, rec, i as int).len(),
        decreases n - i,
    {
        let p: usize = slots[i].parent;
        proof {
            lemma_parent_record_bounds(v, i as int);
            lemma_children_len(v, p as int, i as int);
        }
        let c: u32 = counts[p];
        counts.set(p, c + 1);
        i += 1;
    }
    counts
}

/// Whether every directory's entries, its own two counted, can be counted
/// in 16 bits.
pub fn groups_within_limit(es: &Vec<(&str, Option<&[u8]>)>, counts: &Vec<u32>) -> (r: bool)
    requires
        es@.len() <= 0xFFFF,
        counts@.len() == es@.len() + 1,
        forall|rec: int|
            0 <= rec <= es@.len() ==> #[trigger] counts@[rec] == children_upto(
                entries_view(es@),
                rec,
                es@.len() as int,
            ).len(),
    ensures
        r == groups_fit(entries_view(es@)),
{
    let n: usize = es.len();
    let ghost v = entries_view(es@);
    let mut rec: usize = 0;
    while rec <= n
        invariant
            rec <= n + 1,
            n == es@.len(),
            n <= 0xFFFF,
            v == entries_view(es@),
            counts@.len() == n + 1,
            forall|q: int| 0 <= q <= n ==> #[trigger] counts@[q] == children_upto(v, q, n as int).len(),
            forall|q: int|
                0 <= q < rec && is_dir_record(v, q) ==> #[trigger] children_upto(v, q, n as int).len() + 2
                    <= 0xFFFF,
        decreases n + 1 - rec,
    {
        let is_dir: bool = rec == 0 || es[rec - 1].1.is_none();
        proof {
            if rec > 0 {
                assert(v[rec - 1].1 == slice_view(es@[rec - 1].1));
            }
            lemma_children_len(v, rec as int, n as int);
            assert(counts@[rec as int] == children_upto(v, rec as int, n as int).len());
        }
        if is_dir && counts[rec] + 2 > 0xFFFF {
            assert(is_dir_record(v, rec as int));
            assert(children_upto(v, rec as int, v.len() as int).len() + 2 > 0xFFFF);
            return false;
        }
        rec += 1;
    }
    true
}

/// The number of every record's directory and the place of its entries:
/// the first result holds, for each record, how many directories come
/// before it, and the second how many entries the directories before it have.
pub fn record_tables(es: &Vec<(&str, Option<&[u8]>)>, counts: &Vec<u32>) -> (r: (Vec<u32>, Vec<u32>))
    requires
        es@.len() <= 0xFFFF,
        groups_fit(entries_view(es@)),
        counts@.len() == es@.len() + 1,
        forall|rec: int|
            0 <= rec <= es@.len() ==> #[trigger] counts@[rec] == children_upto(
                entries_view(es@),
                rec,
                es@.len() as int,
            ).len(),
    ensures
        r.0@.len() == es@.len() + 2,
        r.1@.len() == es@.len() + 2,
        forall|rec: int|
            0 <= rec <= es@.len() + 1 ==> #[trigger] r.0@[rec] == dirs_below(entries_view(es@), rec),
        forall|rec: int|
            0 <= rec <= es@.len() + 1 ==> #[trigger] r.1@[rec] == entries_upto(
                entries_view(es@),
                rec,
            ).len(),
{
    let n: usize = es.len();
    let ghost v = entries_view(es@);
    let mut ids: Vec<u32> = Vec::new();
    let mut offsets: Vec<u32> = Vec::new();
    ids.push(0);
    offsets.push(0);
    let mut rec: usize = 0;
    while rec <= n
        invariant
            rec <= n + 1,
            n == es@.len(),
            n <= 0xFFFF,
            v == entries_view(es@),
            groups_fit(v),
            counts@.len() == n + 1,
            forall|q: int| 0 <= q <= n ==> #[trigger] counts@[q] == children_upto(v, q, n as int).len(),
            ids@.len() == rec + 1,
            offsets@.len() == rec + 1,
            forall|q: int| 0 <= q <= rec ==> #[trigger] ids@[q] == dirs_below(v, q),
            forall|q: int| 0 <= q <= rec ==> #[trigger] offsets@[q] == entries_upto(v, q).len(),
            dirs_below(v, rec as int) <= rec,
            entries_upto(v, rec as int).len() <= 0xFFFF * rec,
        decreases n + 1 - rec,
    {
        let is_dir: bool = rec == 0 || es[rec - 1].1.is_none();
        proof {
            if rec > 0 {
                assert(v[rec - 1].1 == slice_view(es@[rec - 1].1));
            }
            assert(counts@[rec as int] == children_upto(v, rec as int, n as int).len());
            assert(ids@[rec as int] == dirs_below(v, rec as int));
            assert(offsets@[rec as int] == entries_upto(v, rec as int).len());
            if is_dir {
                assert(is_dir_record(v, rec as int));
                assert(children_upto(v, rec as int, v.len() as int).len() + 2 <= 0xFFFF);
            }
            assert(0xFFFF * (rec + 1) <= 0xFFFF_FFFF) by (nonlinear_arith)
                requires
                    rec <= 0xFFFF,
            ;
        }
        let id: u32 = ids[rec];
        let offset: u32 = offsets[rec];
        if is_dir {
            ids.push(id + 1);
            offsets.push(offset + counts[rec] + 2);
        } else {
            ids.push(id);
            offsets.push(offset);
        }
        rec += 1;
    }
    (ids, offsets)
}

/// Whether no byte is zero.
pub fn no_zero(bytes: &[u8]) -> (r: bool)
    ensures
        r == (forall|k: int| 0 <= k < bytes@.len() ==> #[trigger] bytes@[k] != 0),
{
    let m: usize = bytes.len();
    let mut k: usize = 0;
    while k < m
        invariant
            k <= m,
            m == bytes@.len(),
            forall|q: int| 0 <= q < k ==> #[trigger] bytes@[q] != 0,
        decreases m - k,
    {
        if bytes[k] == 0 {
            return false;
        }
        k += 1;
    }
    true
}

/// The bytes of every entry's name, unless some name cannot be written.
pub fn encode_names(es: &Vec<(&str, Option<&[u8]>)>) -> (r: Option<Vec<Vec<u8>>>)
    ensures
        r.is_some() == all_names_ok(entries_view(es@)),
        r.is_some() ==> r.unwrap()@.len() == es@.len() && forall|i: int|
            0 <= i < es@.len() ==> (#[trigger] r.unwrap()@[i])@ == stored_name(entries_view(es@), i),
{
    let n: usize = es.len();
    let ghost v = entries_view(es@);
    let mut names: Vec<Vec<u8>> = Vec::new();
    let mut i: usize = 0;
    while i < n
        invariant
            i <= n,
            n == es@.len(),
            v == entries_view(es@),
            names@.len() == i,
            forall|j: int| 0 <= j < i ==> name_ok(name_of(#[trigger] v[j].0)),
            forall|j: int| 0 <= j < i ==> (#[trigger] names@[j])@ == stored_name(v, j),
        decreases n - i,
    {
        let (_parent, name) = split_parent(es[i].0);
        assert(v[i as int].0 == es@[i as int].0@);
        let (bytes, unmappable) = encode_shift_jis(name);
        if unmappable || !no_zero(bytes.as_slice()) || crate::jsystem::rarc::decode::dot_name(
            bytes.as_slice(),
        ) {
            return None;
        }
        let back: String = crate::jsystem::rarc::utils::decode_shift_jis(bytes.as_slice());
        if !crate::path::same_text(back.as_str(), name) {
            return None;
        }
        names.push(bytes);
        i += 1;
    }
    Some(names)
}

/// The string table only grows.
pub proof fn lemma_strings_grow(es: Seq<(Seq<char>, Option<Seq<u8>>)>, a: int, b: int)
    requires
        0 <= a <= b,
    ensures
        strings_upto(es, a).len() <= strings_upto(es, b).len(),
        a < b ==> strings_upto(es, a).len() < strings_upto(es, b).len(),
        strings_upto(es, a).len() >= 10,
    decreases b,
{
    if a < b {
        lemma_strings_grow(es, a, b - 1);
    } else if a > 0 {
        lemma_strings_grow(es, 0, a - 1);
        lemma_strings_grow(es, a - 1, a - 1);
    }
}

/// The string table and where each entry's name starts in it, unless the
/// table grows beyond 65536 bytes.
pub(crate) fn name_table(names: &Vec<Vec<u8>>, Ghost(v): Ghost<Seq<(Seq<char>, Option<Seq<u8>>)>>) -> (r:
    Option<(Vec<u8>, Vec<u16>)>)
    requires
        names@.len() == v.len(),
        forall|i: int| 0 <= i < v.len() ==> (#[trigger] names@[i])@ == stored_name(v, i),
    ensures
        r.is_some() == (strings_upto(v, v.len() as int).len() <= 0x1_0000),
        r.is_some() ==> r.unwrap().0@ == strings_upto(v, v.len() as int) && r.unwrap().1@.len()
            == v.len() && forall|i: int|
            0 <= i < v.len() ==> #[trigger] r.unwrap().1@[i] == strings_upto(v, i).len(),
{
    let n: usize = names.len();
    let mut table = StringTableWriter::new();
    let dot: [u8; 1] = [0x2E];
    let dotdot: [u8; 2] = [0x2E, 0x2E];
    let root: [u8; 4] = [0x52, 0x4F, 0x4F, 0x54];
    table.write_bytes(dot.as_slice());
    table.write_bytes(dotdot.as_slice());
    table.write_bytes(root.as_slice());
    assert(table@ =~= fixed_strings());
    let mut offsets: Vec<u16> = Vec::new();
    let mut i: usize = 0;
    while i < n
        invariant
            i <= n,
            n == names@.len(),
            n == v.len(),
            forall|j: int| 0 <= j < v.len() ==> (#[trigger] names@[j])@ == stored_name(v, j),
            table@ == strings_upto(v, i as int),
            table@.len() <= 0x1_0000,
            offsets@.len() == i,
            forall|j: int| 0 <= j < i ==> #[trigger] offsets@[j] == strings_upto(v, j).len(),
        decreases n - i,
    {
        let offset: usize = table.write_bytes(names[i].as_slice());
        proof {
            lemma_strings_grow(v, i + 1, n as int);
            assert(table@ =~= strings_upto(v, i + 1));
        }
        if table.0.len() > 0x1_0000 {
            return None;
        }
        offsets.push(offset as u16);
        i += 1;
    }
    Some((table.0, offsets))
}

/// The data region and where each file's contents start in it, unless the
/// region grows beyond what 32 bits can address.
pub fn data_table(es: &Vec<(&str, Option<&[u8]>)>) -> (r: Option<(Vec<u8>, Vec<u32>)>)
    ensures
        r.is_some() == (data_upto(entries_view(es@), es@.len() as int).len() <= 0xFFFF_FFFF),
        r.is_some() ==> r.unwrap().0@ == data_upto(entries_view(es@), es@.len() as int)
            && r.unwrap().1@.len() == es@.len() && forall|i: int|
            0 <= i < es@.len() ==> #[trigger] r.unwrap().1@[i] == data_upto(entries_view(es@), i).len(),
{
    let n: usize = es.len();
    let ghost v = entries_view(es@);
    let mut data: Vec<u8> = Vec::new();
    let mut offsets: Vec<u32> = Vec::new();
    let mut i: usize = 0;
    while i < n
        invariant
            i <= n,
            n == es@.len(),
            v == entries_view(es@),
            data@ == data_upto(v, i as int),
            data@.len() <= 0xFFFF_FFFF,
            offsets@.len() == i,
            forall|j: int| 0 <= j < i ==> #[trigger] offsets@[j] == data_upto(v, j).len(),
        decreases n - i,
    {
        assert(v[i as int].1 == slice_view(es@[i as int].1));
        offsets.push(data.len() as u32);
        proof {
            lemma_data_grows(v, i + 1, n as int);
        }
        match es[i].1 {
            Some(d) => {
                if d.len() > 0xFFFF_FFFF - data.len() {
                    return None;
                }
                put_slice(&mut data, d);
            },
            None => {
                assert(data@ =~= data_upto(v, i + 1));
            },
        }
        i += 1;
    }
    Some((data, offsets))
}

/// The id of every file: how many files come before it.
pub fn file_ids(es: &Vec<(&str, Option<&[u8]>)>) -> (r: Vec<u16>)
    requires
        es@.len() <= 0xFFFF,
    ensures
        r@.len() == es@.len() + 1,
        forall|i: int| 0 <= i <= es@.len() ==> #[trigger] r@[i] == files_below(entries_view(es@), i),
{
    let n: usize = es.len();
    let ghost v = entries_view(es@);
    let mut ids: Vec<u16> = Vec::new();
    ids.push(0);
    let mut i: usize = 0;
    while i < n
        invariant
            i <= n,
            n == es@.len(),
            n <= 0xFFFF,
            v == entries_view(es@),
            ids@.len() == i + 1,
            forall|j: int| 0 <= j <= i ==> #[trigger] ids@[j] == files_below(v, j),
            files_below(v, i as int) <= i,
        decreases n - i,
    {
        assert(v[i as int].1 == slice_view(es@[i as int].1));
        let id: u16 = ids[i];
        if es[i].1.is_some() {
            ids.push(id + 1);
        } else {
            ids.push(id);
        }
        i += 1;
    }
    ids
}

} // verus!
