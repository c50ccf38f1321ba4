//! Putting the image of an archive together.

use crate::endian::{Endian, put_slice, put_zeros};
use crate::jsystem::rarc::encode::{children_upto, dir_table_upto, dirs_below, entry_table_upto, files_below, groups_fit, image, image_header, is_dir_record, rarc_encoded, strings_upto};
use crate::jsystem::rarc::entry::RarcEntry;
use crate::jsystem::rarc::error::{RarcError, RarcResult};
use crate::jsystem::rarc::header::RarcHeader;
use crate::jsystem::rarc::node::RarcNode;
use crate::jsystem::rarc::place::{place_entries, run_start};
use crate::jsystem::rarc::tables::{count_children, data_table, encode_names, file_ids, groups_within_limit, lemma_strings_grow, name_table, record_tables};
use crate::jsystem::rarc::utils::{create_tag, hash_str};
use crate::layout::{data_upto, lemma_data_grows, plan, Slot};
use crate::path::split_parent;
use crate::trie::{entries_view, slice_view};
use vstd::prelude::*;

verus! {

/// Appends the directory records.
fn write_dir_table(
    order: Endian, es: &Vec<(&str, Option<&[u8]>)>,
    counts: &Vec<u32>,
    offsets: &Vec<u32>,
    name_offsets: &Vec<u16>,
    out: &mut Vec<u8>,
)
    requires
        es@.len() <= 0xFFFF,
        groups_fit(entries_view(es@)),
        counts@.len() == es@.len() + 1,
        offsets@.len() == es@.len() + 2,
        name_offsets@.len() == es@.len(),
        forall|rec: int|
            0 <= rec <= es@.len() ==> #[trigger] counts@[rec] == children_upto(
                entries_view(es@),
                rec,
                es@.len() as int,
            ).len(),
        forall|rec: int|
            0 <= rec <= es@.len() + 1 ==> #[trigger] offsets@[rec] == run_start(entries_view(es@), rec),
        forall|i: int|
            0 <= i < es@.len() ==> #[trigger] name_offsets@[i] == strings_upto(entries_view(es@), i).len(),
    ensures
        final(out)@ == old(out)@ + dir_table_upto(order, entries_view(es@), es@.len() as int + 1),
{
    let n: usize = es.len();
    let ghost v = entries_view(es@);
    let mut rec: usize = 0;
    assert(out@ =~= old(out)@ + dir_table_upto(order, v, 0));
    while rec <= n
        invariant
            rec <= n + 1,
            n == es@.len(),
            n <= 0xFFFF,
            v == entries_view(es@),
            groups_fit(v),
            counts@.len() == n + 1,
            offsets@.len() == n + 2,
            name_offsets@.len() == n,
            forall|q: int| 0 <= q <= n ==> #[trigger] counts@[q] == children_upto(v, q, n as int).len(),
            forall|q: int| 0 <= q <= n + 1 ==> #[trigger] offsets@[q] == run_start(v, q),
            forall|q: int| 0 <= q < n ==> #[trigger] name_offsets@[q] == strings_upto(v, q).len(),
            out@ == old(out)@ + dir_table_upto(order, v, rec as int),
        decreases n + 1 - rec,
    {
        let is_dir: bool = rec == 0 || es[rec - 1].1.is_none();
        proof {
            if rec > 0 {
                assert(v[rec - 1].1 == slice_view(es@[rec - 1].1));
                assert(v[rec - 1].0 == es@[rec - 1].0@);
            }
            assert(counts@[rec as int] == children_upto(v, rec as int, n as int).len());
            assert(offsets@[rec as int] == run_start(v, rec as int));
        }
        if is_dir {
            assert(is_dir_record(v, rec as int));
            assert(children_upto(v, rec as int, v.len() as int).len() + 2 <= 0xFFFF);
            let node: RarcNode = if rec == 0 {
                RarcNode {
                    tag: create_tag("ROOT"),
                    name_offset: 5,
                    name_hash: hash_str("ROOT"),
                    entry_count: (counts[rec] + 2) as u16,
                    entry_offset: offsets[rec],
                }
            } else {
                let (_parent, name) = split_parent(es[rec - 1].0);
                RarcNode {
                    tag: create_tag(name),
                    name_offset: name_offsets[rec - 1] as u32,
                    name_hash: hash_str(name),
                    entry_count: (counts[rec] + 2) as u16,
                    entry_offset: offsets[rec],
                }
            };
            node.write(order, out);
            assert(out@ =~= old(out)@ + dir_table_upto(order, v, rec + 1));
        }
        rec += 1;
    }
}

/// Appends the entry records.
fn write_entry_table(order: Endian, table: &Vec<RarcEntry>, out: &mut Vec<u8>)
    ensures
        final(out)@ == old(out)@ + entry_table_upto(order, table@, table@.len() as int),
{
    let n: usize = table.len();
    let mut k: usize = 0;
    assert(out@ =~= old(out)@ + entry_table_upto(order, table@, 0));
    while k < n
        invariant
            k <= n,
            n == table@.len(),
            out@ == old(out)@ + entry_table_upto(order, table@, k as int),
        decreases n - k,
    {
        table[k].write(order, out);
        k += 1;
        assert(out@ =~= old(out)@ + entry_table_upto(order, table@, k as int));
    }
}

/// No file is longer than all the data together.
proof fn lemma_file_within_data(es: Seq<(Seq<char>, Option<Seq<u8>>)>, i: int)
    requires
        0 <= i < es.len(),
        es[i].1.is_some(),
    ensures
        es[i].1.unwrap().len() <= data_upto(es, es.len() as int).len(),
{
    lemma_data_grows(es, i + 1, es.len() as int);
}

/// There are no more directories, files or entry records than records allow.
proof fn lemma_counts(es: Seq<(Seq<char>, Option<Seq<u8>>)>, r: int)
    requires
        0 <= r,
    ensures
        0 <= dirs_below(es, r) <= r,
        0 <= files_below(es, r) <= r,
    decreases r,
{
    if r > 0 {
        lemma_counts(es, r - 1);
    }
}

/// Writes a listing as an archive, not compressed, with integers in the
/// given byte order.
pub fn encode_listing(order: Endian, es: &Vec<(&str, Option<&[u8]>)>) -> (r: RarcResult<Vec<u8>>)
    ensures
        match r {
            Ok(b) => rarc_encoded(order, entries_view(es@)) == Ok::<Seq<u8>, RarcError>(b@),
            Err(e) => rarc_encoded(order, entries_view(es@)) == Err::<Seq<u8>, RarcError>(e),
        },
{
    let n: usize = es.len();
    let ghost v = entries_view(es@);
    if n > 0xFFFF {
        return Err(RarcError::TooManyEntries);
    }
    let slots: Vec<Slot> = match plan(es) {
        Some(s) => s,
        None => {
            return Err(RarcError::MissingDirectory);
        },
    };
    let counts: Vec<u32> = count_children(es, &slots);
    if !groups_within_limit(es, &counts) {
        return Err(RarcError::TooManyEntries);
    }
    let names: Vec<Vec<u8>> = match encode_names(es) {
        Some(x) => x,
        None => {
            return Err(RarcError::NonRepresentableName);
        },
    };
    let (strings, name_offsets) = match name_table(&names, Ghost(v)) {
        Some(x) => x,
        None => {
            return Err(RarcError::BadOffset);
        },
    };
    let (ids, offsets) = record_tables(es, &counts);
    proof {
        lemma_counts(v, n + 1);
        lemma_counts(v, n as int);
        assert(ids@[n + 1] == dirs_below(v, n + 1));
        assert(offsets@[n + 1] == run_start(v, n + 1));
        lemma_strings_grow(v, 0, n as int);
    }
    let dir_count: u32 = ids[n + 1];
    let entry_count: u32 = offsets[n + 1];
    let strings_at: u64 = 0x40 + 16 * (dir_count as u64) + 20 * (entry_count as u64);
    let data_at: u64 = (strings_at + strings.len() as u64 + 31) / 32 * 32;
    let (data, data_offsets) = match data_table(es) {
        Some(x) => x,
        None => {
            return Err(RarcError::BadOffset);
        },
    };
    let total: u64 = (data_at + data.len() as u64 + 31) / 32 * 32;
    if total > 0xFFFF_FFFF {
        return Err(RarcError::BadOffset);
    }
    let files: Vec<u16> = file_ids(es);
    proof {
        assert forall|i: int| 0 <= i < es@.len() && (#[trigger] es@[i]).1.is_some() implies es@[i].1.unwrap()@.len()
            <= 0xFFFF_FFFF by {
            assert(v[i].1 == slice_view(es@[i].1));
            lemma_file_within_data(v, i);
        }
        assert(files@[n as int] == files_below(v, n as int));
    }
    let table: Vec<RarcEntry> = place_entries(
        es,
        &slots,
        &ids,
        &offsets,
        &name_offsets,
        &data_offsets,
        &files,
    );
    let header = RarcHeader {
        file_size: total as u32,
        data_header_offset: 0x20,
        data_offset: data_at as u32,
        data_length: data.len() as u32,
        mram_size: data.len() as u32,
        aram_size: 0,
        dvd_size: 0,
        node_count: dir_count,
        node_table_offset: 0x40,
        entry_count,
        entry_table_offset: (0x40 + 16 * (dir_count as u64)) as u32,
        string_table_size: strings.len() as u32,
        string_table_offset: strings_at as u32,
        next_free_file_id: files[n],
        keep_file_ids_sync: false,
    };
    assert(header == image_header(v));
    let mut out: Vec<u8> = Vec::new();
    header.write(order, &mut out);
    write_dir_table(order, es, &counts, &offsets, &name_offsets, &mut out);
    write_entry_table(order, &table, &mut out);
    put_slice(&mut out, strings.as_slice());
    put_zeros(&mut out, (data_at - strings_at - strings.len() as u64) as usize);
    put_slice(&mut out, data.as_slice());
    put_zeros(&mut out, (total - data_at - data.len() as u64) as usize);
    assert(out@ =~= image(order, v));
    Ok(out)
}

} // verus!
