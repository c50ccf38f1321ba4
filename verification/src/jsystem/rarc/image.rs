//! The tables of an image, read back from its bytes.

use crate::endian::{lemma_range_in_first, lemma_range_in_second, lemma_range_of_range, lemma_u16_round_trip, lemma_u32_round_trip, u16_bytes, u32_bytes, zeros, Endian};
use crate::jsystem::rarc::decode::{entry_table_of, node_table_of, rarc_decoded, root_tag, tables_ok};
use crate::jsystem::rarc::encode::{children_upto, data_start, dir_record_bytes, dir_table_upto, dirs_below, entries_upto, entry_table_upto, group, groups_fit, image, image_header, image_len, is_dir_record, rarc_encoded, strings_start, strings_upto};
use crate::jsystem::rarc::entry::{entry_at, entry_bytes, RarcEntry};
use crate::jsystem::rarc::error::{RarcError, RarcResult};
use crate::jsystem::rarc::header::{field, header_bytes, header_of, storable, RarcHeader, RARC_MAGIC};
use crate::jsystem::rarc::node::node_fields_at;
use crate::jsystem::rarc::place::{lemma_run_step, run_start};
use crate::jsystem::rarc::round_trip::{lemma_counts, lemma_data_fits, lemma_dirs_ordered, lemma_walk_root, tables_read, writable};
use crate::jsystem::rarc::utils::{name_hash, tag_of};
use crate::layout::{data_upto, Listing};
use crate::path::name_of;
use crate::preorder::{lemma_listing_distinct, lemma_range_all, valid_paths};
use vstd::prelude::*;

verus! {

/// An entry record that was written is read back as it was.
pub proof fn lemma_entry_round_trip(order: Endian, e: RarcEntry, b: Seq<u8>, pos: int)
    requires
        0 <= pos,
        pos + 20 <= b.len(),
        b.subrange(pos, pos + 20) == entry_bytes(order, e),
    ensures
        entry_at(order, b, pos) == e,
{
    let w = entry_bytes(order, e);
    lemma_u16_round_trip(order, e.id);
    lemma_u16_round_trip(order, e.name_hash);
    lemma_u16_round_trip(order, e.ty);
    lemma_u16_round_trip(order, e.name_offset);
    lemma_u32_round_trip(order, e.data_offset);
    lemma_u32_round_trip(order, e.length);
    assert(b.subrange(pos, pos + 2) =~= w.subrange(0, 2));
    assert(b.subrange(pos + 2, pos + 4) =~= w.subrange(2, 4));
    assert(b.subrange(pos + 4, pos + 6) =~= w.subrange(4, 6));
    assert(b.subrange(pos + 6, pos + 8) =~= w.subrange(6, 8));
    assert(b.subrange(pos + 8, pos + 12) =~= w.subrange(8, 12));
    assert(b.subrange(pos + 12, pos + 16) =~= w.subrange(12, 16));
    assert(w.subrange(0, 2) =~= u16_bytes(order, e.id));
    assert(w.subrange(2, 4) =~= u16_bytes(order, e.name_hash));
    assert(w.subrange(4, 6) =~= u16_bytes(order, e.ty));
    assert(w.subrange(6, 8) =~= u16_bytes(order, e.name_offset));
    assert(w.subrange(8, 12) =~= u32_bytes(order, e.data_offset));
    assert(w.subrange(12, 16) =~= u32_bytes(order, e.length));
}

/// The record of entry `k` stands at its place among the entry records.
pub proof fn lemma_entry_window(order: Endian, s: Seq<RarcEntry>, k: int, n: int)
    requires
        0 <= k < n <= s.len(),
    ensures
        entry_table_upto(order, s, n).len() == 20 * n,
        entry_table_upto(order, s, n).subrange(20 * k, 20 * k + 20) == entry_bytes(order, s[k]),
    decreases n,
{
    lemma_entry_table_len(order, s, n - 1);
    let r = entry_table_upto(order, s, n);
    let p = entry_table_upto(order, s, n - 1);
    if k < n - 1 {
        lemma_entry_window(order, s, k, n - 1);
        assert(r.subrange(20 * k, 20 * k + 20) =~= p.subrange(20 * k, 20 * k + 20));
    } else {
        assert(r.subrange(20 * k, 20 * k + 20) =~= entry_bytes(order, s[k]));
    }
}

/// The entry records take 20 bytes each.
pub proof fn lemma_entry_table_len(order: Endian, s: Seq<RarcEntry>, n: int)
    requires
        0 <= n,
    ensures
        entry_table_upto(order, s, n).len() == 20 * n,
    decreases n,
{
    if n > 0 {
        lemma_entry_table_len(order, s, n - 1);
    }
}

/// The directory records take 16 bytes each.
pub proof fn lemma_dir_table_len(order: Endian, es: Listing, r: int)
    requires
        0 <= r,
    ensures
        dir_table_upto(order, es, r).len() == 16 * dirs_below(es, r),
    decreases r,
{
    if r > 0 {
        lemma_dir_table_len(order, es, r - 1);
    }
}

/// The record of a directory stands at its place among the directory records.
pub proof fn lemma_dir_window(order: Endian, es: Listing, rec: int, r: int)
    requires
        0 <= rec < r,
        is_dir_record(es, rec),
    ensures
        16 * dirs_below(es, rec) + 16 <= dir_table_upto(order, es, r).len(),
        dir_table_upto(order, es, r).subrange(16 * dirs_below(es, rec), 16 * dirs_below(es, rec) + 16)
            == dir_record_bytes(order, es, rec),
    decreases r,
{
    lemma_dir_table_len(order, es, r);
    lemma_dir_table_len(order, es, r - 1);
    lemma_dir_table_len(order, es, rec);
    lemma_counts(es, rec);
    let t = dir_table_upto(order, es, r);
    let p = dir_table_upto(order, es, r - 1);
    let a = 16 * dirs_below(es, rec);
    if rec < r - 1 {
        lemma_dir_window(order, es, rec, r - 1);
        assert(t.subrange(a, a + 16) =~= p.subrange(a, a + 16));
    } else {
        assert(t.subrange(a, a + 16) =~= dir_record_bytes(order, es, rec));
    }
}

/// The runs of the directories before a record hold at most 65535 entries each.
pub proof fn lemma_run_start_bound(es: Listing, r: int)
    requires
        groups_fit(es),
        0 <= r <= es.len() as int + 1,
    ensures
        0 <= run_start(es, r) <= 0xFFFF * r,
    decreases r,
{
    if r > 0 {
        lemma_run_start_bound(es, r - 1);
        lemma_run_step(es, r - 1);
        if is_dir_record(es, r - 1) {
            assert(children_upto(es, r - 1, es.len() as int).len() + 2 <= 0xFFFF);
        }
    }
}

/// The tag of the root's directory record is the letters ROOT.
pub proof fn lemma_root_tag()
    ensures
        tag_of("ROOT"@) == root_tag(),
{
    reveal_strlit("ROOT");
    assert("ROOT"@.len() == 4);
    assert("ROOT"@[0] == 'R' && "ROOT"@[1] == 'O' && "ROOT"@[2] == 'O' && "ROOT"@[3] == 'T');
    assert(('R' as u32) % 0x100 == 0x52);
    assert(('O' as u32) % 0x100 == 0x4F);
    assert(('T' as u32) % 0x100 == 0x54);
    assert(tag_of("ROOT"@) =~= root_tag());
}

/// The five fields of a directory record stand one after another in its
/// sixteen bytes.
pub proof fn lemma_dir_record_windows(order: Endian, tag: Seq<u8>, a: u32, b: u16, c: u16, d: u32)
    requires
        tag.len() == 4,
    ensures
        ({
            let w = tag + u32_bytes(order, a) + u16_bytes(order, b) + u16_bytes(
                order,
                c,
            ) + u32_bytes(order, d);
            &&& w.len() == 16
            &&& w.subrange(0, 4) == tag
            &&& w.subrange(10, 12) == u16_bytes(order, c)
            &&& w.subrange(12, 16) == u32_bytes(order, d)
        }),
{
    let q1 = tag + u32_bytes(order, a);
    let q2 = q1 + u16_bytes(order, b);
    let q3 = q2 + u16_bytes(order, c);
    let w = q3 + u32_bytes(order, d);
    lemma_range_in_second(q3, u32_bytes(order, d), 0, 4);
    assert(u32_bytes(order, d).subrange(0, 4) =~= u32_bytes(order, d));
    lemma_range_in_first(q3, u32_bytes(order, d), 10, 12);
    lemma_range_in_second(q2, u16_bytes(order, c), 0, 2);
    assert(u16_bytes(order, c).subrange(0, 2) =~= u16_bytes(order, c));
    lemma_range_in_first(q3, u32_bytes(order, d), 0, 4);
    lemma_range_in_first(q2, u16_bytes(order, c), 0, 4);
    lemma_range_in_first(q1, u16_bytes(order, b), 0, 4);
    lemma_range_in_first(tag, u32_bytes(order, a), 0, 4);
    assert(tag.subrange(0, 4) =~= tag);
}

/// The fields of a directory record are read back from its bytes.
pub proof fn lemma_dir_fields(order: Endian, es: Listing, rec: int, t: Seq<u8>, pos: int)
    requires
        writable(es),
        0 <= rec <= es.len(),
        is_dir_record(es, rec),
        0 <= pos,
        pos + 16 <= t.len(),
        t.subrange(pos, pos + 16) == dir_record_bytes(order, es, rec),
    ensures
        node_fields_at(order, t, pos).3 == group(es, rec).len(),
        node_fields_at(order, t, pos).4 == run_start(es, rec),
        rec == 0 ==> node_fields_at(order, t, pos).0 == root_tag(),
{
    let w = dir_record_bytes(order, es, rec);
    let name = if rec <= 0 {
        "ROOT"@
    } else {
        name_of(es[rec - 1].0)
    };
    let name_offset = if rec <= 0 {
        5
    } else {
        strings_upto(es, rec - 1).len() as int
    };
    let count = group(es, rec).len() as u16;
    let offset = entries_upto(es, rec).len() as u32;
    assert(children_upto(es, rec, es.len() as int).len() + 2 <= 0xFFFF);
    lemma_run_start_bound(es, rec);
    assert(0xFFFF * rec <= 0xFFFF_FFFF) by (nonlinear_arith)
        requires
            0 <= rec <= 0x1_0000,
    ;
    lemma_u16_round_trip(order, count);
    lemma_u32_round_trip(order, offset);
    assert(tag_of(name).len() == 4);
    lemma_dir_record_windows(
        order, tag_of(name),
        name_offset as u32,
        name_hash(name) as u16,
        count,
        offset,
    );
    lemma_range_of_range(t, pos, 16, 10, 12);
    lemma_range_of_range(t, pos, 16, 12, 16);
    lemma_range_of_range(t, pos, 16, 0, 4);
    if rec == 0 {
        lemma_root_tag();
    }
}

/// The fields of the header of an image hold what they say without loss.
pub proof fn lemma_header_fields(es: Listing)
    requires
        writable(es),
    ensures
        storable(image_header(es)),
        image_header(es).node_count == dirs_below(es, es.len() as int + 1),
        image_header(es).node_table_offset == 0x40,
        image_header(es).entry_count == run_start(es, es.len() as int + 1),
        image_header(es).entry_table_offset == 0x40 + 16 * dirs_below(es, es.len() as int + 1),
        image_header(es).string_table_offset == strings_start(es),
        image_header(es).string_table_size == strings_upto(es, es.len() as int).len(),
        image_header(es).data_offset == data_start(es),
        image_header(es).data_length == data_upto(es, es.len() as int).len(),
        0 < dirs_below(es, es.len() as int + 1) <= es.len() as int + 1,
{
    let n = es.len() as int;
    lemma_counts(es, n + 1);
    lemma_counts(es, n);
    lemma_data_fits(es);
    lemma_run_start_bound(es, n + 1);
    assert(0xFFFF * (n + 1) <= 0xFFFF_FFFF) by (nonlinear_arith)
        requires
            0 <= n <= 0xFFFF,
    ;
    lemma_dirs_ordered(es, 0, n + 1);
}

/// The parts of the image and where they stand.
pub proof fn lemma_image_parts(order: Endian, es: Listing)
    requires
        writable(es),
    ensures
        image(order, es).len() == image_len(es),
        image(order, es).subrange(0, 0x40) == header_bytes(order, image_header(es)),
        image(order, es).subrange(0x40, 0x40 + 16 * dirs_below(es, es.len() as int + 1)) == dir_table_upto(
            order, es,
            es.len() as int + 1,
        ),
        image(order, es).subrange(0x40 + 16 * dirs_below(es, es.len() as int + 1), strings_start(es))
            == entry_table_upto(
            order, entries_upto(es, es.len() as int + 1),
            run_start(es, es.len() as int + 1),
        ),
        image(order, es).subrange(
            strings_start(es),
            strings_start(es) + strings_upto(es, es.len() as int).len() as int,
        ) == strings_upto(es, es.len() as int),
        image(order, es).subrange(
            data_start(es),
            data_start(es) + data_upto(es, es.len() as int).len() as int,
        ) == data_upto(es, es.len() as int),
{
    let n = es.len() as int;
    let table = entries_upto(es, n + 1);
    lemma_header_fields(es);
    lemma_data_fits(es);
    crate::jsystem::rarc::header::lemma_header_round_trip(order, image_header(es), Seq::empty());
    lemma_dir_table_len(order, es, n + 1);
    lemma_entry_table_len(order, table, table.len() as int);
    let hb = header_bytes(order, image_header(es));
    let dt = dir_table_upto(order, es, n + 1);
    let et = entry_table_upto(order, table, table.len() as int);
    let st = strings_upto(es, n);
    let z1 = zeros((data_start(es) - strings_start(es) - st.len()) as nat);
    let da = data_upto(es, n);
    let z2 = zeros((image_len(es) - data_start(es) - da.len()) as nat);
    let with_dirs = hb + dt;
    let with_entries = with_dirs + et;
    let with_strings = with_entries + st;
    let with_fill = with_strings + z1;
    let with_data = with_fill + da;
    let b = with_data + z2;
    assert(image(order, es) == b);
    // the data
    lemma_range_in_first(with_data, z2, with_fill.len() as int, with_data.len() as int);
    lemma_range_in_second(with_fill, da, 0, da.len() as int);
    assert(da.subrange(0, da.len() as int) =~= da);
    // the strings
    lemma_range_in_first(with_data, z2, with_entries.len() as int, with_strings.len() as int);
    lemma_range_in_first(with_fill, da, with_entries.len() as int, with_strings.len() as int);
    lemma_range_in_first(with_strings, z1, with_entries.len() as int, with_strings.len() as int);
    lemma_range_in_second(with_entries, st, 0, st.len() as int);
    assert(st.subrange(0, st.len() as int) =~= st);
    // the entry records
    lemma_range_in_first(with_data, z2, with_dirs.len() as int, with_entries.len() as int);
    lemma_range_in_first(with_fill, da, with_dirs.len() as int, with_entries.len() as int);
    lemma_range_in_first(with_strings, z1, with_dirs.len() as int, with_entries.len() as int);
    lemma_range_in_first(with_entries, st, with_dirs.len() as int, with_entries.len() as int);
    lemma_range_in_second(with_dirs, et, 0, et.len() as int);
    assert(et.subrange(0, et.len() as int) =~= et);
    // the directory records
    lemma_range_in_first(with_data, z2, 0x40, with_dirs.len() as int);
    lemma_range_in_first(with_fill, da, 0x40, with_dirs.len() as int);
    lemma_range_in_first(with_strings, z1, 0x40, with_dirs.len() as int);
    lemma_range_in_first(with_entries, st, 0x40, with_dirs.len() as int);
    lemma_range_in_first(with_dirs, et, 0x40, with_dirs.len() as int);
    lemma_range_in_second(hb, dt, 0, dt.len() as int);
    assert(dt.subrange(0, dt.len() as int) =~= dt);
    // the header
    lemma_range_in_first(with_data, z2, 0, 0x40);
    lemma_range_in_first(with_fill, da, 0, 0x40);
    lemma_range_in_first(with_strings, z1, 0, 0x40);
    lemma_range_in_first(with_entries, st, 0, 0x40);
    lemma_range_in_first(with_dirs, et, 0, 0x40);
    lemma_range_in_first(hb, dt, 0, 0x40);
    assert(hb.subrange(0, 0x40) =~= hb);
}

/// The header of an image is read back, and says where the tables stand.
pub proof fn lemma_image_header(order: Endian, es: Listing)
    requires
        writable(es),
    ensures
        header_of(order, image(order, es)) == Ok::<RarcHeader, RarcError>(image_header(es)),
        tables_ok(image(order, es), image_header(es)),
{
    let b = image(order, es);
    let h = image_header(es);
    lemma_header_fields(es);
    lemma_image_parts(order, es);
    lemma_data_fits(es);
    let rest = b.subrange(0x40, b.len() as int);
    assert(b =~= b.subrange(0, 0x40) + rest);
    crate::jsystem::rarc::header::lemma_header_round_trip(order, h, rest);
}

/// The directory records of an image are read back.
pub proof fn lemma_image_nodes(order: Endian, es: Listing)
    requires
        writable(es),
    ensures
        node_table_of(order, image(order, es), image_header(es)).len() == dirs_below(es, es.len() as int + 1),
        node_table_of(order, image(order, es), image_header(es))[0].0 == root_tag(),
        forall|rec: int|
            0 <= rec <= es.len() && #[trigger] is_dir_record(es, rec) ==> node_table_of(
                order, image(order, es),
                image_header(es),
            )[dirs_below(es, rec)].3 == group(es, rec).len() && node_table_of(
                order, image(order, es),
                image_header(es),
            )[dirs_below(es, rec)].4 == run_start(es, rec),
{
    let n = es.len() as int;
    let b = image(order, es);
    let h = image_header(es);
    lemma_header_fields(es);
    lemma_image_parts(order, es);
    let nodes = node_table_of(order, b, h);
    let dt = b.subrange(0x40, 0x40 + 16 * dirs_below(es, n + 1));
    assert forall|rec: int| 0 <= rec <= es.len() && #[trigger] is_dir_record(es, rec) implies nodes[dirs_below(
        es,
        rec,
    )].3 == group(es, rec).len() && nodes[dirs_below(es, rec)].4 == run_start(es, rec) by {
        lemma_dir_window(order, es, rec, n + 1);
        lemma_dirs_ordered(es, rec, n + 1);
        lemma_counts(es, rec);
        lemma_dir_fields(order, es, rec, dt, 16 * dirs_below(es, rec));
    }
    assert(is_dir_record(es, 0));
    lemma_dir_window(order, es, 0, n + 1);
    lemma_dir_fields(order, es, 0, dt, 0);
}

/// The entry records of an image are read back.
pub proof fn lemma_image_entries(order: Endian, es: Listing)
    requires
        writable(es),
    ensures
        entry_table_of(order, image(order, es), image_header(es)) == entries_upto(es, es.len() as int + 1),
{
    let n = es.len() as int;
    let b = image(order, es);
    let h = image_header(es);
    let table = entries_upto(es, n + 1);
    lemma_header_fields(es);
    lemma_image_parts(order, es);
    let entries = entry_table_of(order, b, h);
    let et = b.subrange(0x40 + 16 * dirs_below(es, n + 1), strings_start(es));
    lemma_entry_table_len(order, table, table.len() as int);
    assert(entries.len() == table.len());
    assert forall|k: int| 0 <= k < table.len() implies entries[k] == table[k] by {
        lemma_entry_window(order, table, k, table.len() as int);
        lemma_entry_round_trip(order, table[k], et, 20 * k);
    }
    assert(entries =~= table);
}

/// The tables that are read from an image are those of its listing.
pub proof fn lemma_tables_read(order: Endian, es: Listing)
    requires
        writable(es),
    ensures
        header_of(order, image(order, es)) == Ok::<RarcHeader, RarcError>(image_header(es)),
        tables_ok(image(order, es), image_header(es)),
        node_table_of(order, image(order, es), image_header(es))[0].0 == root_tag(),
        tables_read(
            node_table_of(order, image(order, es), image_header(es)),
            entry_table_of(order, image(order, es), image_header(es)),
            image(order, es).subrange(
                image_header(es).string_table_offset as int,
                image_header(es).string_table_offset + image_header(es).string_table_size,
            ),
            image(order, es).subrange(
                image_header(es).data_offset as int,
                image_header(es).data_offset + image_header(es).data_length,
            ),
            es,
        ),
{
    lemma_header_fields(es);
    lemma_image_parts(order, es);
    lemma_image_header(order, es);
    lemma_image_nodes(order, es);
    lemma_image_entries(order, es);
}

/// What is written is read back: where a tree with valid paths is written
/// as an image, reading the image gives the tree again.
///
/// `es` is the tree's listing. A tree that cannot be written, because an
/// entry does not find its directory open, because a name does not
/// survive the table's character set, or because it is too large, has no
/// image to read back.
pub proof fn theorem_decode_of_encode(
    order: Endian, m: Map<Seq<char>, Option<Seq<u8>>>,
    es: Listing,
    bytes: Seq<u8>,
)
    requires
        crate::trie::is_listing(es, m),
        crate::tree::valid_keys(m),
        rarc_encoded(order, es) == Ok::<Seq<u8>, RarcError>(bytes),
    ensures
        rarc_decoded(order, bytes) == Ok::<Map<Seq<char>, Option<Seq<u8>>>, RarcError>(m),
{
    lemma_listing_distinct(es, m);
    assert(valid_paths(es)) by {
        assert forall|i: int| 0 <= i < es.len() implies crate::path::is_valid_path(#[trigger] es[i].0) by {
            assert(m.contains_key(es[i].0));
        }
    }
    assert(writable(es));
    assert(bytes == image(order, es));
    lemma_tables_read(order, es);
    let h = image_header(es);
    lemma_walk_root(
        node_table_of(order, bytes, h),
        entry_table_of(order, bytes, h),
        bytes.subrange(h.string_table_offset as int, h.string_table_offset + h.string_table_size),
        bytes.subrange(h.data_offset as int, h.data_offset + h.data_length),
        es,
    );
    lemma_range_all(es, m);
}

/// A tree in which every entry has its directories, and in which no path
/// splits a directory from what lies in it, is never refused for a missing
/// directory. What is written of it is read back as the tree.
pub proof fn built_tree_round_trips(order: Endian, m: Map<Seq<char>, Option<Seq<u8>>>, es: Listing)
    requires
        crate::trie::is_listing(es, m),
        crate::tree::valid_keys(m),
        crate::tree::is_hierarchy(m),
        crate::canonical::is_contiguous(m),
    ensures
        !(rarc_encoded(order, es) matches Err(RarcError::MissingDirectory)),
        rarc_encoded(order, es) matches Ok(bytes) ==> rarc_decoded(order, bytes) == Ok::<
            Map<Seq<char>, Option<Seq<u8>>>,
            RarcError,
        >(m),
{
    crate::canonical::hierarchy_is_encodable(m, es);
    if let Ok(bytes) = rarc_encoded(order, es) {
        theorem_decode_of_encode(order, m, es, bytes);
    }
}

/// A tree with at most 65535 entries is refused for a missing directory
/// where, and only where, an entry lacks a directory above it or a path
/// splits a directory from what lies in it.
pub proof fn missing_directory_is_refused(order: Endian, m: Map<Seq<char>, Option<Seq<u8>>>, es: Listing)
    requires
        crate::trie::is_listing(es, m),
        crate::tree::valid_keys(m),
        es.len() <= 0xFFFF,
    ensures
        (rarc_encoded(order, es) matches Err(RarcError::MissingDirectory)) == !(crate::tree::is_hierarchy(m)
            && crate::canonical::is_contiguous(m)),
{
    crate::canonical::encodable_trees(m, es);
}

/// An archive of more than 65535 entries is not written.
pub proof fn too_many_entries_is_refused(order: Endian, m: Map<Seq<char>, Option<Seq<u8>>>, es: Listing)
    requires
        crate::trie::is_listing(es, m),
        m.dom().finite() ==> m.dom().len() > 0xFFFF,
    ensures
        rarc_encoded(order, es) == Err::<Seq<u8>, RarcError>(RarcError::TooManyEntries),
{
    crate::order::lemma_listing_len(es, m);
}

/// A buffer that does not start with the signature is refused for that,
/// whatever else it holds.
pub proof fn wrong_magic_is_refused(order: Endian, b: Seq<u8>)
    requires
        b.len() >= 4,
        field(order, b, 0) != RARC_MAGIC,
    ensures
        rarc_decoded(order, b) == Err::<Map<Seq<char>, Option<Seq<u8>>>, RarcError>(
            RarcError::InvalidMagic(field(order, b, 0) as u32),
        ),
{
}

/// The sizes of the image of an archive without entries.
proof fn lemma_empty_sizes()
    ensures
        writable(Seq::empty()),
        image_len(Seq::empty()) == 160,
{
    let es: Listing = Seq::empty();
    assert(is_dir_record(es, 0));
    assert(dirs_below(es, 0) == 0);
    assert(dirs_below(es, 1) == 1);
    assert(children_upto(es, 0, 0).len() == 0);
    assert(entries_upto(es, 0).len() == 0);
    assert(entries_upto(es, 1) == entries_upto(es, 0) + group(es, 0));
    assert(entries_upto(es, 1).len() == 2);
    assert(strings_upto(es, 0).len() == 10);
    assert(data_upto(es, 0).len() == 0);
    assert(strings_start(es) == 120);
    assert(data_start(es) == 160);
    assert(image_len(es) == 160);
    assert(groups_fit(es)) by {
        assert forall|rec: int| 0 <= rec <= es.len() && is_dir_record(es, rec) implies #[trigger] children_upto(
            es,
            rec,
            es.len() as int,
        ).len() + 2 <= 0xFFFF by {
            assert(rec == 0);
        }
    }
}

/// An archive without entries is written as 160 bytes, and they are read
/// as an archive without entries.
pub proof fn empty_archive_reads_empty(order: Endian)
    ensures
        rarc_encoded(order, Seq::empty()) == Ok::<Seq<u8>, RarcError>(image(order, Seq::empty())),
        image(order, Seq::empty()).len() == 160,
        rarc_decoded(order, image(order, Seq::empty())) == Ok::<Map<Seq<char>, Option<Seq<u8>>>, RarcError>(
            Map::empty(),
        ),
{
    let es: Listing = Seq::empty();
    let m: Map<Seq<char>, Option<Seq<u8>>> = Map::empty();
    lemma_empty_sizes();
    assert(rarc_encoded(order, es) == Ok::<Seq<u8>, RarcError>(image(order, es)));
    lemma_image_parts(order, es);
    assert(crate::trie::is_listing(es, m));
    assert(crate::tree::valid_keys(m));
    theorem_decode_of_encode(order, m, es, image(order, es));
}

/// What an archive is written as, and what it is saved as, depends on its
/// entries, the byte order and the quality alone: two archives with the
/// same entries are written alike and saved alike, and where one is
/// refused the other is refused for the same reason.
pub proof fn encode_is_deterministic(
    order: Endian,
    a: crate::jsystem::rarc::RarcArchive,
    b: crate::jsystem::rarc::RarcArchive,
    quality: usize,
    first: RarcResult<Vec<u8>>,
    second: RarcResult<Vec<u8>>,
    first_saved: RarcResult<Vec<u8>>,
    second_saved: RarcResult<Vec<u8>>,
)
    requires
        a@ == b@,
        call_ensures(crate::jsystem::rarc::RarcArchive::encode, (&a, order), first),
        call_ensures(crate::jsystem::rarc::RarcArchive::encode, (&b, order), second),
        call_ensures(crate::jsystem::rarc::RarcArchive::save, (&a, order, quality), first_saved),
        call_ensures(crate::jsystem::rarc::RarcArchive::save, (&b, order, quality), second_saved),
    ensures
        first.is_ok() == second.is_ok(),
        first.is_ok() ==> first.unwrap()@ == second.unwrap()@,
        first.is_err() ==> first.unwrap_err() == second.unwrap_err(),
        first_saved.is_ok() == second_saved.is_ok(),
        first_saved.is_ok() ==> first_saved.unwrap()@ == second_saved.unwrap()@,
        first_saved.is_err() ==> first_saved.unwrap_err() == second_saved.unwrap_err(),
{
}

/// An archive whose image can be written is saved, at any quality of 1 to
/// 10, as what the compressor makes of that image.
pub proof fn save_compresses_the_image(
    order: Endian,
    a: crate::jsystem::rarc::RarcArchive,
    quality: usize,
    written: RarcResult<Vec<u8>>,
    saved: RarcResult<Vec<u8>>,
)
    requires
        crate::jsystem::rarc::compress::quality_ok(quality),
        call_ensures(crate::jsystem::rarc::RarcArchive::encode, (&a, order), written),
        call_ensures(crate::jsystem::rarc::RarcArchive::save, (&a, order, quality), saved),
        written.is_ok(),
    ensures
        saved matches Ok(out) && out@ == crate::jsystem::rarc::compress::yaz0_compressed(
            written.unwrap()@,
            quality,
        ),
{
}

/// An archive that is written and read again is the archive that was
/// written: where `encode` returns an image of an archive whose paths are
/// valid, `read` returns, for that image, an archive with the same entries.
pub proof fn read_returns_what_encode_took(
    order: Endian,
    a: crate::jsystem::rarc::RarcArchive,
    listed: Vec<(&str, Option<&[u8]>)>,
    written: RarcResult<Vec<u8>>,
    input: &[u8],
    read: RarcResult<crate::jsystem::rarc::RarcArchive>,
)
    requires
        a.wf(),
        call_ensures(crate::jsystem::rarc::RarcArchive::iter, (&a,), listed),
        call_ensures(crate::jsystem::rarc::RarcArchive::encode, (&a, order), written),
        written.is_ok(),
        input@ == written.unwrap()@,
        call_ensures(crate::jsystem::rarc::RarcArchive::read, (order, input), read),
    ensures
        read matches Ok(b) && b@ == a@,
{
    let es = crate::order::listing(a@);
    theorem_decode_of_encode(order, a@, es, input@);
}

} // verus!
