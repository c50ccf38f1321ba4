//! Reading back what was written.
//!
//! An image that was written from a listing is read as the tree of that
//! listing: the records stand where the walk looks for them, each name is
//! found under its offset, each file's contents under theirs, and the walk
//! over the records follows the listing.

use crate::endian::Endian;
use crate::layout::{data_upto, encodable, end_record, Listing};
use crate::path::{is_valid_path, join, lemma_parent_name, name_of};
use crate::preorder::{child_of, dir_end, dir_path, is_preorder, lemma_beyond, lemma_child_parent, lemma_first_child, lemma_nested, lemma_next_sibling, lemma_range_empty, lemma_range_first, lemma_range_join, valid_paths, with_range};
use crate::wii::error::{WiiError, WiiResult};
use crate::wii::u8_archive::decode::{entry_name, walk};
use crate::wii::u8_archive::encode::{all_plain, data_start, image, image_header, image_len, lemma_records_len, lemma_upto_grows, pool_upto, record_of, records_upto, root_record, table_len};
use crate::wii::u8_archive::header::{header_bytes, header_of, lemma_header_round_trip};
use crate::wii::u8_archive::node::{lemma_node_round_trip, node_at, node_bytes, U8Node};
use crate::wii::u8_archive::utils::{is_plain_name, lemma_name_bytes, name_bytes, name_entry};
use crate::wii::utils::{lemma_nul_after, nul_from};
use vstd::prelude::*;
use vstd::utf8::encode_utf8;

verus! {

/// Where the string pool of the image starts.
pub open spec fn strings_at(es: Listing) -> int {
    32 + 12 * (es.len() as int + 1)
}

/// The image has room for what it has to hold.
pub open spec fn fits(es: Listing) -> bool {
    &&& es.len() < 0xFFFF_FFFF
    &&& pool_upto(es, es.len() as int).len() <= 0x100_0000
    &&& image_len(es) <= 0xFFFF_FFFF
}

/// Entry `i` is read from the buffer as it stands in the listing.
pub open spec fn record_reads(order: Endian, b: Seq<u8>, es: Listing, i: int) -> bool {
    let r = record_of(es, i);
    &&& node_at(order, b, 32 + 12 * (i + 1)) == Ok::<U8Node, WiiError>(r)
    &&& entry_name(b, strings_at(es), r) == Ok::<Seq<char>, WiiError>(name_of(es[i].0))
    &&& match es[i].1 {
        Some(d) => r.ty == 0 && r.data_offset + r.size <= b.len() && b.subrange(
            r.data_offset as int,
            r.data_offset + r.size,
        ) == d,
        None => r.ty == 1 && r.size == end_record(es, i),
    }
}

/// Every record is read from the buffer as it stands in the listing.
pub open spec fn reads_back(order: Endian, b: Seq<u8>, es: Listing) -> bool {
    &&& node_at(order, b, 32) == Ok::<U8Node, WiiError>(root_record(es))
    &&& forall|i: int| 0 <= i < es.len() ==> #[trigger] record_reads(order, b, es, i)
}

/// A record is read from the twelve bytes at its place alone.
proof fn lemma_node_window(order: Endian, b: Seq<u8>, pos: int, r: U8Node)
    requires
        0 <= pos,
        pos + 12 <= b.len(),
        b.subrange(pos, pos + 12) == node_bytes(order, r),
        r.name_offset < 0x1000000,
    ensures
        node_at(order, b, pos) == Ok::<U8Node, WiiError>(r),
{
    let w = node_bytes(order, r);
    lemma_node_round_trip(order, r, Seq::empty(), Seq::empty());
    assert(Seq::<u8>::empty() + w + Seq::<u8>::empty() =~= w);
    assert(w[0] == b[pos]);
    assert(b.subrange(pos + 1, pos + 4) =~= w.subrange(1, 4));
    assert(b.subrange(pos + 4, pos + 8) =~= w.subrange(4, 8));
    assert(b.subrange(pos + 8, pos + 12) =~= w.subrange(8, 12));
}

/// The record of entry `i` stands at its place among the records.
proof fn lemma_record_window(order: Endian, es: Listing, i: int, n: int)
    requires
        0 <= i < n,
    ensures
        records_upto(order, es, n).len() == 12 * (n + 1),
        records_upto(order, es, n).subrange(12 * (i + 1), 12 * (i + 2)) == node_bytes(order, record_of(es, i)),
        records_upto(order, es, n).subrange(0, 12) == node_bytes(order, root_record(es)),
    decreases n,
{
    lemma_records_len(order, es, n);
    lemma_records_len(order, es, n - 1);
    let r = records_upto(order, es, n);
    let p = records_upto(order, es, n - 1);
    if i < n - 1 {
        lemma_record_window(order, es, i, n - 1);
        assert(r.subrange(12 * (i + 1), 12 * (i + 2)) =~= p.subrange(12 * (i + 1), 12 * (i + 2)));
        assert(r.subrange(0, 12) =~= p.subrange(0, 12));
    } else {
        assert(r.subrange(12 * (i + 1), 12 * (i + 2)) =~= node_bytes(order, record_of(es, i)));
        if n - 1 > 0 {
            lemma_record_window(order, es, 0, n - 1);
            assert(r.subrange(0, 12) =~= p.subrange(0, 12));
        } else {
            assert(r.subrange(0, 12) =~= p);
        }
    }
}

/// The name of entry `i` stands at its place in the pool.
proof fn lemma_pool_window(es: Listing, i: int, n: int)
    requires
        0 <= i < n,
    ensures
        pool_upto(es, i).len() + name_entry(name_of(es[i].0)).len() <= pool_upto(es, n).len(),
        pool_upto(es, n).subrange(
            pool_upto(es, i).len() as int,
            (pool_upto(es, i).len() + name_entry(name_of(es[i].0)).len()) as int,
        ) == name_entry(name_of(es[i].0)),
    decreases n,
{
    let p = pool_upto(es, n - 1);
    let r = pool_upto(es, n);
    let a = pool_upto(es, i).len() as int;
    let e = name_entry(name_of(es[i].0));
    if i < n - 1 {
        lemma_pool_window(es, i, n - 1);
        assert(r.subrange(a, a + e.len()) =~= p.subrange(a, a + e.len()));
    } else {
        assert(r.subrange(a, a + e.len()) =~= e);
    }
}

/// The contents of entry `i` stand at their place in the data.
proof fn lemma_data_window(es: Listing, i: int, n: int)
    requires
        0 <= i < n,
        es[i].1.is_some(),
    ensures
        data_upto(es, i).len() + es[i].1.unwrap().len() <= data_upto(es, n).len(),
        data_upto(es, n).subrange(
            data_upto(es, i).len() as int,
            (data_upto(es, i).len() + es[i].1.unwrap().len()) as int,
        ) == es[i].1.unwrap(),
    decreases n,
{
    let p = data_upto(es, n - 1);
    let r = data_upto(es, n);
    let a = data_upto(es, i).len() as int;
    let d = es[i].1.unwrap();
    if i < n - 1 {
        lemma_data_window(es, i, n - 1);
        assert(r.subrange(a, a + d.len()) =~= p.subrange(a, a + d.len()));
    } else {
        assert(r.subrange(a, a + d.len()) =~= d);
    }
}

/// The bytes of a plain name are its UTF-8 encoding.
proof fn lemma_plain_is_utf8(s: Seq<char>)
    requires
        is_plain_name(s),
    ensures
        name_bytes(s) == encode_utf8(s),
{
    lemma_name_bytes(s);
    assert(vstd::utf8::is_ascii_chars(s)) by {
        assert forall|i: int| 0 <= i < s.len() implies '\0' <= #[trigger] s[i] <= '\u{7f}' by {
            assert(crate::wii::u8_archive::utils::is_plain_char(s[i]));
        }
    }
    vstd::utf8::is_ascii_chars_encode_utf8(s);
    assert(name_bytes(s) =~= encode_utf8(s)) by {
        assert forall|i: int| 0 <= i < s.len() implies name_bytes(s)[i] == encode_utf8(s)[i] by {
            assert(crate::wii::u8_archive::utils::is_plain_char(s[i]));
        }
    }
}

/// The parts of the image and where they stand.
proof fn lemma_image_parts(order: Endian, es: Listing)
    requires
        fits(es),
    ensures
        image(order, es).len() == image_len(es),
        32 + table_len(es) <= data_start(es),
        data_start(es) + data_upto(es, es.len() as int).len() <= image_len(es),
        image(order, es).subrange(0, 32) == header_bytes(order, image_header(es)),
        image(order, es).subrange(32, strings_at(es)) == records_upto(order, es, es.len() as int),
        image(order, es).subrange(strings_at(es), 32 + table_len(es)) == pool_upto(es, es.len() as int),
        image(order, es).subrange(data_start(es), data_start(es) + data_upto(es, es.len() as int).len())
            == data_upto(es, es.len() as int),
{
    let n = es.len() as int;
    lemma_records_len(order, es, n);
    lemma_header_round_trip(order, image_header(es), Seq::empty());
    let b = image(order, es);
    assert(b.subrange(0, 32) =~= header_bytes(order, image_header(es)));
    assert(b.subrange(32, strings_at(es)) =~= records_upto(order, es, n));
    assert(b.subrange(strings_at(es), 32 + table_len(es)) =~= pool_upto(es, n));
    assert(b.subrange(data_start(es), data_start(es) + data_upto(es, n).len()) =~= data_upto(es, n));
}

/// The name of an entry is read back from the image.
proof fn lemma_name_reads(order: Endian, es: Listing, i: int)
    requires
        fits(es),
        0 <= i < es.len(),
        is_valid_path(es[i].0),
        is_plain_name(name_of(es[i].0)),
    ensures
        entry_name(image(order, es), strings_at(es), record_of(es, i)) == Ok::<Seq<char>, WiiError>(
            name_of(es[i].0),
        ),
        record_of(es, i).name_offset < 0x100_0000,
        record_of(es, i).name_offset == pool_upto(es, i).len(),
{
    let n = es.len() as int;
    let b = image(order, es);
    let name = name_of(es[i].0);
    let bytes = name_bytes(name);
    lemma_parent_name(es[i].0);
    lemma_name_bytes(name);
    lemma_plain_is_utf8(name);
    lemma_image_parts(order, es);
    lemma_pool_window(es, i, n);
    lemma_upto_grows(es, 0, i);
    let pool = pool_upto(es, n);
    let off = pool_upto(es, i).len() as int;
    let pos = strings_at(es) + off;
    assert(name_entry(name) == bytes.push(0u8));
    let w = pool.subrange(off, off + bytes.len() + 1);
    assert forall|k: int| pos <= k < pos + bytes.len() implies #[trigger] b[k] != 0 by {
        assert(b[k] == pool[k - strings_at(es)]);
        assert(pool[k - strings_at(es)] == w[k - pos]);
        assert(w[k - pos] == bytes[k - pos]);
    }
    assert(b[pos + bytes.len()] == 0) by {
        assert(b[pos + bytes.len()] == pool[off + bytes.len()]);
        assert(pool[off + bytes.len()] == w[bytes.len() as int]);
    }
    lemma_nul_after(b, pos, bytes.len() as int);
    assert(b.subrange(pos, pos + bytes.len()) =~= bytes) by {
        assert forall|k: int| 0 <= k < bytes.len() implies b.subrange(pos, pos + bytes.len())[k]
            == bytes[k] by {
            assert(b[pos + k] == pool[off + k]);
            assert(pool[off + k] == w[k]);
        }
    }
    vstd::utf8::encode_utf8_valid_utf8(name);
    vstd::utf8::encode_utf8_decode_utf8(name);
}

/// The twelve bytes of an entry's record are read back from the image.
proof fn lemma_record_node(order: Endian, es: Listing, i: int)
    requires
        fits(es),
        0 <= i < es.len(),
        record_of(es, i).name_offset < 0x100_0000,
    ensures
        node_at(order, image(order, es), 32 + 12 * (i + 1)) == Ok::<U8Node, WiiError>(record_of(es, i)),
{
    let n = es.len() as int;
    let b = image(order, es);
    lemma_image_parts(order, es);
    lemma_record_window(order, es, i, n);
    crate::endian::lemma_range_of_range(b, 32, 12 * (n + 1), 12 * (i + 1), 12 * (i + 2));
    lemma_node_window(order, b, 32 + 12 * (i + 1), record_of(es, i));
}

/// The contents of a file are read back from the image.
proof fn lemma_record_data(order: Endian, es: Listing, i: int, d: Seq<u8>)
    requires
        fits(es),
        0 <= i < es.len(),
        es[i].1 == Some(d),
    ensures
        data_start(es) + data_upto(es, i).len() + d.len() <= image(order, es).len(),
        image(order, es).subrange(
            data_start(es) + data_upto(es, i).len(),
            data_start(es) + data_upto(es, i).len() + d.len(),
        ) == d,
{
    let n = es.len() as int;
    let b = image(order, es);
    lemma_image_parts(order, es);
    lemma_data_window(es, i, n);
    let off = data_upto(es, i).len() as int;
    crate::endian::lemma_range_of_range(b, data_start(es), data_upto(es, n).len() as int, off, off + d.len());
}

/// The record of an entry is read back from the image.
proof fn lemma_record_reads(order: Endian, es: Listing, i: int)
    requires
        fits(es),
        0 <= i < es.len(),
        is_valid_path(es[i].0),
        is_plain_name(name_of(es[i].0)),
    ensures
        record_reads(order, image(order, es), es, i),
{
    let r = record_of(es, i);
    lemma_name_reads(order, es, i);
    lemma_record_node(order, es, i);
    match es[i].1 {
        Some(d) => {
            lemma_record_data(order, es, i, d);
            lemma_image_parts(order, es);
            assert(r.data_offset == data_start(es) + data_upto(es, i).len());
            assert(r.size == d.len());
        },
        None => {
            lemma_beyond(es, i);
        },
    }
}

/// Every record of an image is read back from it.
pub proof fn lemma_reads_back(order: Endian, es: Listing)
    requires
        fits(es),
        valid_paths(es),
        all_plain(es),
    ensures
        reads_back(order, image(order, es), es),
        header_of(order, image(order, es)) == Ok::<crate::wii::u8_archive::header::U8Header, WiiError>(
            image_header(es),
        ),
        strings_at(es) <= image(order, es).len(),
{
    let n = es.len() as int;
    let b = image(order, es);
    lemma_image_parts(order, es);
    lemma_upto_grows(es, 0, n);
    assert forall|i: int| 0 <= i < es.len() implies #[trigger] record_reads(order, b, es, i) by {
        assert(is_valid_path(es[i].0));
        assert(is_plain_name(name_of(es[i].0)));
        lemma_record_reads(order, es, i);
    }
    lemma_records_len(order, es, n);
    let recs = records_upto(order, es, n);
    if n > 0 {
        lemma_record_window(order, es, 0, n);
    } else {
        assert(recs.subrange(0, 12) =~= node_bytes(order, root_record(es)));
    }
    assert(b.subrange(32, 44) =~= recs.subrange(0, 12));
    lemma_node_window(order, b, 32, root_record(es));
    lemma_header_round_trip(
        order, image_header(es),
        b.subrange(32, b.len() as int),
    );
    assert(b =~= header_bytes(order, image_header(es)) + b.subrange(32, b.len() as int));
}

/// The walk over the records of a directory's contents, from a child of
/// the directory on, puts the entries from that child up to the end of the
/// directory's subtree into the tree.
proof fn lemma_walk(order: Endian, b: Seq<u8>, es: Listing, j: int, idx: int, m0: Map<Seq<char>, Option<Seq<u8>>>)
    requires
        is_preorder(es),
        es.len() < 0xFFFF_FFFF,
        reads_back(order, b, es),
        -1 <= j < es.len(),
        j >= 0 ==> es[j].1.is_none(),
        j + 1 < idx <= dir_end(es, j) + 1,
        idx <= dir_end(es, j) ==> child_of(es, idx - 1, j),
    ensures
        dir_end(es, j) <= es.len(),
        walk(order, b, 32, strings_at(es), idx, dir_end(es, j) + 1, dir_path(es, j), m0) == Ok::<
            Map<Seq<char>, Option<Seq<u8>>>,
            WiiError,
        >(with_range(m0, es, idx - 1, dir_end(es, j))),
    decreases dir_end(es, j) + 1 - idx,
{
    let hi = dir_end(es, j);
    let end = hi + 1;
    let prefix = dir_path(es, j);
    let sa = strings_at(es);
    if j >= 0 {
        lemma_beyond(es, j);
    }
    if idx >= end {
        lemma_range_empty(m0, es, hi);
    } else {
        let i = idx - 1;
        assert(record_reads(order, b, es, i));
        let node = record_of(es, i);
        let name = name_of(es[i].0);
        assert(is_valid_path(es[i].0));
        lemma_child_parent(es, i, j);
        lemma_parent_name(es[i].0);
        assert(join(prefix, name) == es[i].0);
        lemma_nested(es, j, i);
        match es[i].1 {
            Some(d) => {
                let m1 = m0.insert(es[i].0, Some(d));
                if i + 1 < hi {
                    lemma_next_sibling(es, j, i);
                }
                lemma_walk(order, b, es, j, idx + 1, m1);
                lemma_range_first(m0, es, i, hi);
                assert(walk(order, b, 32, sa, idx, end, prefix, m0) == walk(order, b, 32, sa, idx + 1, end, prefix, m1));
            },
            None => {
                lemma_beyond(es, i);
                let e = crate::layout::extent(es, i);
                assert(node.size == e + 1);
                if i + 1 < e {
                    lemma_first_child(es, i);
                }
                lemma_walk(order, b, es, i, idx + 1, m0);
                let inner = with_range(m0, es, i + 1, e);
                lemma_range_first(m0, es, i, e);
                let m2 = inner.insert(es[i].0, None);
                assert(m2 == with_range(m0, es, i, e));
                if e < hi {
                    lemma_next_sibling(es, j, i);
                }
                lemma_walk(order, b, es, j, e + 1, m2);
                lemma_range_join(m0, es, i, e, hi);
                assert(walk(order, b, 32, sa, idx + 1, node.size as int, es[i].0, m0) == Ok::<
                    Map<Seq<char>, Option<Seq<u8>>>,
                    WiiError,
                >(inner));
                assert(walk(order, b, 32, sa, idx, end, prefix, m0) == walk(
                    order, b,
                    32,
                    sa,
                    node.size as int,
                    end,
                    prefix,
                    m2,
                ));
            },
        }
    }
}

/// What is written is read back: where a tree with valid paths and plain
/// names is written as an image, reading the image gives the tree again.
///
/// `es` is the tree's listing. A tree that cannot be written, because an
/// entry does not find its directory open or because it is too large, has
/// no image to read back.
pub proof fn theorem_decode_of_encode(
    order: Endian, m: Map<Seq<char>, Option<Seq<u8>>>,
    es: Listing,
    policy: crate::wii::u8_archive::encode::NamePolicy,
    bytes: Seq<u8>,
)
    requires
        crate::trie::is_listing(es, m),
        crate::tree::valid_keys(m),
        all_plain(es),
        crate::wii::u8_archive::encode::u8_encoded(order, es, policy) == Ok::<Seq<u8>, WiiError>(bytes),
    ensures
        crate::wii::u8_archive::decode::u8_decoded(order, bytes) == Ok::<
            Map<Seq<char>, Option<Seq<u8>>>,
            WiiError,
        >(m),
{
    let n = es.len() as int;
    crate::preorder::lemma_listing_distinct(es, m);
    assert(valid_paths(es)) by {
        assert forall|i: int| 0 <= i < es.len() implies is_valid_path(#[trigger] es[i].0) by {
            assert(m.contains_key(es[i].0));
        }
    }
    assert(fits(es));
    assert(bytes == image(order, es));
    lemma_reads_back(order, es);
    let h = image_header(es);
    let root = root_record(es);
    lemma_upto_grows(es, 0, n);
    assert(h.root_node == 32);
    assert(root.size == n + 1);
    if n > 0 {
        lemma_first_child(es, -1);
    }
    lemma_walk(order, bytes, es, -1, 1, Map::empty());
    crate::preorder::lemma_range_all(es, m);
    assert(dir_path(es, -1) =~= Seq::<char>::empty());
}

/// A tree in which every entry has its directories, and in which no path
/// splits a directory from what lies in it, is never refused for a missing
/// directory. Where its names are plain it is written unless it is too
/// large, and what is written is read back as the tree.
pub proof fn built_tree_round_trips(
    order: Endian,
    m: Map<Seq<char>, Option<Seq<u8>>>,
    es: Listing,
    policy: crate::wii::u8_archive::encode::NamePolicy,
)
    requires
        crate::trie::is_listing(es, m),
        crate::tree::valid_keys(m),
        crate::tree::is_hierarchy(m),
        crate::canonical::is_contiguous(m),
    ensures
        !(crate::wii::u8_archive::encode::u8_encoded(order, es, policy) matches Err(WiiError::MissingDirectory)),
        all_plain(es) ==> match crate::wii::u8_archive::encode::u8_encoded(order, es, policy) {
            Ok(bytes) => crate::wii::u8_archive::decode::u8_decoded(order, bytes) == Ok::<
                Map<Seq<char>, Option<Seq<u8>>>,
                WiiError,
            >(m),
            Err(e) => e == WiiError::TooManyEntries || e == WiiError::BadOffset,
        },
{
    crate::canonical::hierarchy_is_encodable(m, es);
    if all_plain(es) {
        if let Ok(bytes) = crate::wii::u8_archive::encode::u8_encoded(order, es, policy) {
            theorem_decode_of_encode(order, m, es, policy, bytes);
        }
    }
}

/// A tree with fewer than 2^32 - 1 entries is refused for a missing
/// directory where, and only where, an entry lacks a directory above it
/// or a path splits a directory from what lies in it.
pub proof fn missing_directory_is_refused(
    order: Endian,
    m: Map<Seq<char>, Option<Seq<u8>>>,
    es: Listing,
    policy: crate::wii::u8_archive::encode::NamePolicy,
)
    requires
        crate::trie::is_listing(es, m),
        crate::tree::valid_keys(m),
        es.len() < 0xFFFF_FFFF,
    ensures
        (crate::wii::u8_archive::encode::u8_encoded(order, es, policy) matches Err(WiiError::MissingDirectory))
            == !(crate::tree::is_hierarchy(m) && crate::canonical::is_contiguous(m)),
{
    crate::canonical::encodable_trees(m, es);
}

/// The sizes of the image of an archive without entries.
proof fn lemma_empty_sizes()
    ensures
        fits(Seq::empty()),
        image_len(Seq::empty()) == 64,
        encodable(Seq::empty()),
        all_plain(Seq::empty()),
{
    let es: Listing = Seq::empty();
    assert(pool_upto(es, 0).len() == 1);
    assert(data_upto(es, 0).len() == 0);
    assert(table_len(es) == 13);
    assert(data_start(es) == 64);
    assert(image_len(es) == 64);
}

/// An archive without entries is written as 64 bytes, and they are read
/// as an archive without entries.
pub proof fn empty_archive_reads_empty(order: Endian, policy: crate::wii::u8_archive::encode::NamePolicy)
    ensures
        crate::wii::u8_archive::encode::u8_encoded(order, Seq::empty(), policy) == Ok::<Seq<u8>, WiiError>(
            image(order, Seq::empty()),
        ),
        image(order, Seq::empty()).len() == 64,
        crate::wii::u8_archive::decode::u8_decoded(order, image(order, Seq::empty())) == Ok::<
            Map<Seq<char>, Option<Seq<u8>>>,
            WiiError,
        >(Map::empty()),
{
    let es: Listing = Seq::empty();
    let m: Map<Seq<char>, Option<Seq<u8>>> = Map::empty();
    lemma_empty_sizes();
    assert(crate::wii::u8_archive::encode::u8_encoded(order, es, policy) == Ok::<Seq<u8>, WiiError>(
        image(order, es),
    ));
    lemma_image_parts(order, es);
    assert(crate::trie::is_listing(es, m));
    assert(crate::tree::valid_keys(m));
    theorem_decode_of_encode(order, m, es, policy, image(order, es));
}

/// A buffer that does not start with the signature is refused for that,
/// whatever else it holds.
pub proof fn wrong_magic_is_refused(order: Endian, b: Seq<u8>)
    requires
        b.len() >= 4,
        crate::endian::u32_of(order, b.subrange(0, 4))
            != crate::wii::u8_archive::header::U8_MAGIC,
    ensures
        crate::wii::u8_archive::decode::u8_decoded(order, b) == Err::<
            Map<Seq<char>, Option<Seq<u8>>>,
            WiiError,
        >(WiiError::InvalidMagic),
{
}

/// What an archive is written as depends on its entries and the policy
/// alone: two archives with the same entries are written alike.
pub proof fn encode_is_deterministic(
    order: Endian,
    a: crate::wii::u8_archive::U8Archive,
    b: crate::wii::u8_archive::U8Archive,
    policy: crate::wii::u8_archive::encode::NamePolicy,
    first: WiiResult<Vec<u8>>,
    second: WiiResult<Vec<u8>>,
)
    requires
        a@ == b@,
        call_ensures(crate::wii::u8_archive::U8Archive::encode, (&a, order, policy), first),
        call_ensures(crate::wii::u8_archive::U8Archive::encode, (&b, order, policy), second),
    ensures
        first.is_ok() == second.is_ok(),
        first.is_ok() ==> first.unwrap()@ == second.unwrap()@,
        first.is_err() ==> first.unwrap_err() == second.unwrap_err(),
{
}

/// An archive that is written and read again is the archive that was
/// written: where `encode` returns an image of an archive whose paths are
/// valid and whose names are plain, `decode` returns, for that image, an
/// archive with the same entries.
pub proof fn decode_returns_what_encode_took(
    order: Endian,
    a: crate::wii::u8_archive::U8Archive,
    policy: crate::wii::u8_archive::encode::NamePolicy,
    listed: Vec<(&str, Option<&[u8]>)>,
    written: WiiResult<Vec<u8>>,
    input: &[u8],
    read: WiiResult<crate::wii::u8_archive::U8Archive>,
)
    requires
        a.wf(),
        call_ensures(crate::wii::u8_archive::U8Archive::iter, (&a,), listed),
        policy == crate::wii::u8_archive::encode::NamePolicy::Reject || all_plain(
            crate::order::listing(a@),
        ),
        call_ensures(crate::wii::u8_archive::U8Archive::encode, (&a, order, policy), written),
        written.is_ok(),
        input@ == written.unwrap()@,
        call_ensures(crate::wii::u8_archive::U8Archive::decode, (order, input), read),
    ensures
        read matches Ok(b) && b@ == a@,
{
    let es = crate::order::listing(a@);
    theorem_decode_of_encode(order, a@, es, policy, input@);
}

} // verus!
