//! Writing a tree as a flat archive.
//!
//! The image is the header, the records, the string pool, zero bytes up to
//! the next multiple of 32, the contents of the files, and zero bytes up to
//! the next multiple of 32 again. Record 0 is the root; record `i + 1`
//! stands for entry `i` of the listing. Offsets of contents count from the
//! start of the image.

use crate::endian::{Endian, put_slice, put_zeros, zeros};
use crate::layout::{align32, data_upto, encodable, end_record, is_plan, lemma_data_grows, lemma_run_end_bounds, plan, Slot};
use crate::path::{name_of, split_parent};
use crate::trie::{entries_view, slice_view};
use crate::wii::error::{WiiError, WiiResult};
use crate::wii::u8_archive::header::{header_bytes, U8Header};
use crate::wii::u8_archive::node::{node_bytes, U8Node};
use crate::wii::u8_archive::utils::{is_plain_name, name_entry, plain_name, StringTableWriter};
use crate::wii::utils::DataBufferWriter;
use vstd::prelude::*;

verus! {

/// What to do with a name that holds a character the pool cannot hold.
#[derive(Debug, Clone, Copy, PartialEq, Eq, Structural)]
pub enum NamePolicy {
    /// Refuse to write the archive.
    Reject,
    /// Write the name without that character.
    DropCharacters,
}

/// The string pool after the names of the first `k` entries were written.
pub open spec fn pool_upto(es: Seq<(Seq<char>, Option<Seq<u8>>)>, k: int) -> Seq<u8>
    decreases k,
{
    if k <= 0 {
        seq![0u8]
    } else {
        pool_upto(es, k - 1) + name_entry(name_of(es[k - 1].0))
    }
}

/// Where the name of entry `i` starts in the pool.
pub open spec fn name_offset_of(es: Seq<(Seq<char>, Option<Seq<u8>>)>, i: int) -> int {
    if name_of(es[i].0).len() == 0 {
        0
    } else {
        pool_upto(es, i).len() as int
    }
}

/// The length of the records and the string pool together.
pub open spec fn table_len(es: Seq<(Seq<char>, Option<Seq<u8>>)>) -> int {
    12 * (es.len() as int + 1) + pool_upto(es, es.len() as int).len() as int
}

/// Where the data region starts in the image.
pub open spec fn data_start(es: Seq<(Seq<char>, Option<Seq<u8>>)>) -> int {
    align32(32 + table_len(es))
}

/// The length of the image.
pub open spec fn image_len(es: Seq<(Seq<char>, Option<Seq<u8>>)>) -> int {
    align32(data_start(es) + data_upto(es, es.len() as int).len())
}

/// The record of the root: a directory whose subtree is the whole array.
pub open spec fn root_record(es: Seq<(Seq<char>, Option<Seq<u8>>)>) -> U8Node {
    U8Node { ty: 1, name_offset: 0, data_offset: 0, size: (es.len() + 1) as u32 }
}

/// The record of entry `i`.
pub open spec fn record_of(es: Seq<(Seq<char>, Option<Seq<u8>>)>, i: int) -> U8Node {
    match es[i].1 {
        Some(d) => U8Node {
            ty: 0,
            name_offset: name_offset_of(es, i) as u32,
            data_offset: (data_start(es) + data_upto(es, i).len()) as u32,
            size: d.len() as u32,
        },
        None => U8Node {
            ty: 1,
            name_offset: name_offset_of(es, i) as u32,
            data_offset: 0,
            size: end_record(es, i) as u32,
        },
    }
}

/// The bytes of the root's record and of the records of the first `k` entries.
pub open spec fn records_upto(order: Endian, es: Seq<(Seq<char>, Option<Seq<u8>>)>, k: int) -> Seq<u8>
    decreases k,
{
    if k <= 0 {
        node_bytes(order, root_record(es))
    } else {
        records_upto(order, es, k - 1) + node_bytes(order, record_of(es, k - 1))
    }
}

/// The header of the image.
pub open spec fn image_header(es: Seq<(Seq<char>, Option<Seq<u8>>)>) -> U8Header {
    U8Header {
        root_node: 32,
        header_size: table_len(es) as u32,
        data_offset: data_start(es) as u32,
    }
}

/// The image of a listing.
pub open spec fn image(order: Endian, es: Seq<(Seq<char>, Option<Seq<u8>>)>) -> Seq<u8> {
    let n = es.len() as int;
    header_bytes(order, image_header(es)) + records_upto(order, es, n) + pool_upto(es, n) + zeros(
        (data_start(es) - 32 - table_len(es)) as nat,
    ) + data_upto(es, n) + zeros((image_len(es) - data_start(es) - data_upto(es, n).len()) as nat)
}

/// Every name in the listing is plain.
pub open spec fn all_plain(es: Seq<(Seq<char>, Option<Seq<u8>>)>) -> bool {
    forall|i: int| 0 <= i < es.len() ==> is_plain_name(name_of(#[trigger] es[i].0))
}

/// The archive that a listing is written as, or why it cannot be written.
/// The reasons are looked for in this order, before any byte is produced:
/// too many entries for 32-bit indices; an entry that does not find its
/// directory open; under `Reject`, a name that is not plain; a string pool
/// of more than 2^24 bytes or an image longer than 32 bits can address.
pub open spec fn u8_encoded(order: Endian, es: Seq<(Seq<char>, Option<Seq<u8>>)>, policy: NamePolicy) -> WiiResult<
    Seq<u8>,
> {
    if es.len() >= 0xFFFF_FFFF {
        Err(WiiError::TooManyEntries)
    } else if !encodable(es) {
        Err(WiiError::MissingDirectory)
    } else if policy == NamePolicy::Reject && !all_plain(es) {
        Err(WiiError::NonRepresentableName)
    } else if pool_upto(es, es.len() as int).len() > 0x100_0000 || image_len(es) > 0xFFFF_FFFF {
        Err(WiiError::BadOffset)
    } else {
        Ok(image(order, es))
    }
}

/// The pool and the data only grow.
pub proof fn lemma_upto_grows(es: Seq<(Seq<char>, Option<Seq<u8>>)>, a: int, b: int)
    requires
        0 <= a <= b,
    ensures
        pool_upto(es, a).len() <= pool_upto(es, b).len(),
        data_upto(es, a).len() <= data_upto(es, b).len(),
        pool_upto(es, a).len() >= 1,
    decreases b,
{
    lemma_data_grows(es, a, b);
    if a < b {
        lemma_upto_grows(es, a, b - 1);
    } else if a > 0 {
        lemma_upto_grows(es, 0, a - 1);
        lemma_upto_grows(es, a - 1, a - 1);
    }
}

/// The records take 12 bytes each.
pub proof fn lemma_records_len(order: Endian, es: Seq<(Seq<char>, Option<Seq<u8>>)>, k: int)
    requires
        0 <= k,
    ensures
        records_upto(order, es, k).len() == 12 * (k + 1),
    decreases k,
{
    if k > 0 {
        lemma_records_len(order, es, k - 1);
    }
}

/// The record of entry `i` but for the start of the data region: a file's
/// offset counts from the start of that region.
pub open spec fn relative_record(es: Seq<(Seq<char>, Option<Seq<u8>>)>, i: int) -> U8Node {
    match es[i].1 {
        Some(d) => U8Node {
            ty: 0,
            name_offset: name_offset_of(es, i) as u32,
            data_offset: data_upto(es, i).len() as u32,
            size: d.len() as u32,
        },
        None => record_of(es, i),
    }
}

/// Writes a listing as a flat archive, with integers in the given byte order.
pub fn encode_listing(order: Endian, es: &Vec<(&str, Option<&[u8]>)>, policy: NamePolicy) -> (r: WiiResult<Vec<u8>>)
    ensures
        match r {
            Ok(b) => u8_encoded(order, entries_view(es@), policy) == Ok::<Seq<u8>, WiiError>(b@),
            Err(e) => u8_encoded(order, entries_view(es@), policy) == Err::<Seq<u8>, WiiError>(e),
        },
{
    let n: usize = es.len();
    let ghost v = entries_view(es@);
    if n >= 0xFFFF_FFFF {
        return Err(WiiError::TooManyEntries);
    }
    let slots: Vec<Slot> = match plan(es) {
        Some(s) => s,
        None => {
            return Err(WiiError::MissingDirectory);
        },
    };
    if policy == NamePolicy::Reject {
        let mut i: usize = 0;
        while i < n
            invariant
                i <= n,
                n == es@.len(),
                n < 0xFFFF_FFFF,
                v == entries_view(es@),
                encodable(v),
                policy == NamePolicy::Reject,
                forall|j: int| 0 <= j < i ==> is_plain_name(name_of(#[trigger] v[j].0)),
            decreases n - i,
        {
            let (_parent, name) = split_parent(es[i].0);
            assert(v[i as int].0 == es@[i as int].0@);
            if !plain_name(name) {
                return Err(WiiError::NonRepresentableName);
            }
            i += 1;
        }
        assert(all_plain(v));
    }
    let mut names = StringTableWriter::new();
    let mut data = DataBufferWriter::new();
    let mut nodes: Vec<U8Node> = Vec::new();
    let mut i: usize = 0;
    while i < n
        invariant
            i <= n,
            n == es@.len(),
            n < 0xFFFF_FFFF,
            v == entries_view(es@),
            encodable(v),
            policy == NamePolicy::Reject ==> all_plain(v),
            is_plan(slots@, v),
            names@ == pool_upto(v, i as int),
            names@.len() <= 0x100_0000,
            data@ == data_upto(v, i as int),
            data@.len() <= 0xFFFF_FFFF,
            nodes@.len() == i,
            forall|j: int| 0 <= j < i ==> #[trigger] nodes@[j] == relative_record(v, j),
            forall|j: int| 0 <= j < i ==> (#[trigger] nodes@[j]).name_offset < 0x100_0000,
        decreases n - i,
    {
        let (_parent, name) = split_parent(es[i].0);
        assert(v[i as int].0 == es@[i as int].0@);
        assert(v[i as int].1 == slice_view(es@[i as int].1));
        let name_offset: u32 = names.write_str(name);
        proof {
            lemma_upto_grows(v, i + 1, n as int);
            lemma_upto_grows(v, i as int, n as int);
        }
        if names.len() > 0x100_0000 {
            return Err(WiiError::BadOffset);
        }
        let node = match es[i].1 {
            Some(d) => {
                if d.len() > 0xFFFF_FFFF - data.len() {
                    return Err(WiiError::BadOffset);
                }
                let offset: u32 = data.write_bytes(d);
                U8Node { ty: 0, name_offset, data_offset: offset, size: d.len() as u32 }
            },
            None => {
                proof {
                    lemma_run_end_bounds(v, i as int, i + 1);
                    assert(data@ =~= data_upto(v, i + 1));
                }
                U8Node { ty: 1, name_offset, data_offset: 0, size: slots[i].end as u32 }
            },
        };
        nodes.push(node);
        i += 1;
    }
    let ghost pool = names@;
    let ghost blob = data@;
    let table: u64 = 12 * (n as u64 + 1) + names.len() as u64;
    let start: u64 = (32 + table + 31) / 32 * 32;
    let total: u64 = (start + data.len() as u64 + 31) / 32 * 32;
    if total > 0xFFFF_FFFF {
        return Err(WiiError::BadOffset);
    }
    let header = U8Header { root_node: 32, header_size: table as u32, data_offset: start as u32 };
    let mut out: Vec<u8> = Vec::new();
    header.write(order, &mut out);
    let root = U8Node { ty: 1, name_offset: 0, data_offset: 0, size: (n + 1) as u32 };
    root.write(order, &mut out);
    let mut k: usize = 0;
    assert(out@ =~= header_bytes(order, image_header(v)) + records_upto(order, v, 0));
    while k < n
        invariant
            k <= n,
            n == es@.len(),
            v == entries_view(es@),
            nodes@.len() == n,
            start == data_start(v),
            image_len(v) <= 0xFFFF_FFFF,
            forall|j: int| 0 <= j < n ==> #[trigger] nodes@[j] == relative_record(v, j),
            forall|j: int| 0 <= j < n ==> (#[trigger] nodes@[j]).name_offset < 0x100_0000,
            out@ == header_bytes(order, image_header(v)) + records_upto(order, v, k as int),
        decreases n - k,
    {
        let rel: U8Node = nodes[k];
        proof {
            lemma_upto_grows(v, k as int, n as int);
        }
        let node = if rel.ty == 0 {
            U8Node {
                ty: 0,
                name_offset: rel.name_offset,
                data_offset: (rel.data_offset as u64 + start) as u32,
                size: rel.size,
            }
        } else {
            rel
        };
        assert(node == record_of(v, k as int));
        node.write(order, &mut out);
        k += 1;
        assert(out@ =~= header_bytes(order, image_header(v)) + records_upto(order, v, k as int));
    }
    let pool_bytes: Vec<u8> = names.finish();
    put_slice(&mut out, pool_bytes.as_slice());
    put_zeros(&mut out, (start - 32 - table) as usize);
    let data_bytes: Vec<u8> = data.finish();
    put_slice(&mut out, data_bytes.as_slice());
    put_zeros(&mut out, (total - start - data_bytes.len() as u64) as usize);
    assert(out@ =~= image(order, v));
    Ok(out)
}

} // verus!
