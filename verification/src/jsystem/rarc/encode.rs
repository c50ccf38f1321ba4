//! Writing a tree as an archive with a directory table and an entry table.
//!
//! The image is the header, the directory records, the entry records, the
//! string table, zero bytes up to the next multiple of 32, the contents of
//! the files, and zero bytes up to the next multiple of 32 again.
//!
//! Record 0 of the layout stands for the root and record `i + 1` for entry
//! `i` of the listing. The directories are numbered in that order. The
//! entry table holds, for one directory after another, an entry for the
//! directory itself, one for its parent, and its children in the order of
//! the listing.

use crate::jsystem::rarc::entry::{entry_bytes, RarcEntry, ENTRY_DIRECTORY, ENTRY_FILE};
use crate::jsystem::rarc::error::{RarcError, RarcResult};
use crate::jsystem::rarc::header::{header_bytes, RarcHeader};
use crate::jsystem::rarc::utils::{name_hash, shift_jis_decoded, shift_jis_encoded, tag_of};
use crate::layout::{align32, data_upto, encodable, parent_record, Listing};
use crate::endian::{u16_bytes, u32_bytes, zeros, Endian};
use crate::path::name_of;
use vstd::prelude::*;

verus! {

/// The hash of the name of the entry that stands for a directory itself.
pub const DOT_HASH: u16 = 46;

/// The hash of the name of the entry that stands for a directory's parent.
pub const DOTDOT_HASH: u16 = 184;

/// The id of an entry that is a directory.
pub const DIRECTORY_ID: u16 = 0xFFFF;

/// Record `rec` stands for a directory: the root or an entry without contents.
pub open spec fn is_dir_record(es: Listing, rec: int) -> bool {
    rec == 0 || (1 <= rec <= es.len() && es[rec - 1].1.is_none())
}

/// The number of directories among the records before `rec`: the number
/// that the directory of record `rec` has in the directory table.
pub open spec fn dirs_below(es: Listing, rec: int) -> int
    decreases rec,
{
    if rec <= 0 {
        0
    } else {
        dirs_below(es, rec - 1) + if is_dir_record(es, rec - 1) {
            1int
        } else {
            0int
        }
    }
}

/// The number of files among the entries before `i`: the id of file `i`.
pub open spec fn files_below(es: Listing, i: int) -> int
    decreases i,
{
    if i <= 0 {
        0
    } else {
        files_below(es, i - 1) + if es[i - 1].1.is_some() {
            1int
        } else {
            0int
        }
    }
}

/// The bytes that stand for the name of entry `i` in the string table.
pub open spec fn stored_name(es: Listing, i: int) -> Seq<u8> {
    shift_jis_encoded(name_of(es[i].0)).0
}

/// The bytes `.` or `..`: the names of the entries that stand for a
/// directory itself and for its parent.
pub open spec fn is_dot_name(bytes: Seq<u8>) -> bool {
    bytes == seq![0x2Eu8] || bytes == seq![0x2Eu8, 0x2Eu8]
}

/// A name can be written: each of its characters has a code in the
/// table's character set, none of its bytes is the zero that ends a name,
/// it is not one of the two names that every directory holds, and its
/// bytes are read back as the name.
pub open spec fn name_ok(name: Seq<char>) -> bool {
    &&& !shift_jis_encoded(name).1
    &&& forall|k: int|
        0 <= k < shift_jis_encoded(name).0.len() ==> #[trigger] shift_jis_encoded(name).0[k] != 0
    &&& !is_dot_name(shift_jis_encoded(name).0)
    &&& shift_jis_decoded(shift_jis_encoded(name).0) == name
}

/// Every name in the listing can be written.
pub open spec fn all_names_ok(es: Listing) -> bool {
    forall|i: int| 0 <= i < es.len() ==> name_ok(name_of(#[trigger] es[i].0))
}

/// The start of every string table: the names `.`, `..` and `ROOT`.
pub open spec fn fixed_strings() -> Seq<u8> {
    seq![0x2Eu8, 0u8, 0x2Eu8, 0x2Eu8, 0u8, 0x52u8, 0x4Fu8, 0x4Fu8, 0x54u8, 0u8]
}

/// The string table after the names of the first `k` entries were written.
pub open spec fn strings_upto(es: Listing, k: int) -> Seq<u8>
    decreases k,
{
    if k <= 0 {
        fixed_strings()
    } else {
        strings_upto(es, k - 1) + stored_name(es, k - 1) + seq![0u8]
    }
}

/// The entry that stands for entry `i` of the listing in its directory.
pub open spec fn child_entry(es: Listing, i: int) -> RarcEntry {
    match es[i].1 {
        Some(d) => RarcEntry {
            id: files_below(es, i) as u16,
            name_hash: name_hash(name_of(es[i].0)) as u16,
            ty: ENTRY_FILE,
            name_offset: strings_upto(es, i).len() as u16,
            data_offset: data_upto(es, i).len() as u32,
            length: d.len() as u32,
        },
        None => RarcEntry {
            id: DIRECTORY_ID,
            name_hash: name_hash(name_of(es[i].0)) as u16,
            ty: ENTRY_DIRECTORY,
            name_offset: strings_upto(es, i).len() as u16,
            data_offset: dirs_below(es, i + 1) as u32,
            length: 0,
        },
    }
}

/// The entries of the children of record `rec` among the first `k` entries
/// of the listing.
pub open spec fn children_upto(es: Listing, rec: int, k: int) -> Seq<RarcEntry>
    decreases k,
{
    if k <= 0 {
        Seq::empty()
    } else if parent_record(es, k - 1) == rec {
        children_upto(es, rec, k - 1).push(child_entry(es, k - 1))
    } else {
        children_upto(es, rec, k - 1)
    }
}

/// The entry that stands for the directory of record `rec` itself.
pub open spec fn dot_entry(es: Listing, rec: int) -> RarcEntry {
    RarcEntry {
        id: DIRECTORY_ID,
        name_hash: DOT_HASH,
        ty: ENTRY_DIRECTORY,
        name_offset: 0,
        data_offset: dirs_below(es, rec) as u32,
        length: 0,
    }
}

/// The entry that stands for the parent of the directory of record `rec`;
/// for the root it names the root.
pub open spec fn dotdot_entry(es: Listing, rec: int) -> RarcEntry {
    RarcEntry {
        id: DIRECTORY_ID,
        name_hash: DOTDOT_HASH,
        ty: ENTRY_DIRECTORY,
        name_offset: 2,
        data_offset: if rec <= 0 {
            0
        } else {
            dirs_below(es, parent_record(es, rec - 1)) as u32
        },
        length: 0,
    }
}

/// The entries of the directory of record `rec`.
pub open spec fn group(es: Listing, rec: int) -> Seq<RarcEntry> {
    seq![dot_entry(es, rec), dotdot_entry(es, rec)] + children_upto(es, rec, es.len() as int)
}

/// The entries of the directories among the records before `r`.
pub open spec fn entries_upto(es: Listing, r: int) -> Seq<RarcEntry>
    decreases r,
{
    if r <= 0 {
        Seq::empty()
    } else if is_dir_record(es, r - 1) {
        entries_upto(es, r - 1) + group(es, r - 1)
    } else {
        entries_upto(es, r - 1)
    }
}

/// The bytes of the directory record of record `rec`.
pub open spec fn dir_record_bytes(order: Endian, es: Listing, rec: int) -> Seq<u8> {
    let name = if rec <= 0 {
        "ROOT"@
    } else {
        name_of(es[rec - 1].0)
    };
    let name_offset = if rec <= 0 {
        5
    } else {
        strings_upto(es, rec - 1).len() as int
    };
    tag_of(name) + u32_bytes(order, name_offset as u32) + u16_bytes(
        order,
        name_hash(name) as u16,
    ) + u16_bytes(order, group(es, rec).len() as u16) + u32_bytes(
        order,
        entries_upto(es, rec).len() as u32,
    )
}

/// The directory records of the directories among the records before `r`.
pub open spec fn dir_table_upto(order: Endian, es: Listing, r: int) -> Seq<u8>
    decreases r,
{
    if r <= 0 {
        Seq::empty()
    } else if is_dir_record(es, r - 1) {
        dir_table_upto(order, es, r - 1) + dir_record_bytes(order, es, r - 1)
    } else {
        dir_table_upto(order, es, r - 1)
    }
}

/// The bytes of the first `k` of a sequence of entry records.
pub open spec fn entry_table_upto(order: Endian, s: Seq<RarcEntry>, k: int) -> Seq<u8>
    decreases k,
{
    if k <= 0 {
        Seq::empty()
    } else {
        entry_table_upto(order, s, k - 1) + entry_bytes(order, s[k - 1])
    }
}

/// Where the string table starts in the image.
pub open spec fn strings_start(es: Listing) -> int {
    0x40 + 16 * dirs_below(es, es.len() as int + 1) + 20 * entries_upto(
        es,
        es.len() as int + 1,
    ).len() as int
}

/// Where the data region starts in the image.
pub open spec fn data_start(es: Listing) -> int {
    align32(strings_start(es) + strings_upto(es, es.len() as int).len() as int)
}

/// The length of the image.
pub open spec fn image_len(es: Listing) -> int {
    align32(data_start(es) + data_upto(es, es.len() as int).len() as int)
}

/// The header of the image.
pub open spec fn image_header(es: Listing) -> RarcHeader {
    let n = es.len() as int;
    RarcHeader {
        file_size: image_len(es) as u32,
        data_header_offset: 0x20,
        data_offset: data_start(es) as u32,
        data_length: data_upto(es, n).len() as u32,
        mram_size: data_upto(es, n).len() as u32,
        aram_size: 0,
        dvd_size: 0,
        node_count: dirs_below(es, n + 1) as u32,
        node_table_offset: 0x40,
        entry_count: entries_upto(es, n + 1).len() as u32,
        entry_table_offset: (0x40 + 16 * dirs_below(es, n + 1)) as u32,
        string_table_size: strings_upto(es, n).len() as u32,
        string_table_offset: strings_start(es) as u32,
        next_free_file_id: files_below(es, n) as u16,
        keep_file_ids_sync: false,
    }
}

/// The image of a listing.
pub open spec fn image(order: Endian, es: Listing) -> Seq<u8> {
    let n = es.len() as int;
    let table = entries_upto(es, n + 1);
    header_bytes(order, image_header(es)) + dir_table_upto(order, es, n + 1) + entry_table_upto(
        order, table,
        table.len() as int,
    ) + strings_upto(es, n) + zeros(
        (data_start(es) - strings_start(es) - strings_upto(es, n).len()) as nat,
    ) + data_upto(es, n) + zeros((image_len(es) - data_start(es) - data_upto(es, n).len()) as nat)
}

/// No directory has more entries than 16 bits can count.
pub open spec fn groups_fit(es: Listing) -> bool {
    forall|rec: int|
        0 <= rec <= es.len() && is_dir_record(es, rec) ==> #[trigger] children_upto(
            es,
            rec,
            es.len() as int,
        ).len() + 2 <= 0xFFFF
}

/// The image that a listing is written as before it is compressed, or why
/// it cannot be written. The reasons are looked for in this order, before
/// any byte is produced: more than 65535 entries; an entry that does not
/// find its directory open; a directory with more than 65535 entries, its
/// own two counted; a name that cannot be written; a string table of more
/// than 65536 bytes or an image longer than 32 bits can address.
pub open spec fn rarc_encoded(order: Endian, es: Listing) -> RarcResult<Seq<u8>> {
    if es.len() > 0xFFFF {
        Err(RarcError::TooManyEntries)
    } else if !encodable(es) {
        Err(RarcError::MissingDirectory)
    } else if !groups_fit(es) {
        Err(RarcError::TooManyEntries)
    } else if !all_names_ok(es) {
        Err(RarcError::NonRepresentableName)
    } else if strings_upto(es, es.len() as int).len() > 0x1_0000 || image_len(es) > 0xFFFF_FFFF {
        Err(RarcError::BadOffset)
    } else {
        Ok(image(order, es))
    }
}

} // verus!
