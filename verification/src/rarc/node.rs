//! The directory records and entry records of an archive.

use crate::endian::{get_u16, get_u32, u16_of, u32_of, Endian};
use crate::rarc::error::{RarcError, RarcResult};
use crate::rarc::header::RarcHeader;
use crate::rarc::string_table::StringTable;
use vstd::prelude::*;

verus! {

/// The length of a directory record.
pub const DIRECTORY_NODE_LEN: usize = 16;

/// The length of an entry record: its fields and four bytes that are not used.
pub const FILE_NODE_LEN: usize = 20;

/// One directory: its entries are `file_count` records of the entry table
/// from `file_offset` on.
#[derive(Debug, Clone, Copy, PartialEq, Eq)]
pub struct DirectoryNode {
    pub tag: [u8; 4],
    pub name_offset: u32,
    pub name_hash: u16,
    pub file_count: u16,
    pub file_offset: u32,
}

/// One entry: a file, or, where `index` is 0xFFFF, a directory whose record
/// is number `offset_or_index` of the directory table.
#[derive(Debug, Clone, Copy, PartialEq, Eq, Structural)]
pub struct FileNode {
    pub index: u16,
    pub name_hash: u16,
    pub attributes: u8,
    pub padding: u8,
    pub name_offset: u16,
    pub offset_or_index: u32,
    pub size: u32,
}

/// What is known of a file: a set of flags in one byte.
#[derive(Debug, Clone, Copy, PartialEq, Eq, Structural)]
pub struct FileAttributes {
    pub bits: u8,
}

/// The flag of a file.
pub const FILE: u8 = 0x01;

/// The flag of a directory.
pub const DIRECTORY: u8 = 0x02;

/// The flag of compressed contents.
pub const COMPRESSED: u8 = 0x04;

/// The flag of contents that are loaded into main memory beforehand.
pub const PRELOAD_TO_MRAM: u8 = 0x10;

/// The flag of contents that are loaded into auxiliary memory beforehand.
pub const PRELOAD_TO_ARAM: u8 = 0x20;

/// The flag of contents that are loaded from the disc when needed.
pub const LOAD_FROM_DVD: u8 = 0x40;

/// The flag of contents compressed with the second of the two schemes.
pub const YAZ0_COMPRESSED: u8 = 0x80;

/// The flags that have a meaning: all but the one with the value 8.
pub const KNOWN_ATTRIBUTES: u8 = 0xF7;

/// The flags of `bits` that have a meaning.
pub open spec fn truncated(bits: u8) -> u8 {
    bits & KNOWN_ATTRIBUTES
}

impl FileAttributes {
    /// No flag.
    pub fn empty() -> (r: FileAttributes)
        ensures
            r.bits == 0,
    {
        FileAttributes { bits: 0 }
    }

    /// The flags of `bits` that have a meaning; the others are dropped.
    pub fn from_bits_truncate(bits: u8) -> (r: FileAttributes)
        ensures
            r.bits == truncated(bits),
    {
        FileAttributes { bits: bits & KNOWN_ATTRIBUTES }
    }

    /// The flags as one byte.
    pub fn bits(&self) -> (r: u8)
        ensures
            r == self.bits,
    {
        self.bits
    }

    /// Whether every flag of `other` is set.
    pub fn contains(&self, other: u8) -> (r: bool)
        ensures
            r == (self.bits & other == other),
    {
        self.bits & other == other
    }
}

/// The fields of the directory record at `pos`.
pub open spec fn directory_fields_at(e: Endian, b: Seq<u8>, pos: int) -> (Seq<u8>, int, int, int, int) {
    (
        b.subrange(pos, pos + 4),
        u32_of(e, b.subrange(pos + 4, pos + 8)),
        u16_of(e, b.subrange(pos + 8, pos + 10)),
        u16_of(e, b.subrange(pos + 10, pos + 12)),
        u32_of(e, b.subrange(pos + 12, pos + 16)),
    )
}

/// What a directory record is to the contracts.
pub open spec fn directory_fields(n: DirectoryNode) -> (Seq<u8>, int, int, int, int) {
    (n.tag@, n.name_offset as int, n.name_hash as int, n.file_count as int, n.file_offset as int)
}

/// The entry record at `pos`.
pub open spec fn file_node_at(e: Endian, b: Seq<u8>, pos: int) -> FileNode {
    FileNode {
        index: u16_of(e, b.subrange(pos, pos + 2)) as u16,
        name_hash: u16_of(e, b.subrange(pos + 2, pos + 4)) as u16,
        attributes: b[pos + 4],
        padding: b[pos + 5],
        name_offset: u16_of(e, b.subrange(pos + 6, pos + 8)) as u16,
        offset_or_index: u32_of(e, b.subrange(pos + 8, pos + 12)) as u32,
        size: u32_of(e, b.subrange(pos + 12, pos + 16)) as u32,
    }
}

/// Where the directory table stands, and whether the buffer holds all of it.
pub open spec fn directories_in(b: Seq<u8>, h: RarcHeader) -> bool {
    h.directory_offset + 0x20 + 16 * h.directory_nodes <= b.len()
}

/// Where the entry table stands, and whether the buffer holds all of it.
pub open spec fn files_in(b: Seq<u8>, h: RarcHeader) -> bool {
    h.file_offset + 0x20 + 20 * h.file_nodes <= b.len()
}

/// The directory records that a buffer holds.
pub open spec fn directories_of(e: Endian, b: Seq<u8>, h: RarcHeader) -> Seq<(Seq<u8>, int, int, int, int)> {
    Seq::new(
        h.directory_nodes as nat,
        |i: int| directory_fields_at(e, b, h.directory_offset + 0x20 + 16 * i),
    )
}

/// The entry records that a buffer holds.
pub open spec fn files_of(e: Endian, b: Seq<u8>, h: RarcHeader) -> Seq<FileNode> {
    Seq::new(h.file_nodes as nat, |i: int| file_node_at(e, b, h.file_offset + 0x20 + 20 * i))
}

/// The directory records as the contracts see them.
pub open spec fn directories_view(v: Seq<DirectoryNode>) -> Seq<(Seq<u8>, int, int, int, int)> {
    Seq::new(v.len(), |i: int| directory_fields(v[i]))
}

/// Reads the directory table.
pub fn read_directory_nodes(endian: Endian, buffer: &[u8], header: &RarcHeader) -> (r: RarcResult<
    Vec<DirectoryNode>,
>)
    ensures
        r.is_ok() == directories_in(buffer@, *header),
        r.is_err() ==> r == Err::<Vec<DirectoryNode>, RarcError>(RarcError::BadOffset),
        r.is_ok() ==> directories_view(r.unwrap()@) == directories_of(endian, buffer@, *header),
{
    let len: usize = buffer.len();
    if header.directory_offset as u64 + 0x20 + 16 * (header.directory_nodes as u64) > len as u64 {
        return Err(RarcError::BadOffset);
    }
    let start: usize = header.directory_offset as usize + 0x20;
    let mut result: Vec<DirectoryNode> = Vec::new();
    let mut i: u32 = 0;
    while i < header.directory_nodes
        invariant
            i <= header.directory_nodes,
            len == buffer@.len(),
            start == header.directory_offset + 0x20,
            start + 16 * header.directory_nodes <= len,
            result@.len() == i,
            forall|k: int|
                0 <= k < i ==> directory_fields(#[trigger] result@[k]) == directory_fields_at(
                    endian,
                    buffer@,
                    start + 16 * k,
                ),
        decreases header.directory_nodes - i,
    {
        let pos: usize = start + 16 * (i as usize);
        let tag: [u8; 4] = [buffer[pos], buffer[pos + 1], buffer[pos + 2], buffer[pos + 3]];
        assert(tag@ =~= buffer@.subrange(pos as int, pos + 4));
        result.push(
            DirectoryNode {
                tag,
                name_offset: get_u32(endian, buffer, pos + 4),
                name_hash: get_u16(endian, buffer, pos + 8),
                file_count: get_u16(endian, buffer, pos + 10),
                file_offset: get_u32(endian, buffer, pos + 12),
            },
        );
        i += 1;
    }
    assert(directories_view(result@) =~= directories_of(endian, buffer@, *header));
    Ok(result)
}

/// Reads the entry table.
pub fn read_file_nodes(endian: Endian, buffer: &[u8], header: &RarcHeader) -> (r: RarcResult<
    Vec<FileNode>,
>)
    ensures
        r.is_ok() == files_in(buffer@, *header),
        r.is_err() ==> r == Err::<Vec<FileNode>, RarcError>(RarcError::BadOffset),
        r.is_ok() ==> r.unwrap()@ == files_of(endian, buffer@, *header),
{
    let len: usize = buffer.len();
    if header.file_offset as u64 + 0x20 + 20 * (header.file_nodes as u64) > len as u64 {
        return Err(RarcError::BadOffset);
    }
    let start: usize = header.file_offset as usize + 0x20;
    let mut result: Vec<FileNode> = Vec::new();
    let mut i: u32 = 0;
    while i < header.file_nodes
        invariant
            i <= header.file_nodes,
            len == buffer@.len(),
            start == header.file_offset + 0x20,
            start + 20 * header.file_nodes <= len,
            result@.len() == i,
            forall|k: int| 0 <= k < i ==> #[trigger] result@[k] == file_node_at(endian, buffer@, start + 20 * k),
        decreases header.file_nodes - i,
    {
        let pos: usize = start + 20 * (i as usize);
        result.push(
            FileNode {
                index: get_u16(endian, buffer, pos),
                name_hash: get_u16(endian, buffer, pos + 2),
                attributes: buffer[pos + 4],
                padding: buffer[pos + 5],
                name_offset: get_u16(endian, buffer, pos + 6),
                offset_or_index: get_u32(endian, buffer, pos + 8),
                size: get_u32(endian, buffer, pos + 12),
            },
        );
        i += 1;
    }
    assert(result@ =~= files_of(endian, buffer@, *header));
    Ok(result)
}

impl FileNode {
    /// The name of the entry: the ASCII text at its offset in the string
    /// table, if there is such a text.
    pub fn name<'a>(&self, table: &'a StringTable) -> (r: Option<&'a str>)
        ensures
            r.is_some() == crate::rarc::string_table::text_at(table@, self.name_offset as int).is_some(),
            r.is_some() ==> r.unwrap()@ == crate::rarc::string_table::text_at(
                table@,
                self.name_offset as int,
            ).unwrap(),
    {
        table.string_at(self.name_offset as usize)
    }
}

} // verus!
