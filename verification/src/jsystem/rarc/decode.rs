//! Reading an archive with a directory table and an entry table into a tree.
//!
//! The walk starts at the root's directory record and reads the entries of
//! its run one after another. An entry for a subdirectory leads to that
//! directory's record, whose number has to be greater than the number of
//! the directory that holds the entry, so that no walk ever returns to a
//! directory it came from. Every index and every byte range is checked
//! before it is used.

use crate::endian::{copy_range, Endian};
use crate::jsystem::rarc::encode::is_dot_name;
use crate::jsystem::rarc::entry::{entry_at, read_entry_table, RarcEntry, ENTRY_DIRECTORY};
use crate::jsystem::rarc::error::{RarcError, RarcResult};
use crate::jsystem::rarc::header::{header_of, RarcHeader};
use crate::jsystem::rarc::node::{node_fields, node_fields_at, read_node_table, RarcNode};
use crate::jsystem::rarc::utils::{decode_shift_jis, shift_jis_decoded};
use crate::path::{is_valid_name, is_valid_path, join, join_path, lemma_join_valid};
use crate::tree::ArchiveTree;
use crate::wii::utils::{find_nul, nul_from};
use vstd::prelude::*;
use vstd::string::*;

verus! {

/// The letters ROOT, the tag of the root's directory record.
pub open spec fn root_tag() -> Seq<u8> {
    seq![0x52u8, 0x4Fu8, 0x4Fu8, 0x54u8]
}

/// The bytes of the name at `offset` in the string table, up to the zero
/// that ends it; none where the table ends before the name does.
pub open spec fn name_bytes_at(strings: Seq<u8>, offset: int) -> Option<Seq<u8>> {
    if offset < 0 || offset > strings.len() || nul_from(strings, offset) >= strings.len() {
        None
    } else {
        Some(strings.subrange(offset, nul_from(strings, offset)))
    }
}

/// The name of an entry: none for an entry that the walk passes over.
pub open spec fn entry_name(strings: Seq<u8>, e: RarcEntry) -> RarcResult<Option<Seq<char>>> {
    match name_bytes_at(strings, e.name_offset as int) {
        None => Err(RarcError::BadOffset),
        Some(bytes) => if is_dot_name(bytes) {
            Ok(None)
        } else if is_valid_name(shift_jis_decoded(bytes)) {
            Ok(Some(shift_jis_decoded(bytes)))
        } else {
            Err(RarcError::NonRepresentableName)
        },
    }
}

/// The directory records as the contracts see them.
pub open spec fn nodes_view(v: Seq<RarcNode>) -> Seq<(Seq<u8>, int, int, int, int)> {
    Seq::new(v.len(), |i: int| node_fields(v[i]))
}

/// The tree `m` after the entries from `k` up to `end`, which belong to
/// directory number `node` with the path `prefix`, were read into it.
pub open spec fn walk(
    nodes: Seq<(Seq<u8>, int, int, int, int)>,
    entries: Seq<RarcEntry>,
    strings: Seq<u8>,
    data: Seq<u8>,
    node: int,
    k: int,
    end: int,
    prefix: Seq<char>,
    m: Map<Seq<char>, Option<Seq<u8>>>,
) -> RarcResult<Map<Seq<char>, Option<Seq<u8>>>>
    decreases nodes.len() - node, end - k,
{
    if k >= end || k < 0 || end > entries.len() {
        Ok(m)
    } else {
        let e = entries[k];
        match entry_name(strings, e) {
            Err(x) => Err(x),
            Ok(None) => walk(nodes, entries, strings, data, node, k + 1, end, prefix, m),
            Ok(Some(name)) => {
                let path = join(prefix, name);
                if e.ty == ENTRY_DIRECTORY {
                    let child = e.data_offset as int;
                    if child <= node || child >= nodes.len() {
                        Err(RarcError::BadOffset)
                    } else if nodes[child].4 + nodes[child].3 > entries.len() {
                        Err(RarcError::BadOffset)
                    } else {
                        match walk(
                            nodes,
                            entries,
                            strings,
                            data,
                            child,
                            nodes[child].4,
                            nodes[child].4 + nodes[child].3,
                            path,
                            m,
                        ) {
                            Err(x) => Err(x),
                            Ok(inner) => walk(
                                nodes,
                                entries,
                                strings,
                                data,
                                node,
                                k + 1,
                                end,
                                prefix,
                                inner.insert(path, None),
                            ),
                        }
                    }
                } else {
                    if e.data_offset + e.length > data.len() {
                        Err(RarcError::BadOffset)
                    } else {
                        walk(
                            nodes,
                            entries,
                            strings,
                            data,
                            node,
                            k + 1,
                            end,
                            prefix,
                            m.insert(
                                path,
                                Some(data.subrange(e.data_offset as int, e.data_offset + e.length)),
                            ),
                        )
                    }
                }
            },
        }
    }
}

/// The four tables lie within the buffer.
pub open spec fn tables_ok(b: Seq<u8>, h: RarcHeader) -> bool {
    &&& h.node_table_offset + 16 * h.node_count <= b.len()
    &&& h.entry_table_offset + 20 * h.entry_count <= b.len()
    &&& h.string_table_offset + h.string_table_size <= b.len()
    &&& h.data_offset + h.data_length <= b.len()
}

/// The directory records that a buffer holds.
pub open spec fn node_table_of(order: Endian, b: Seq<u8>, h: RarcHeader) -> Seq<(Seq<u8>, int, int, int, int)> {
    let t = b.subrange(h.node_table_offset as int, h.node_table_offset + 16 * h.node_count);
    Seq::new(h.node_count as nat, |i: int| node_fields_at(order, t, 16 * i))
}

/// The entry records that a buffer holds.
pub open spec fn entry_table_of(order: Endian, b: Seq<u8>, h: RarcHeader) -> Seq<RarcEntry> {
    let t = b.subrange(h.entry_table_offset as int, h.entry_table_offset + 20 * h.entry_count);
    Seq::new(h.entry_count as nat, |i: int| entry_at(order, t, 20 * i))
}

/// The tree that a buffer holds as an archive that is not compressed, or
/// why it holds none.
pub open spec fn rarc_decoded(order: Endian, b: Seq<u8>) -> RarcResult<Map<Seq<char>, Option<Seq<u8>>>> {
    match header_of(order, b) {
        Err(e) => Err(e),
        Ok(h) => if !tables_ok(b, h) {
            Err(RarcError::BadOffset)
        } else {
            let nodes = node_table_of(order, b, h);
            let entries = entry_table_of(order, b, h);
            if nodes.len() == 0 || nodes[0].0 != root_tag() {
                Err(RarcError::FirstDirectoryNotRoot)
            } else if nodes[0].4 + nodes[0].3 > entries.len() {
                Err(RarcError::BadOffset)
            } else {
                walk(
                    nodes,
                    entries,
                    b.subrange(h.string_table_offset as int, h.string_table_offset + h.string_table_size),
                    b.subrange(h.data_offset as int, h.data_offset + h.data_length),
                    0,
                    nodes[0].4,
                    nodes[0].4 + nodes[0].3,
                    Seq::empty(),
                    Map::empty(),
                )
            }
        },
    }
}

/// Whether the bytes are `.` or `..`.
pub fn dot_name(bytes: &[u8]) -> (r: bool)
    ensures
        r == is_dot_name(bytes@),
{
    let dot: u8 = 0x2E;
    let r: bool = (bytes.len() == 1 && bytes[0] == dot) || (bytes.len() == 2 && bytes[0] == dot
        && bytes[1] == dot);
    proof {
        if r {
            if bytes@.len() == 1 {
                assert(bytes@ =~= seq![0x2Eu8]);
            } else {
                assert(bytes@ =~= seq![0x2Eu8, 0x2Eu8]);
            }
        } else {
            if bytes@ == seq![0x2Eu8] {
                assert(bytes@.len() == 1 && bytes@[0] == 0x2E);
            }
            if bytes@ == seq![0x2Eu8, 0x2Eu8] {
                assert(bytes@.len() == 2 && bytes@[0] == 0x2E && bytes@[1] == 0x2E);
            }
        }
    }
    r
}

/// The string table of an archive that is read.
pub struct StringTableReader<'a>(pub &'a [u8]);

impl<'a> StringTableReader<'a> {
    /// The bytes of the name at `offset`, without the zero that ends it.
    pub fn name_at(&self, offset: usize) -> (r: Option<&'a [u8]>)
        ensures
            r.is_some() == name_bytes_at(self.0@, offset as int).is_some(),
            r.is_some() ==> r.unwrap()@ == name_bytes_at(self.0@, offset as int).unwrap(),
    {
        if offset > self.0.len() {
            return None;
        }
        let end: usize = find_nul(self.0, offset);
        if end >= self.0.len() {
            return None;
        }
        Some(vstd::slice::slice_subrange(self.0, offset, end))
    }

    /// The name at `offset`, decoded.
    pub fn read_str(&self, offset: usize) -> (r: RarcResult<String>)
        ensures
            r.is_ok() == name_bytes_at(self.0@, offset as int).is_some(),
            r.is_ok() ==> r.unwrap()@ == shift_jis_decoded(name_bytes_at(self.0@, offset as int).unwrap()),
            r.is_err() ==> r == Err::<String, RarcError>(RarcError::BadOffset),
    {
        match self.name_at(offset) {
            Some(bytes) => Ok(decode_shift_jis(bytes)),
            None => Err(RarcError::BadOffset),
        }
    }

    /// Whether the name at `offset` is `.` or `..`.
    pub fn is_skipable(&self, offset: usize) -> (r: bool)
        ensures
            r == (name_bytes_at(self.0@, offset as int).is_some() && is_dot_name(
                name_bytes_at(self.0@, offset as int).unwrap(),
            )),
    {
        match self.name_at(offset) {
            Some(bytes) => dot_name(bytes),
            None => false,
        }
    }
}

/// Reads the name of an entry; `None` for an entry that is passed over.
fn read_entry_name(strings: &[u8], e: &RarcEntry) -> (r: RarcResult<Option<String>>)
    ensures
        match r {
            Ok(Some(s)) => entry_name(strings@, *e) == Ok::<Option<Seq<char>>, RarcError>(Some(s@)),
            Ok(None) => entry_name(strings@, *e) == Ok::<Option<Seq<char>>, RarcError>(None),
            Err(x) => entry_name(strings@, *e) == Err::<Option<Seq<char>>, RarcError>(x),
        },
{
    let reader = StringTableReader(strings);
    if reader.is_skipable(e.name_offset as usize) {
        return Ok(None);
    }
    let name: String = reader.read_str(e.name_offset as usize)?;
    if !crate::path::valid_name(name.as_str()) {
        return Err(RarcError::NonRepresentableName);
    }
    Ok(Some(name))
}

/// Reads the entries of directory number `node`, whose path is `prefix`,
/// into the tree.
pub fn process_node(
    target: &mut ArchiveTree,
    node: usize,
    prefix: &str,
    node_table: &Vec<RarcNode>,
    entry_table: &Vec<RarcEntry>,
    string_table: &[u8],
    data: &[u8],
) -> (r: RarcResult<()>)
    requires
        node < node_table@.len(),
        node_table@[node as int].entry_offset + node_table@[node as int].entry_count
            <= entry_table@.len(),
    ensures
        match r {
            Ok(_) => walk(
                nodes_view(node_table@),
                entry_table@,
                string_table@,
                data@,
                node as int,
                node_table@[node as int].entry_offset as int,
                node_table@[node as int].entry_offset + node_table@[node as int].entry_count,
                prefix@,
                old(target)@,
            ) == Ok::<Map<Seq<char>, Option<Seq<u8>>>, RarcError>(final(target)@),
            Err(e) => walk(
                nodes_view(node_table@),
                entry_table@,
                string_table@,
                data@,
                node as int,
                node_table@[node as int].entry_offset as int,
                node_table@[node as int].entry_offset + node_table@[node as int].entry_count,
                prefix@,
                old(target)@,
            ) == Err::<Map<Seq<char>, Option<Seq<u8>>>, RarcError>(e),
        },
        r.is_ok() && old(target).wf() && (prefix@.len() == 0 || is_valid_path(prefix@))
            ==> final(target).wf(),
    decreases node_table@.len() - node,
{
    let total: usize = entry_table.len();
    let start: usize = node_table[node].entry_offset as usize;
    let end: usize = start + node_table[node].entry_count as usize;
    let ghost nodes = nodes_view(node_table@);
    let mut k: usize = start;
    while k < end
        invariant
            start <= k <= end,
            end <= entry_table@.len(),
            total == entry_table@.len(),
            node < node_table@.len(),
            start == node_table@[node as int].entry_offset,
            end == node_table@[node as int].entry_offset + node_table@[node as int].entry_count,
            nodes == nodes_view(node_table@),
            walk(
                nodes,
                entry_table@,
                string_table@,
                data@,
                node as int,
                start as int,
                end as int,
                prefix@,
                old(target)@,
            ) == walk(
                nodes,
                entry_table@,
                string_table@,
                data@,
                node as int,
                k as int,
                end as int,
                prefix@,
                target@,
            ),
            old(target).wf() && (prefix@.len() == 0 || is_valid_path(prefix@)) ==> target.wf(),
        decreases end - k,
    {
        let e: &RarcEntry = &entry_table[k];
        match read_entry_name(string_table, e)? {
            None => {},
            Some(name) => {
                let path: String = join_path(prefix, name.as_str());
                proof {
                    if prefix@.len() == 0 || is_valid_path(prefix@) {
                        lemma_join_valid(prefix@, name@);
                    }
                }
                if e.ty == ENTRY_DIRECTORY {
                    let child: usize = e.data_offset as usize;
                    if child <= node || child >= node_table.len() {
                        return Err(RarcError::BadOffset);
                    }
                    assert(nodes[child as int] == node_fields(node_table@[child as int]));
                    if node_table[child].entry_offset as u64 + node_table[child].entry_count as u64
                        > entry_table.len() as u64 {
                        return Err(RarcError::BadOffset);
                    }
                    process_node(
                        target,
                        child,
                        path.as_str(),
                        node_table,
                        entry_table,
                        string_table,
                        data,
                    )?;
                    target.insert(path, None);
                } else {
                    if e.data_offset as u64 + e.length as u64 > data.len() as u64 {
                        return Err(RarcError::BadOffset);
                    }
                    let from: usize = e.data_offset as usize;
                    let bytes: Vec<u8> = copy_range(data, from, from + e.length as usize);
                    target.insert(path, Some(bytes));
                }
            },
        }
        k += 1;
    }
    Ok(())
}

/// Reads an archive that is not compressed into a tree.
pub fn decode_tree(order: Endian, buffer: &[u8]) -> (r: RarcResult<ArchiveTree>)
    ensures
        match r {
            Ok(t) => rarc_decoded(order, buffer@) == Ok::<Map<Seq<char>, Option<Seq<u8>>>, RarcError>(t@)
                && t.wf(),
            Err(e) => rarc_decoded(order, buffer@) == Err::<Map<Seq<char>, Option<Seq<u8>>>, RarcError>(e),
        },
{
    let h: RarcHeader = RarcHeader::read(order, buffer)?;
    let len: u64 = buffer.len() as u64;
    if h.node_table_offset as u64 + 16 * (h.node_count as u64) > len || h.entry_table_offset as u64
        + 20 * (h.entry_count as u64) > len || h.string_table_offset as u64
        + h.string_table_size as u64 > len || h.data_offset as u64 + h.data_length as u64 > len {
        return Err(RarcError::BadOffset);
    }
    let nodes_at: usize = h.node_table_offset as usize;
    let node_bytes = vstd::slice::slice_subrange(
        buffer,
        nodes_at,
        nodes_at + 16 * (h.node_count as usize),
    );
    let entries_at: usize = h.entry_table_offset as usize;
    let entry_bytes = vstd::slice::slice_subrange(
        buffer,
        entries_at,
        entries_at + 20 * (h.entry_count as usize),
    );
    let node_table: Vec<RarcNode> = read_node_table(order, h.node_count, node_bytes)?;
    let entry_table: Vec<RarcEntry> = read_entry_table(order, h.entry_count, entry_bytes)?;
    assert(nodes_view(node_table@) =~= node_table_of(order, buffer@, h));
    assert(entry_table@ =~= entry_table_of(order, buffer@, h));
    if node_table.len() == 0 {
        return Err(RarcError::FirstDirectoryNotRoot);
    }
    let tag: &[u8; 4] = &node_table[0].tag;
    let is_root: bool = tag[0] == 0x52 && tag[1] == 0x4F && tag[2] == 0x4F && tag[3] == 0x54;
    proof {
        assert(nodes_view(node_table@)[0] == node_fields(node_table@[0]));
        if is_root {
            assert(tag@ =~= root_tag());
        } else {
            if tag@ == root_tag() {
                assert(tag@[0] == 0x52 && tag@[1] == 0x4F && tag@[2] == 0x4F && tag@[3] == 0x54);
            }
        }
    }
    if !is_root {
        return Err(RarcError::FirstDirectoryNotRoot);
    }
    if node_table[0].entry_offset as u64 + node_table[0].entry_count as u64 > entry_table.len() as u64 {
        return Err(RarcError::BadOffset);
    }
    let strings_at: usize = h.string_table_offset as usize;
    let strings = vstd::slice::slice_subrange(
        buffer,
        strings_at,
        strings_at + h.string_table_size as usize,
    );
    let data_at: usize = h.data_offset as usize;
    let data = vstd::slice::slice_subrange(buffer, data_at, data_at + h.data_length as usize);
    let mut tree = ArchiveTree::new();
    proof {
        reveal_strlit("");
        assert(""@ =~= Seq::<char>::empty());
    }
    process_node(&mut tree, 0, "", &node_table, &entry_table, strings, data)?;
    Ok(tree)
}

} // verus!
