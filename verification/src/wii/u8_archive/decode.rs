//! Reading a flat archive into a tree.
//!
//! The records form one array in preorder. A directory's record holds the
//! index at which its subtree ends, so the walk over a directory's contents
//! runs from the record after its own up to that index, and goes on behind
//! it. Every index and every byte range is checked before it is used.

use crate::endian::{copy_range, Endian};
use crate::path::{is_valid_name, is_valid_path, join, join_path, lemma_join_valid};
use crate::tree::ArchiveTree;
use crate::wii::error::{WiiError, WiiResult};
use crate::wii::u8_archive::header::{header_of, U8Header};
use crate::wii::u8_archive::node::{node_at, U8Node};
use crate::wii::utils::{read_string, string_at};
use vstd::prelude::*;
use vstd::string::*;

verus! {

/// The name of a record: the text at its offset in the string pool, which
/// has to be a single path segment.
pub open spec fn entry_name(b: Seq<u8>, strings_at: int, node: U8Node) -> WiiResult<Seq<char>> {
    match string_at(b, strings_at + node.name_offset) {
        Err(e) => Err(e),
        Ok(name) => if is_valid_name(name) {
            Ok(name)
        } else {
            Err(WiiError::NonRepresentableName)
        },
    }
}

/// The tree `m` after the records from `idx` up to `end`, which lie in the
/// directory `prefix`, were read into it.
pub open spec fn walk(
    order: Endian, b: Seq<u8>,
    root_at: int,
    strings_at: int,
    idx: int,
    end: int,
    prefix: Seq<char>,
    m: Map<Seq<char>, Option<Seq<u8>>>,
) -> WiiResult<Map<Seq<char>, Option<Seq<u8>>>>
    decreases end - idx,
{
    if idx >= end {
        Ok(m)
    } else {
        match node_at(order, b, root_at + 12 * idx) {
            Err(e) => Err(e),
            Ok(node) => match entry_name(b, strings_at, node) {
                Err(e) => Err(e),
                Ok(name) => {
                    let path = join(prefix, name);
                    if node.ty == 0 {
                        if node.data_offset + node.size > b.len() {
                            Err(WiiError::BadOffset)
                        } else {
                            walk(
                                order, b,
                                root_at,
                                strings_at,
                                idx + 1,
                                end,
                                prefix,
                                m.insert(
                                    path,
                                    Some(
                                        b.subrange(
                                            node.data_offset as int,
                                            node.data_offset + node.size,
                                        ),
                                    ),
                                ),
                            )
                        }
                    } else if node.ty == 1 {
                        if node.size <= idx || node.size > end {
                            Err(WiiError::BadOffset)
                        } else {
                            match walk(order, b, root_at, strings_at, idx + 1, node.size as int, path, m) {
                                Err(e) => Err(e),
                                Ok(inner) => walk(
                                    order, b,
                                    root_at,
                                    strings_at,
                                    node.size as int,
                                    end,
                                    prefix,
                                    inner.insert(path, None),
                                ),
                            }
                        }
                    } else {
                        Err(WiiError::InvalidType)
                    }
                },
            },
        }
    }
}

/// The tree that a buffer holds as a flat archive, or why it holds none.
pub open spec fn u8_decoded(order: Endian, b: Seq<u8>) -> WiiResult<Map<Seq<char>, Option<Seq<u8>>>> {
    match header_of(order, b) {
        Err(e) => Err(e),
        Ok(h) => match node_at(order, b, h.root_node as int) {
            Err(e) => Err(e),
            Ok(root) => if root.ty != 1 {
                Err(WiiError::InvalidType)
            } else if root.size == 0 || h.root_node + 12 * root.size > b.len() {
                Err(WiiError::BadOffset)
            } else {
                walk(
                    order, b,
                    h.root_node as int,
                    h.root_node + 12 * root.size,
                    1,
                    root.size as int,
                    Seq::empty(),
                    Map::empty(),
                )
            },
        },
    }
}

/// Reads the name of a record.
fn read_name(buffer: &[u8], strings_at: usize, node: &U8Node) -> (r: WiiResult<String>)
    requires
        strings_at <= buffer@.len(),
    ensures
        match r {
            Ok(s) => entry_name(buffer@, strings_at as int, *node) == Ok::<Seq<char>, WiiError>(s@),
            Err(e) => entry_name(buffer@, strings_at as int, *node) == Err::<Seq<char>, WiiError>(e),
        },
{
    if node.name_offset as u64 > (buffer.len() - strings_at) as u64 {
        return Err(WiiError::BadOffset);
    }
    let name: String = read_string(buffer, strings_at + node.name_offset as usize)?;
    if !crate::path::valid_name(name.as_str()) {
        return Err(WiiError::NonRepresentableName);
    }
    Ok(name)
}

/// Reads the records from `start` up to `end`, which lie in the directory
/// `prefix`, into the tree.
pub fn process_directory(
    order: Endian, buffer: &[u8],
    root_at: usize,
    strings_at: usize,
    start: u32,
    end: u32,
    prefix: &str,
    tree: &mut ArchiveTree,
) -> (r: WiiResult<()>)
    requires
        root_at + 12 * end <= strings_at <= buffer@.len(),
    ensures
        match r {
            Ok(_) => walk(
                order, buffer@,
                root_at as int,
                strings_at as int,
                start as int,
                end as int,
                prefix@,
                old(tree)@,
            ) == Ok::<Map<Seq<char>, Option<Seq<u8>>>, WiiError>(final(tree)@),
            Err(e) => walk(
                order, buffer@,
                root_at as int,
                strings_at as int,
                start as int,
                end as int,
                prefix@,
                old(tree)@,
            ) == Err::<Map<Seq<char>, Option<Seq<u8>>>, WiiError>(e),
        },
        r.is_ok() && old(tree).wf() && (prefix@.len() == 0 || is_valid_path(prefix@))
            ==> final(tree).wf(),
    decreases end - start,
{
    let mut idx: u32 = start;
    while idx < end
        invariant
            root_at + 12 * end <= strings_at <= buffer@.len(),
            start <= idx || idx >= end,
            walk(
                order, buffer@,
                root_at as int,
                strings_at as int,
                start as int,
                end as int,
                prefix@,
                old(tree)@,
            ) == walk(
                order, buffer@,
                root_at as int,
                strings_at as int,
                idx as int,
                end as int,
                prefix@,
                tree@,
            ),
            old(tree).wf() && (prefix@.len() == 0 || is_valid_path(prefix@)) ==> tree.wf(),
        decreases end - idx,
    {
        let node: U8Node = U8Node::read(order, buffer, root_at + 12 * (idx as usize))?;
        let name: String = read_name(buffer, strings_at, &node)?;
        let path: String = join_path(prefix, name.as_str());
        proof {
            if prefix@.len() == 0 || is_valid_path(prefix@) {
                lemma_join_valid(prefix@, name@);
            }
        }
        if node.ty == 0 {
            if node.data_offset as u64 + node.size as u64 > buffer.len() as u64 {
                return Err(WiiError::BadOffset);
            }
            let from: usize = node.data_offset as usize;
            let data: Vec<u8> = copy_range(buffer, from, from + node.size as usize);
            tree.insert(path, Some(data));
            idx += 1;
        } else if node.ty == 1 {
            if node.size <= idx || node.size > end {
                return Err(WiiError::BadOffset);
            }
            process_directory(order, buffer, root_at, strings_at, idx + 1, node.size, path.as_str(), tree)?;
            tree.insert(path, None);
            idx = node.size;
        } else {
            return Err(WiiError::InvalidType);
        }
    }
    Ok(())
}

/// Reads a flat archive into a tree, with integers in the given byte order.
pub fn decode_tree(order: Endian, buffer: &[u8]) -> (r: WiiResult<ArchiveTree>)
    ensures
        match r {
            Ok(t) => u8_decoded(order, buffer@) == Ok::<Map<Seq<char>, Option<Seq<u8>>>, WiiError>(t@) && t.wf(),
            Err(e) => u8_decoded(order, buffer@) == Err::<Map<Seq<char>, Option<Seq<u8>>>, WiiError>(e),
        },
{
    let header: U8Header = U8Header::read(order, buffer)?;
    let root: U8Node = U8Node::read(order, buffer, header.root_node as usize)?;
    if root.ty != 1 {
        return Err(WiiError::InvalidType);
    }
    if root.size == 0 || header.root_node as u64 + 12 * (root.size as u64) > buffer.len() as u64 {
        return Err(WiiError::BadOffset);
    }
    let root_at: usize = header.root_node as usize;
    let strings_at: usize = root_at + 12 * (root.size as usize);
    let mut tree = ArchiveTree::new();
    proof {
        reveal_strlit("");
        assert(""@ =~= Seq::<char>::empty());
    }
    process_directory(order, buffer, root_at, strings_at, 1, root.size, "", &mut tree)?;
    Ok(tree)
}

} // verus!
