//! The index of an archive: what stands at each path.

use crate::endian::Endian;
use crate::path::{is_valid_name, join, join_path};
use crate::rarc::error::{RarcError, RarcResult};
use crate::rarc::header::{header_of, RarcHeader};
use crate::rarc::node::{directories_in, directories_of, directories_view, directory_fields, files_in, files_of, read_directory_nodes, read_file_nodes, truncated, DirectoryNode, FileAttributes, FileNode};
use crate::rarc::string_table::{strings_in, text_at, StringTable};
use vstd::prelude::*;
use vstd::string::*;

verus! {

/// What the index knows of one path.
#[derive(Debug, Clone, Copy, PartialEq, Eq, Structural)]
pub enum IndexEntry {
    /// A directory with this many entries, those for itself and its
    /// parent counted.
    Directory { files: u16 },
    /// A file: where its contents start in the data region, how long they
    /// are, and its attributes.
    File { offset: u32, size: u32, attributes: FileAttributes },
}

/// The letters ROOT, the tag of the root's directory record.
pub open spec fn root_tag() -> Seq<u8> {
    seq![0x52u8, 0x4Fu8, 0x4Fu8, 0x54u8]
}

/// The name `.` or `..`: the entry stands for the directory itself or for
/// its parent, and the walk passes over it.
pub open spec fn is_dot(name: Seq<char>) -> bool {
    name == seq!['.'] || name == seq!['.', '.']
}

/// The index `m` after the entries from `k` up to `end`, which belong to
/// directory number `dir` with the path `prefix`, were read into it.
pub open spec fn walk(
    dirs: Seq<(Seq<u8>, int, int, int, int)>,
    files: Seq<FileNode>,
    table: Seq<u8>,
    dir: int,
    k: int,
    end: int,
    prefix: Seq<char>,
    m: Map<Seq<char>, IndexEntry>,
) -> RarcResult<Map<Seq<char>, IndexEntry>>
    decreases dirs.len() - dir, end - k,
{
    if k >= end || k < 0 {
        Ok(m)
    } else if k >= files.len() {
        Err(RarcError::MissingFile { index: k as usize })
    } else {
        let f = files[k];
        match text_at(table, f.name_offset as int) {
            None => Err(RarcError::NonRepresentableName),
            Some(name) => if is_dot(name) {
                walk(dirs, files, table, dir, k + 1, end, prefix, m)
            } else if !is_valid_name(name) {
                Err(RarcError::NonRepresentableName)
            } else {
                let path = join(prefix, name);
                if f.index == 0xFFFF {
                    let child = f.offset_or_index as int;
                    if child <= dir || child >= dirs.len() {
                        Err(RarcError::BadOffset)
                    } else {
                        match walk(
                            dirs,
                            files,
                            table,
                            child,
                            dirs[child].4,
                            dirs[child].4 + dirs[child].3,
                            path,
                            m,
                        ) {
                            Err(e) => Err(e),
                            Ok(inner) => walk(
                                dirs,
                                files,
                                table,
                                dir,
                                k + 1,
                                end,
                                prefix,
                                inner.insert(
                                    path,
                                    IndexEntry::Directory { files: dirs[child].3 as u16 },
                                ),
                            ),
                        }
                    }
                } else {
                    walk(
                        dirs,
                        files,
                        table,
                        dir,
                        k + 1,
                        end,
                        prefix,
                        m.insert(
                            path,
                            IndexEntry::File {
                                offset: f.offset_or_index,
                                size: f.size,
                                attributes: FileAttributes { bits: truncated(f.attributes) },
                            },
                        ),
                    )
                }
            },
        }
    }
}

/// The index of the archive that a buffer holds, or why it holds none. An
/// archive without directory records has an empty index.
pub open spec fn indexed(e: Endian, b: Seq<u8>) -> RarcResult<Map<Seq<char>, IndexEntry>> {
    match header_of(e, b) {
        Err(x) => Err(x),
        Ok(h) => if h.directory_nodes == 0 {
            Ok(Map::empty())
        } else if !strings_in(b, h) || !directories_in(b, h) || !files_in(b, h) {
            Err(RarcError::BadOffset)
        } else {
            let dirs = directories_of(e, b, h);
            if dirs[0].0 != root_tag() {
                Err(RarcError::FirstDirectoryNotRoot)
            } else {
                walk(
                    dirs,
                    files_of(e, b, h),
                    b.subrange(h.string_offset + 0x20, h.string_offset + 0x20 + h.string_size),
                    0,
                    dirs[0].4,
                    dirs[0].4 + dirs[0].3,
                    Seq::empty(),
                    Map::empty(),
                )
            }
        },
    }
}

/// What a list of entries holds under each path: where a path occurs more
/// than once, what occurs last.
pub open spec fn index_map(s: Seq<(String, IndexEntry)>) -> Map<Seq<char>, IndexEntry>
    decreases s.len(),
{
    if s.len() == 0 {
        Map::empty()
    } else {
        index_map(s.drop_last()).insert(s.last().0@, s.last().1)
    }
}

/// Changing what the last entry for a path holds changes what the list
/// holds under that path, and nothing else.
pub proof fn lemma_index_update(s: Seq<(String, IndexEntry)>, i: int, e: IndexEntry)
    requires
        0 <= i < s.len(),
        forall|k: int| i < k < s.len() ==> (#[trigger] s[k]).0@ != s[i].0@,
    ensures
        index_map(s.update(i, (s[i].0, e))) == index_map(s).insert(s[i].0@, e),
    decreases s.len(),
{
    let t = s.update(i, (s[i].0, e));
    if i == s.len() - 1 {
        assert(t.drop_last() =~= s.drop_last());
        assert(index_map(t) =~= index_map(s).insert(s[i].0@, e));
    } else {
        lemma_index_update(s.drop_last(), i, e);
        assert(t.drop_last() =~= s.drop_last().update(i, (s[i].0, e)));
        assert(s.last().0@ != s[i].0@);
        assert(index_map(t) =~= index_map(s).insert(s[i].0@, e));
    }
}

/// The index of an archive.
pub struct Archive {
    pub index: Vec<(String, IndexEntry)>,
}

impl View for Archive {
    type V = Map<Seq<char>, IndexEntry>;

    open spec fn view(&self) -> Map<Seq<char>, IndexEntry> {
        index_map(self.index@)
    }
}

/// A file of an archive that is open for its attributes to be read or set.
pub struct ArchivedFile<'a> {
    pub entry: &'a mut IndexEntry,
}

impl<'a> View for ArchivedFile<'a> {
    type V = IndexEntry;

    open spec fn view(&self) -> IndexEntry {
        *self.entry
    }
}

impl<'a> ArchivedFile<'a> {
    /// The attributes of the file.
    pub fn attributes(&self) -> (r: FileAttributes)
        requires
            self@ is File,
        ensures
            r == self@->attributes,
    {
        match &*self.entry {
            IndexEntry::File { attributes, .. } => *attributes,
            IndexEntry::Directory { .. } => FileAttributes { bits: 0 },
        }
    }

    /// Sets the attributes of the file.
    pub fn set_attributes(&mut self, value: FileAttributes)
        requires
            old(self)@ is File,
        ensures
            final(self)@ == (IndexEntry::File {
                offset: old(self)@->offset,
                size: old(self)@->size,
                attributes: value,
            }),
    {
        match &*self.entry {
            IndexEntry::File { offset, size, .. } => {
                let o: u32 = *offset;
                let s: u32 = *size;
                *self.entry = IndexEntry::File { offset: o, size: s, attributes: value };
            },
            IndexEntry::Directory { .. } => {},
        }
    }
}

/// Reads the entries of directory number `dir`, whose path is `prefix`,
/// into the index.
pub fn read_directory(
    directory_index: usize,
    directory_path: &str,
    directories: &Vec<DirectoryNode>,
    files: &Vec<FileNode>,
    table: &StringTable,
    index: &mut Vec<(String, IndexEntry)>,
) -> (r: RarcResult<()>)
    requires
        directory_index < directories@.len(),
    ensures
        match r {
            Ok(_) => walk(
                directories_view(directories@),
                files@,
                table@,
                directory_index as int,
                directories@[directory_index as int].file_offset as int,
                directories@[directory_index as int].file_offset + directories@[directory_index as int].file_count,
                directory_path@,
                index_map(old(index)@),
            ) == Ok::<Map<Seq<char>, IndexEntry>, RarcError>(index_map(final(index)@)),
            Err(e) => walk(
                directories_view(directories@),
                files@,
                table@,
                directory_index as int,
                directories@[directory_index as int].file_offset as int,
                directories@[directory_index as int].file_offset + directories@[directory_index as int].file_count,
                directory_path@,
                index_map(old(index)@),
            ) == Err::<Map<Seq<char>, IndexEntry>, RarcError>(e),
        },
    decreases directories@.len() - directory_index,
{
    let total: usize = files.len();
    let start: u64 = directories[directory_index].file_offset as u64;
    let end: u64 = start + directories[directory_index].file_count as u64;
    let ghost dirs = directories_view(directories@);
    let mut k: u64 = start;
    while k < end
        invariant
            start <= k <= end,
            end <= 0x1_0000_FFFF,
            total == files@.len(),
            directory_index < directories@.len(),
            start == directories@[directory_index as int].file_offset,
            end == directories@[directory_index as int].file_offset + directories@[directory_index as int].file_count,
            dirs == directories_view(directories@),
            walk(
                dirs,
                files@,
                table@,
                directory_index as int,
                start as int,
                end as int,
                directory_path@,
                index_map(old(index)@),
            ) == walk(
                dirs,
                files@,
                table@,
                directory_index as int,
                k as int,
                end as int,
                directory_path@,
                index_map(index@),
            ),
        decreases end - k,
    {
        if k >= total as u64 {
            return Err(RarcError::MissingFile { index: #[verifier::truncate] (k as usize) });
        }
        let file: &FileNode = &files[k as usize];
        let name: &str = match file.name(table) {
            Some(x) => x,
            None => {
                return Err(RarcError::NonRepresentableName);
            },
        };
        proof {
            reveal_strlit(".");
            reveal_strlit("..");
            assert("."@ =~= seq!['.']);
            assert(".."@ =~= seq!['.', '.']);
        }
        if crate::path::same_text(name, ".") || crate::path::same_text(name, "..") {
            k += 1;
            continue ;
        }
        if !crate::path::valid_name(name) {
            return Err(RarcError::NonRepresentableName);
        }
        let path: String = join_path(directory_path, name);
        if file.index == 0xFFFF {
            let child: usize = file.offset_or_index as usize;
            if child <= directory_index || child >= directories.len() {
                return Err(RarcError::BadOffset);
            }
            assert(dirs[child as int] == directory_fields(directories@[child as int]));
            read_directory(child, path.as_str(), directories, files, table, index)?;
            let ghost before = index@;
            index.push((path, IndexEntry::Directory { files: directories[child].file_count }));
            assert(index@.drop_last() =~= before);
        } else {
            let ghost before = index@;
            index.push(
                (
                    path,
                    IndexEntry::File {
                        offset: file.offset_or_index,
                        size: file.size,
                        attributes: FileAttributes::from_bits_truncate(file.attributes),
                    },
                ),
            );
            assert(index@.drop_last() =~= before);
        }
        k += 1;
    }
    Ok(())
}

impl Archive {
    /// Reads the index of the archive that `buffer` holds, with integers
    /// in the given byte order.
    pub fn read(endian: Endian, buffer: &[u8]) -> (r: RarcResult<Archive>)
        ensures
            match r {
                Ok(a) => indexed(endian, buffer@) == Ok::<Map<Seq<char>, IndexEntry>, RarcError>(a@),
                Err(e) => indexed(endian, buffer@) == Err::<Map<Seq<char>, IndexEntry>, RarcError>(e),
            },
    {
        let header: RarcHeader = RarcHeader::read(endian, buffer)?;
        if header.directory_nodes == 0 {
            return Ok(Archive { index: Vec::new() });
        }
        let table: StringTable = StringTable::read(buffer, &header)?;
        let directories: Vec<DirectoryNode> = read_directory_nodes(endian, buffer, &header)?;
        let files: Vec<FileNode> = read_file_nodes(endian, buffer, &header)?;
        assert(directories_view(directories@).len() == header.directory_nodes);
        assert(directories_view(directories@)[0] == directory_fields(directories@[0]));
        let tag: &[u8; 4] = &directories[0].tag;
        let is_root: bool = tag[0] == 0x52 && tag[1] == 0x4F && tag[2] == 0x4F && tag[3] == 0x54;
        proof {
            if is_root {
                assert(tag@ =~= root_tag());
            } else {
                if tag@ == root_tag() {
                    assert(tag@[0] == 0x52 && tag@[1] == 0x4F && tag@[2] == 0x4F && tag@[3] == 0x54);
                }
            }
        }
        if !is_root {
            return Err(RarcError::FirstDirectoryNotRoot);
        }
        let mut index: Vec<(String, IndexEntry)> = Vec::new();
        proof {
            reveal_strlit("");
            assert(""@ =~= Seq::<char>::empty());
        }
        read_directory(0, "", &directories, &files, &table, &mut index)?;
        Ok(Archive { index })
    }

    /// What the index knows of `path`.
    pub fn entry(&self, path: &str) -> (r: Option<IndexEntry>)
        ensures
            r.is_some() == self@.contains_key(path@),
            r.is_some() ==> r.unwrap() == self@[path@],
    {
        let mut i: usize = self.index.len();
        assert(self.index@.subrange(0, i as int) =~= self.index@);
        while i > 0
            invariant
                i <= self.index@.len(),
                self@.contains_key(path@) == index_map(self.index@.subrange(0, i as int)).contains_key(
                    path@,
                ),
                self@.contains_key(path@) ==> self@[path@] == index_map(
                    self.index@.subrange(0, i as int),
                )[path@],
            decreases i,
        {
            proof {
                let s = self.index@.subrange(0, i as int);
                assert(s.drop_last() =~= self.index@.subrange(0, i - 1));
                assert(s.last() == self.index@[i - 1]);
            }
            if crate::path::same_text(self.index[i - 1].0.as_str(), path) {
                return Some(self.index[i - 1].1);
            }
            i -= 1;
        }
        None
    }

    /// Where `path` stands last in the list of entries, if it stands there.
    fn find(&self, path: &str) -> (r: Option<usize>)
        ensures
            r.is_some() == self@.contains_key(path@),
            r.is_some() ==> r.unwrap() < self.index@.len() && self.index@[r.unwrap() as int].0@ == path@
                && self.index@[r.unwrap() as int].1 == self@[path@] && forall|k: int|
                r.unwrap() < k < self.index@.len() ==> (#[trigger] self.index@[k]).0@ != path@,
    {
        let mut i: usize = self.index.len();
        assert(self.index@.subrange(0, i as int) =~= self.index@);
        while i > 0
            invariant
                i <= self.index@.len(),
                self@.contains_key(path@) == index_map(self.index@.subrange(0, i as int)).contains_key(
                    path@,
                ),
                self@.contains_key(path@) ==> self@[path@] == index_map(
                    self.index@.subrange(0, i as int),
                )[path@],
                forall|k: int| i <= k < self.index@.len() ==> (#[trigger] self.index@[k]).0@ != path@,
            decreases i,
        {
            proof {
                let s = self.index@.subrange(0, i as int);
                assert(s.drop_last() =~= self.index@.subrange(0, i - 1));
                assert(s.last() == self.index@[i - 1]);
            }
            if crate::path::same_text(self.index[i - 1].0.as_str(), path) {
                return Some(i - 1);
            }
            i -= 1;
        }
        None
    }

    /// Opens the file at `path` for its attributes to be read or set: none
    /// where nothing stands at the path, or a directory.
    pub fn open_file(&mut self, path: &str) -> (r: Option<ArchivedFile<'_>>)
        ensures
            r.is_some() == (old(self)@.contains_key(path@) && old(self)@[path@] is File),
            r.is_some() ==> r.unwrap()@ == old(self)@[path@],
            r.is_some() ==> final(self)@ == old(self)@.insert(path@, *final(r.unwrap().entry)),
            r.is_none() ==> *final(self) == *old(self),
    {
        match self.find(path) {
            None => None,
            Some(i) => {
                let is_file: bool = match self.index[i].1 {
                    IndexEntry::File { .. } => true,
                    IndexEntry::Directory { .. } => false,
                };
                if is_file {
                    let slot: &mut (String, IndexEntry) = &mut self.index[i];
                    let entry: &mut IndexEntry = &mut slot.1;
                    proof {
                        let before = old(self).index@;
                        lemma_index_update(before, i as int, *final(entry));
                    }
                    Some(ArchivedFile { entry })
                } else {
                    None
                }
            },
        }
    }

    /// The number of entries that were read.
    pub fn len(&self) -> (r: usize)
        ensures
            r == self.index@.len(),
    {
        self.index.len()
    }
}

} // verus!
