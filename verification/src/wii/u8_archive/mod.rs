//! The flat archive: one array of records in preorder, each directory
//! holding the index at which its subtree ends.

pub mod decode;
pub mod encode;
pub mod header;
pub mod node;
pub mod round_trip;
pub mod utils;

use crate::endian::{put_slice, Endian};
use crate::order::listing;
use crate::tree::{created, dirs_of, files_of, removable, ArchiveTree};
use crate::trie::{entries_view, entry_view, is_listing};
use crate::wii::error::{WiiError, WiiResult};
use crate::wii::format::FileFormat;
use decode::{decode_tree, u8_decoded};
use encode::{encode_listing, u8_encoded, NamePolicy};
use vstd::prelude::*;

verus! {

/// A flat archive in memory: a tree of files and directories.
pub struct U8Archive(pub ArchiveTree);

impl View for U8Archive {
    type V = Map<Seq<char>, Option<Seq<u8>>>;

    open spec fn view(&self) -> Map<Seq<char>, Option<Seq<u8>>> {
        self.0@
    }
}

impl U8Archive {
    /// Every path in the archive is a valid path.
    pub open spec fn wf(&self) -> bool {
        self.0.wf()
    }

    /// Creates an entry, with the directories above it: a file with the
    /// given contents, or a directory where there are none.
    pub fn create(&mut self, path: &str, data: Option<Vec<u8>>)
        ensures
            final(self)@ == created(old(self)@, path@, entry_view(data)),
            old(self).wf() ==> final(self).wf(),
    {
        self.0.create(path, data)
    }

    /// Creates a directory, with the directories above it, unless something
    /// stands at its path already.
    pub fn create_directory(&mut self, path: &str)
        ensures
            final(self)@ == created(old(self)@, path@, None),
            old(self).wf() ==> final(self).wf(),
    {
        self.0.create(path, None)
    }

    /// Creates a file, with the directories above it, in place of what stood
    /// at its path.
    pub fn create_file(&mut self, path: &str, data: Vec<u8>)
        ensures
            final(self)@ == created(old(self)@, path@, Some(data@)),
            old(self).wf() ==> final(self).wf(),
    {
        self.0.create(path, Some(data))
    }

    /// Whether a directory stands at exactly this path.
    #[must_use]
    pub fn is_directory(&self, path: &str) -> (r: bool)
        ensures
            r == (self@.contains_key(path@) && self@[path@].is_none()),
    {
        self.0.is_directory(path)
    }

    /// The contents of the file at exactly this path, if a file stands there.
    #[must_use]
    pub fn get_file(&self, path: &str) -> (r: Option<&[u8]>)
        ensures
            r.is_some() == (self@.contains_key(path@) && self@[path@].is_some()),
            r.is_some() ==> self@[path@] == Some(r.unwrap()@),
    {
        self.0.get_file(path)
    }

    /// Takes out the entry at exactly this path and returns what it held
    /// (`Some(None)` for a directory). An entry that has entries below it is
    /// not taken out: then, as for a path where nothing stands, the result
    /// is `None` and the archive is unchanged.
    pub fn remove(&mut self, path: &str) -> (r: Option<Option<Vec<u8>>>)
        ensures
            r.is_some() == removable(old(self)@, path@),
            r.is_some() ==> entry_view(r.unwrap()) == old(self)@[path@],
            final(self)@ == if removable(old(self)@, path@) {
                old(self)@.remove(path@)
            } else {
                old(self)@
            },
            old(self).wf() ==> final(self).wf(),
    {
        self.0.remove(path)
    }

    /// Moves the entry at `old_path`, if it can be taken out, to `new_path`.
    pub fn mv(&mut self, old_path: &str, new_path: &str)
        ensures
            final(self)@ == if removable(old(self)@, old_path@) {
                created(old(self)@.remove(old_path@), new_path@, old(self)@[old_path@])
            } else {
                old(self)@
            },
            old(self).wf() ==> final(self).wf(),
    {
        self.0.mv(old_path, new_path)
    }

    /// The entries in ascending order of their paths.
    pub fn iter(&self) -> (r: Vec<(&str, Option<&[u8]>)>)
        ensures
            entries_view(r@) == listing(self@),
            is_listing(listing(self@), self@),
    {
        self.0.iter()
    }

    /// The paths of the directories, in ascending order.
    pub fn directories(&self) -> (r: Vec<&str>)
        ensures
            r@.len() == dirs_of(listing(self@)).len(),
            forall|i: int| 0 <= i < r@.len() ==> (#[trigger] r@[i])@ == dirs_of(listing(self@))[i],
    {
        self.0.directories()
    }

    /// The files with their contents, in ascending order of their paths.
    pub fn files(&self) -> (r: Vec<(&str, &[u8])>)
        ensures
            r@.len() == files_of(listing(self@)).len(),
            forall|i: int| 0 <= i < r@.len() ==> ((#[trigger] r@[i]).0@, r@[i].1@) == files_of(listing(self@))[i],
    {
        self.0.files()
    }

    /// The image of the archive, with integers in the given byte order and
    /// names treated as `policy` says.
    pub fn encode(&self, order: Endian, policy: NamePolicy) -> (r: WiiResult<Vec<u8>>)
        ensures
            match r {
                Ok(b) => u8_encoded(order, listing(self@), policy) == Ok::<Seq<u8>, WiiError>(b@),
                Err(e) => u8_encoded(order, listing(self@), policy) == Err::<Seq<u8>, WiiError>(e),
            },
    {
        let es = self.0.iter();
        encode_listing(order, &es, policy)
    }

    /// The archive that an image holds, with integers in the given byte order.
    pub fn decode(order: Endian, buffer: &[u8]) -> (r: WiiResult<U8Archive>)
        ensures
            match r {
                Ok(a) => u8_decoded(order, buffer@) == Ok::<Map<Seq<char>, Option<Seq<u8>>>, WiiError>(a@) && a.wf(),
                Err(e) => u8_decoded(order, buffer@) == Err::<Map<Seq<char>, Option<Seq<u8>>>, WiiError>(e),
            },
    {
        match decode_tree(order, buffer) {
            Ok(t) => Ok(U8Archive(t)),
            Err(e) => Err(e),
        }
    }
}

impl FileFormat for U8Archive {
    /// Reading gives the archive that the bytes hold, with integers in
    /// big-endian order, or the error that they are refused with.
    open spec fn reads_as(buffer: Seq<u8>, r: WiiResult<U8Archive>) -> bool {
        match r {
            Ok(a) => u8_decoded(Endian::Big, buffer) == Ok::<Map<Seq<char>, Option<Seq<u8>>>, WiiError>(a@) && a.wf(),
            Err(e) => u8_decoded(Endian::Big, buffer) == Err::<Map<Seq<char>, Option<Seq<u8>>>, WiiError>(e),
        }
    }

    /// The archive's image, with integers in big-endian order; a name that
    /// is not plain is refused.
    open spec fn image(&self) -> WiiResult<Seq<u8>> {
        u8_encoded(Endian::Big, listing(self@), NamePolicy::Reject)
    }

    /// Reads the archive that `buffer` holds, with integers in big-endian order.
    fn read(buffer: &[u8]) -> (r: WiiResult<U8Archive>) {
        U8Archive::decode(Endian::Big, buffer)
    }

    /// Appends the archive's image, with integers in big-endian order; a
    /// name that is not plain is refused.
    fn write(&self, out: &mut Vec<u8>) -> (r: WiiResult<()>) {
        match self.encode(Endian::Big, NamePolicy::Reject) {
            Ok(b) => {
                put_slice(out, b.as_slice());
                assert(out@.subrange(old(out)@.len() as int, out@.len() as int) =~= b@);
                Ok(())
            },
            Err(e) => Err(e),
        }
    }
}

impl Default for U8Archive {
    fn default() -> (r: Self)
        ensures
            r@ == Map::<Seq<char>, Option<Seq<u8>>>::empty(),
            r.wf(),
    {
        U8Archive(ArchiveTree::new())
    }
}

} // verus!
