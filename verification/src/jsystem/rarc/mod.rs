//! The archive with a table of directories and a table of entries.

pub mod assemble;
pub mod compress;
pub mod decode;
pub mod encode;
pub mod entry;
pub mod error;
pub mod header;
pub mod image;
pub mod node;
pub mod place;
pub mod round_trip;
pub mod tables;
pub mod utils;

pub use error::{RarcError, RarcResult};

use crate::order::listing;
use crate::tree::{created, dirs_of, files_of, removable, ArchiveTree};
use crate::trie::{entries_view, entry_view, is_listing};
use assemble::encode_listing;
use compress::{finish_save, rarc_saved, yaz0_compress};
use decode::{decode_tree, rarc_decoded};
use encode::rarc_encoded;
use crate::endian::Endian;
use vstd::prelude::*;

verus! {

/// An archive in memory: a tree of files and directories.
pub struct RarcArchive(pub ArchiveTree);

impl View for RarcArchive {
    type V = Map<Seq<char>, Option<Seq<u8>>>;

    open spec fn view(&self) -> Map<Seq<char>, Option<Seq<u8>>> {
        self.0@
    }
}

impl RarcArchive {
    /// Every path in the archive is a valid path.
    pub open spec fn wf(&self) -> bool {
        self.0.wf()
    }

    /// Reads an archive from its bytes as they are once decompressed, with
    /// integers in the given byte order.
    pub fn read(order: Endian, buffer: &[u8]) -> (r: RarcResult<RarcArchive>)
        ensures
            match r {
                Ok(a) => rarc_decoded(order, buffer@) == Ok::<Map<Seq<char>, Option<Seq<u8>>>, RarcError>(a@)
                    && a.wf(),
                Err(e) => rarc_decoded(order, buffer@) == Err::<Map<Seq<char>, Option<Seq<u8>>>, RarcError>(e),
            },
    {
        match decode_tree(order, buffer) {
            Ok(t) => Ok(RarcArchive(t)),
            Err(e) => Err(e),
        }
    }

    /// The image of the archive before it is compressed, with integers in
    /// the given byte order.
    pub fn encode(&self, order: Endian) -> (r: RarcResult<Vec<u8>>)
        ensures
            match r {
                Ok(b) => rarc_encoded(order, listing(self@)) == Ok::<Seq<u8>, RarcError>(b@),
                Err(e) => rarc_encoded(order, listing(self@)) == Err::<Seq<u8>, RarcError>(e),
            },
    {
        let es = self.0.iter();
        encode_listing(order, &es)
    }

    /// The compressed image of the archive. A quality that is none of 1 to
    /// 10 is refused before anything else is done; an archive that cannot
    /// be written is refused for the reason that its image gives; every
    /// other archive is saved as what the compressor makes of its image.
    pub fn save(&self, order: Endian, quality: usize) -> (r: RarcResult<Vec<u8>>)
        ensures
            match r {
                Ok(out) => rarc_saved(order, listing(self@), quality) == Ok::<Seq<u8>, RarcError>(out@),
                Err(e) => rarc_saved(order, listing(self@), quality) == Err::<Seq<u8>, RarcError>(e),
            },
    {
        if quality < 1 || quality > 10 {
            return Err(RarcError::UnsupportedCompression);
        }
        let image: Vec<u8> = self.encode(order)?;
        finish_save(yaz0_compress(image.as_slice(), quality))
    }

    /// Creates an entry, with the directories above it: a file with the
    /// given contents, or a directory where there are none.
    pub fn create(&mut self, path: &str, data: Option<Vec<u8>>)
        ensures
            final(self)@ == created(old(self)@, path@, entry_view(data)),
            old(self).wf() ==> final(self).wf(),
    {
        self.0.create(path, data)
    }

    /// Creates a directory, with the directories above it, unless something
    /// stands at its path already.
    pub fn create_directory(&mut self, path: &str)
        ensures
            final(self)@ == created(old(self)@, path@, None),
            old(self).wf() ==> final(self).wf(),
    {
        self.0.create(path, None)
    }

    /// Creates a file, with the directories above it, in place of what stood
    /// at its path.
    pub fn create_file(&mut self, path: &str, data: Vec<u8>)
        ensures
            final(self)@ == created(old(self)@, path@, Some(data@)),
            old(self).wf() ==> final(self).wf(),
    {
        self.0.create(path, Some(data))
    }

    /// Whether a directory stands at exactly this path.
    pub fn is_directory(&self, path: &str) -> (r: bool)
        ensures
            r == (self@.contains_key(path@) && self@[path@].is_none()),
    {
        self.0.is_directory(path)
    }

    /// The contents of the file at exactly this path, if a file stands there.
    pub fn get_file(&self, path: &str) -> (r: Option<&[u8]>)
        ensures
            r.is_some() == (self@.contains_key(path@) && self@[path@].is_some()),
            r.is_some() ==> self@[path@] == Some(r.unwrap()@),
    {
        self.0.get_file(path)
    }

    /// Takes out the entry at exactly this path and returns what it held
    /// (`Some(None)` for a directory). An entry that has entries below it is
    /// not taken out: then, as for a path where nothing stands, the result
    /// is `None` and the archive is unchanged.
    pub fn remove(&mut self, path: &str) -> (r: Option<Option<Vec<u8>>>)
        ensures
            r.is_some() == removable(old(self)@, path@),
            r.is_some() ==> entry_view(r.unwrap()) == old(self)@[path@],
            final(self)@ == if removable(old(self)@, path@) {
                old(self)@.remove(path@)
            } else {
                old(self)@
            },
            old(self).wf() ==> final(self).wf(),
    {
        self.0.remove(path)
    }

    /// Moves the entry at `old_path`, if it can be taken out, to `new_path`.
    pub fn mv(&mut self, old_path: &str, new_path: &str)
        ensures
            final(self)@ == if removable(old(self)@, old_path@) {
                created(old(self)@.remove(old_path@), new_path@, old(self)@[old_path@])
            } else {
                old(self)@
            },
            old(self).wf() ==> final(self).wf(),
    {
        self.0.mv(old_path, new_path)
    }

    /// The entries in ascending order of their paths.
    pub fn iter(&self) -> (r: Vec<(&str, Option<&[u8]>)>)
        ensures
            entries_view(r@) == listing(self@),
            is_listing(listing(self@), self@),
    {
        self.0.iter()
    }

    /// The paths of the directories, in ascending order.
    pub fn directories(&self) -> (r: Vec<&str>)
        ensures
            r@.len() == dirs_of(listing(self@)).len(),
            forall|i: int| 0 <= i < r@.len() ==> (#[trigger] r@[i])@ == dirs_of(listing(self@))[i],
    {
        self.0.directories()
    }

    /// The files with their contents, in ascending order of their paths.
    pub fn files(&self) -> (r: Vec<(&str, &[u8])>)
        ensures
            r@.len() == files_of(listing(self@)).len(),
            forall|i: int| 0 <= i < r@.len() ==> ((#[trigger] r@[i]).0@, r@[i].1@) == files_of(listing(self@))[i],
    {
        self.0.files()
    }
}

impl Default for RarcArchive {
    fn default() -> (r: Self)
        ensures
            r@ == Map::<Seq<char>, Option<Seq<u8>>>::empty(),
            r.wf(),
    {
        RarcArchive(ArchiveTree::new())
    }
}

} // verus!
