//! Names, hashes and the growing buffers of an archive.

use crate::endian::{put_slice, put_u8};
use vstd::prelude::*;
use vstd::string::*;

verus! {

/// The text that a byte string stands for in Shift JIS, as `encoding_rs`
/// decodes it, an undecodable byte giving the replacement character.
pub uninterp spec fn shift_jis_decoded(bytes: Seq<u8>) -> Seq<char>;

/// The bytes that a text is written as in Shift JIS, as `encoding_rs`
/// encodes it, and whether some character had no code there and was
/// written as a numeric reference instead.
pub uninterp spec fn shift_jis_encoded(text: Seq<char>) -> (Seq<u8>, bool);

/// Trusted: `encoding_rs::SHIFT_JIS.decode_without_bom_handling` is a
/// function of the bytes alone.
#[verifier::external_body]
pub(crate) fn decode_shift_jis(bytes: &[u8]) -> (r: String)
    ensures
        r@ == shift_jis_decoded(bytes@),
{
    let (text, _) = encoding_rs::SHIFT_JIS.decode_without_bom_handling(bytes);
    text.into_owned()
}

/// Trusted: `encoding_rs::SHIFT_JIS.encode` is a function of the text alone.
#[verifier::external_body]
pub(crate) fn encode_shift_jis(text: &str) -> (r: (Vec<u8>, bool))
    ensures
        (r.0@, r.1) == shift_jis_encoded(text@),
{
    let (bytes, _, unmappable) = encoding_rs::SHIFT_JIS.encode(text);
    (bytes.into_owned(), unmappable)
}

/// The hash of a name: each character's low 16 bits added to three times
/// the hash so far, in 16-bit arithmetic.
pub open spec fn name_hash(s: Seq<char>) -> int
    decreases s.len(),
{
    if s.len() == 0 {
        0
    } else {
        (name_hash(s.drop_last()) * 3 + (s.last() as u32) % 0x10000) % 0x10000
    }
}

/// The four-byte tag of a directory: the low bytes of the first four
/// characters of its name, filled up with spaces.
pub open spec fn tag_of(s: Seq<char>) -> Seq<u8> {
    Seq::new(
        4,
        |i: int|
            if i < s.len() {
                ((s[i] as u32) % 0x100) as u8
            } else {
                0x20u8
            },
    )
}

/// The hash of a name.
pub fn hash_str(value: &str) -> (r: u16)
    ensures
        r == name_hash(value@),
{
    let n: usize = value.unicode_len();
    let mut h: u32 = 0;
    let mut i: usize = 0;
    assert(value@.subrange(0, 0) =~= Seq::<char>::empty());
    while i < n
        invariant
            i <= n,
            n == value@.len(),
            h < 0x10000,
            h == name_hash(value@.subrange(0, i as int)),
        decreases n - i,
    {
        let c: u32 = value.get_char(i) as u32;
        proof {
            let s = value@.subrange(0, i + 1);
            assert(s.drop_last() =~= value@.subrange(0, i as int));
            assert(s.last() == value@[i as int]);
        }
        h = (h * 3 + c % 0x10000) % 0x10000;
        i += 1;
    }
    assert(value@.subrange(0, n as int) =~= value@);
    h as u16
}

/// The tag of a directory called `name`.
pub fn create_tag(name: &str) -> (r: [u8; 4])
    ensures
        r@ == tag_of(name@),
{
    let n: usize = name.unicode_len();
    let a: u8 = if 0 < n {
        ((name.get_char(0) as u32) % 0x100) as u8
    } else {
        0x20
    };
    let b: u8 = if 1 < n {
        ((name.get_char(1) as u32) % 0x100) as u8
    } else {
        0x20
    };
    let c: u8 = if 2 < n {
        ((name.get_char(2) as u32) % 0x100) as u8
    } else {
        0x20
    };
    let d: u8 = if 3 < n {
        ((name.get_char(3) as u32) % 0x100) as u8
    } else {
        0x20
    };
    let r: [u8; 4] = [a, b, c, d];
    assert(r@ =~= tag_of(name@));
    r
}

/// The path of the entry called `right` in the directory `left`.
pub fn join_path(left: &str, right: &str) -> (r: String)
    ensures
        r@ == crate::path::join(left@, right@),
{
    crate::path::join_path(left, right)
}

/// The string table while it is written: names one after another, each
/// followed by a zero byte.
pub struct StringTableWriter(pub Vec<u8>);

impl View for StringTableWriter {
    type V = Seq<u8>;

    open spec fn view(&self) -> Seq<u8> {
        self.0@
    }
}

impl StringTableWriter {
    /// An empty table.
    pub fn new() -> (r: Self)
        ensures
            r@ == Seq::<u8>::empty(),
    {
        StringTableWriter(Vec::new())
    }

    /// Writes the Shift JIS bytes of `value` and a zero, and returns the
    /// offset at which they start.
    pub fn write_str(&mut self, value: &str) -> (r: usize)
        ensures
            r == old(self)@.len(),
            final(self)@ == old(self)@ + shift_jis_encoded(value@).0 + seq![0u8],
    {
        let (bytes, _unmappable) = encode_shift_jis(value);
        self.write_bytes(bytes.as_slice())
    }

    /// Writes `value` and a zero, and returns the offset at which they start.
    pub fn write_bytes(&mut self, value: &[u8]) -> (r: usize)
        ensures
            r == old(self)@.len(),
            final(self)@ == old(self)@ + value@ + seq![0u8],
    {
        let position: usize = self.0.len();
        put_slice(&mut self.0, value);
        put_u8(&mut self.0, 0);
        position
    }
}

/// The data region while it is written.
pub struct DataWriter(pub Vec<u8>);

impl View for DataWriter {
    type V = Seq<u8>;

    open spec fn view(&self) -> Seq<u8> {
        self.0@
    }
}

impl DataWriter {
    /// An empty region.
    pub fn new() -> (r: Self)
        ensures
            r@ == Seq::<u8>::empty(),
    {
        DataWriter(Vec::new())
    }

    /// Appends `data` and returns the offset at which it starts.
    pub fn append(&mut self, data: &[u8]) -> (r: u32)
        requires
            old(self)@.len() <= u32::MAX,
        ensures
            r == old(self)@.len(),
            final(self)@ == old(self)@ + data@,
    {
        let result: u32 = self.0.len() as u32;
        put_slice(&mut self.0, data);
        result
    }

    /// The bytes of the region.
    pub fn finish(self) -> (r: Vec<u8>)
        ensures
            r@ == self@,
    {
        self.0
    }
}

} // verus!
