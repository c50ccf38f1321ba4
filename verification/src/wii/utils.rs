//! Strings in buffers, and a growing buffer of data.

use crate::endian::{put_slice, put_u32, put_u8, u32_bytes, Endian};
use crate::wii::error::{WiiError, WiiResult};
use vstd::prelude::*;
use vstd::utf8::{decode_utf8, encode_utf8, valid_utf8};

verus! {

/// The index of the first zero byte of `b` from `pos` on, or the length of
/// `b` where there is none.
pub open spec fn nul_from(b: Seq<u8>, pos: int) -> int
    decreases b.len() - pos,
{
    if pos < 0 || pos >= b.len() || b[pos] == 0 {
        pos
    } else {
        nul_from(b, pos + 1)
    }
}

/// Where bytes without a zero are followed by a zero, the zero is the
/// first from their start on.
pub proof fn lemma_nul_after(b: Seq<u8>, pos: int, len: int)
    requires
        0 <= pos,
        0 <= len,
        pos + len < b.len(),
        forall|k: int| pos <= k < pos + len ==> #[trigger] b[k] != 0,
        b[pos + len] == 0,
    ensures
        nul_from(b, pos) == pos + len,
    decreases len,
{
    if len > 0 {
        lemma_nul_after(b, pos + 1, len - 1);
    }
}

/// The text of the zero-terminated string at `pos`.
pub open spec fn string_at(b: Seq<u8>, pos: int) -> WiiResult<Seq<char>> {
    if pos < 0 || pos > b.len() || nul_from(b, pos) >= b.len() {
        Err(WiiError::BadOffset)
    } else if !valid_utf8(b.subrange(pos, nul_from(b, pos))) {
        Err(WiiError::Utf8Error)
    } else {
        Ok(decode_utf8(b.subrange(pos, nul_from(b, pos))))
    }
}

/// The text of the `len` bytes at `pos`.
pub open spec fn string_exact_at(b: Seq<u8>, pos: int, len: int) -> WiiResult<Seq<char>> {
    if pos < 0 || len < 0 || pos + len > b.len() {
        Err(WiiError::BadOffset)
    } else if !valid_utf8(b.subrange(pos, pos + len)) {
        Err(WiiError::Utf8Error)
    } else {
        Ok(decode_utf8(b.subrange(pos, pos + len)))
    }
}

/// The four bytes of a signed 32-bit value, in two's complement.
pub open spec fn i32_bytes(e: Endian, x: i32) -> Seq<u8> {
    u32_bytes(e, unsigned_of(x))
}

/// The unsigned value with the same 32 bits.
pub open spec fn unsigned_of(x: i32) -> u32 {
    if x >= 0 {
        x as u32
    } else {
        (x + 0x1_0000_0000) as u32
    }
}

/// The bytes of a sequence of signed 32-bit values.
pub open spec fn i32s_bytes(e: Endian, xs: Seq<i32>) -> Seq<u8>
    decreases xs.len(),
{
    if xs.len() == 0 {
        Seq::empty()
    } else {
        i32s_bytes(e, xs.drop_last()) + i32_bytes(e, xs.last())
    }
}

/// Trusted: `std::str::from_utf8` accepts exactly the byte strings that are
/// valid UTF-8, and the text it returns has those bytes as its encoding.
#[verifier::external_body]
pub(crate) fn utf8_text<'a>(bytes: &'a [u8]) -> (r: Option<&'a str>)
    ensures
        r.is_some() == valid_utf8(bytes@),
        r.is_some() ==> encode_utf8(r.unwrap()@) == bytes@,
{
    std::str::from_utf8(bytes).ok()
}

/// The position of the first zero byte from `pos` on.
pub fn find_nul(buffer: &[u8], pos: usize) -> (r: usize)
    requires
        pos <= buffer@.len(),
    ensures
        r == nul_from(buffer@, pos as int),
        pos <= r <= buffer@.len(),
{
    let n: usize = buffer.len();
    let mut i: usize = pos;
    while i < n && buffer[i] != 0
        invariant
            pos <= i <= n,
            n == buffer@.len(),
            nul_from(buffer@, pos as int) == nul_from(buffer@, i as int),
        decreases n - i,
    {
        i += 1;
    }
    i
}

/// Reads the zero-terminated UTF-8 string at `pos`. A string that runs to
/// the end of the buffer without its terminator is refused.
pub fn read_string(buffer: &[u8], pos: usize) -> (r: WiiResult<String>)
    ensures
        match r {
            Ok(s) => string_at(buffer@, pos as int) == Ok::<Seq<char>, WiiError>(s@),
            Err(e) => string_at(buffer@, pos as int) == Err::<Seq<char>, WiiError>(e),
        },
{
    if pos > buffer.len() {
        return Err(WiiError::BadOffset);
    }
    let end: usize = find_nul(buffer, pos);
    if end >= buffer.len() {
        return Err(WiiError::BadOffset);
    }
    let bytes = vstd::slice::slice_subrange(buffer, pos, end);
    match utf8_text(bytes) {
        Some(s) => {
            proof {
                vstd::utf8::encode_utf8_decode_utf8(s@);
            }
            Ok(s.to_owned())
        },
        None => Err(WiiError::Utf8Error),
    }
}

/// Reads the `len` bytes at `pos` as UTF-8 text.
pub fn read_string_exact(buffer: &[u8], pos: usize, len: usize) -> (r: WiiResult<String>)
    ensures
        match r {
            Ok(s) => string_exact_at(buffer@, pos as int, len as int) == Ok::<Seq<char>, WiiError>(s@),
            Err(e) => string_exact_at(buffer@, pos as int, len as int) == Err::<Seq<char>, WiiError>(e),
        },
{
    if pos > buffer.len() || len > buffer.len() - pos {
        return Err(WiiError::BadOffset);
    }
    let bytes = vstd::slice::slice_subrange(buffer, pos, pos + len);
    match utf8_text(bytes) {
        Some(s) => {
            proof {
                vstd::utf8::encode_utf8_decode_utf8(s@);
            }
            Ok(s.to_owned())
        },
        None => Err(WiiError::Utf8Error),
    }
}

/// A buffer of data that grows at its end and tells where each piece went.
pub struct DataBufferWriter(pub Vec<u8>);

impl View for DataBufferWriter {
    type V = Seq<u8>;

    open spec fn view(&self) -> Seq<u8> {
        self.0@
    }
}

impl DataBufferWriter {
    /// An empty buffer.
    pub fn new() -> (r: Self)
        ensures
            r@ == Seq::<u8>::empty(),
    {
        DataBufferWriter(Vec::new())
    }

    /// An empty buffer with room for `len` bytes.
    pub fn with_capacity(len: usize) -> (r: Self)
        ensures
            r@ == Seq::<u8>::empty(),
    {
        DataBufferWriter(Vec::with_capacity(len))
    }

    /// The number of bytes written so far.
    pub fn len(&self) -> (r: usize)
        ensures
            r == self@.len(),
    {
        self.0.len()
    }

    /// Appends `data` and returns the offset at which it starts.
    pub fn write_bytes(&mut self, data: &[u8]) -> (r: u32)
        requires
            old(self)@.len() <= u32::MAX,
        ensures
            r == old(self)@.len(),
            final(self)@ == old(self)@ + data@,
    {
        let offset: u32 = self.0.len() as u32;
        put_slice(&mut self.0, data);
        offset
    }

    /// Appends the UTF-8 bytes of `value` and a zero byte, and returns the
    /// offset at which they start.
    pub fn write_str_null(&mut self, value: &str) -> (r: u32)
        requires
            old(self)@.len() <= u32::MAX,
        ensures
            r == old(self)@.len(),
            final(self)@ == old(self)@ + encode_utf8(value@) + seq![0u8],
    {
        let offset: u32 = self.0.len() as u32;
        put_slice(&mut self.0, value.as_bytes());
        put_u8(&mut self.0, 0);
        offset
    }

    /// Appends the values in the given byte order and returns the offset at
    /// which they start.
    pub fn write_i32_slice(&mut self, endian: Endian, value: &[i32]) -> (r: u32)
        requires
            old(self)@.len() <= u32::MAX,
        ensures
            r == old(self)@.len(),
            final(self)@ == old(self)@ + i32s_bytes(endian, value@),
    {
        let offset: u32 = self.0.len() as u32;
        let n: usize = value.len();
        let mut i: usize = 0;
        assert(value@.subrange(0, 0) =~= Seq::<i32>::empty());
        assert(self@ =~= old(self)@ + i32s_bytes(endian, value@.subrange(0, 0)));
        while i < n
            invariant
                i <= n,
                n == value@.len(),
                self@ == old(self)@ + i32s_bytes(endian, value@.subrange(0, i as int)),
            decreases n - i,
        {
            let x: i32 = value[i];
            let u: u32 = if x >= 0 {
                x as u32
            } else {
                ((x as i64) + 0x1_0000_0000i64) as u32
            };
            proof {
                let s = value@.subrange(0, i + 1);
                assert(s.drop_last() =~= value@.subrange(0, i as int));
                assert(s.last() == x);
            }
            put_u32(endian, &mut self.0, u);
            i += 1;
            assert(self@ =~= old(self)@ + i32s_bytes(endian, value@.subrange(0, i as int)));
        }
        assert(value@.subrange(0, n as int) =~= value@);
        offset
    }

    /// The bytes written.
    pub fn finish(self) -> (r: Vec<u8>)
        ensures
            r@ == self@,
    {
        self.0
    }
}

} // verus!
