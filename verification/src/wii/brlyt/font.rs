//! The names of the fonts of a layout.

use crate::endian::{get_u16, get_u32, put_slice, put_u16, put_u32, u16_bytes, u16_of, u32_bytes, u32_of, Endian};
use crate::wii::error::{WiiError, WiiResult};
use crate::wii::utils::{read_string, string_at, DataBufferWriter};
use vstd::prelude::*;
use vstd::utf8::encode_utf8;

verus! {

/// The signature of the section.
pub const FONT_MAGIC: u32 = 0x74786C31;

/// The names of the fonts.
pub struct FontSection(pub Vec<String>);

/// The names as the contracts see them.
pub open spec fn names_view(v: Seq<String>) -> Seq<Seq<char>> {
    Seq::new(v.len(), |i: int| v[i]@)
}

/// The names of the first `k` fonts, each with the zero that ends it.
pub open spec fn names_upto(names: Seq<Seq<char>>, k: int) -> Seq<u8>
    decreases k,
{
    if k <= 0 {
        Seq::empty()
    } else {
        names_upto(names, k - 1) + encode_utf8(names[k - 1]) + seq![0u8]
    }
}

/// The table of the first `k` fonts: for each the offset of its name from
/// the start of the section, and four zero bytes.
pub open spec fn offsets_upto(e: Endian, names: Seq<Seq<char>>, k: int) -> Seq<u8>
    decreases k,
{
    if k <= 0 {
        Seq::empty()
    } else {
        offsets_upto(e, names, k - 1) + u32_bytes(
            e,
            (12 + 8 * names.len() + names_upto(names, k - 1).len()) as u32,
        ) + u32_bytes(e, 0)
    }
}

/// The length of the section.
pub open spec fn font_section_len(names: Seq<Seq<char>>) -> int {
    12 + 8 * names.len() as int + names_upto(names, names.len() as int).len() as int
}

/// The bytes of the section: the signature, the length, the number of
/// fonts, the table of offsets, and the names.
pub open spec fn font_section_bytes(e: Endian, names: Seq<Seq<char>>) -> Seq<u8> {
    u32_bytes(e, FONT_MAGIC) + u32_bytes(e, font_section_len(names) as u32) + u16_bytes(
        e,
        names.len() as u16,
    ) + u16_bytes(e, 0) + offsets_upto(e, names, names.len() as int) + names_upto(
        names,
        names.len() as int,
    )
}

/// The names of the first `k` fonts of a section whose signature and length
/// end at `pos`.
pub open spec fn fonts_upto(e: Endian, b: Seq<u8>, pos: int, k: int) -> WiiResult<Seq<Seq<char>>>
    decreases k,
{
    if k <= 0 {
        Ok(Seq::empty())
    } else {
        match fonts_upto(e, b, pos, k - 1) {
            Err(x) => Err(x),
            Ok(s) => {
                let at = pos + 4 + 8 * (k - 1);
                if at + 8 > b.len() {
                    Err(WiiError::BadOffset)
                } else {
                    match string_at(b, pos - 8 + u32_of(e, b.subrange(at, at + 4))) {
                        Err(x) => Err(x),
                        Ok(name) => Ok(s.push(name)),
                    }
                }
            },
        }
    }
}

/// The names of the fonts of a section whose signature and length end at `pos`.
pub open spec fn fonts_of(e: Endian, b: Seq<u8>, pos: int) -> WiiResult<Seq<Seq<char>>> {
    if pos < 8 || pos + 4 > b.len() {
        Err(WiiError::BadOffset)
    } else {
        fonts_upto(e, b, pos, u16_of(e, b.subrange(pos, pos + 2)))
    }
}

proof fn lemma_names_grow(names: Seq<Seq<char>>, a: int, b: int)
    requires
        0 <= a <= b,
    ensures
        names_upto(names, a).len() <= names_upto(names, b).len(),
    decreases b,
{
    if a < b {
        lemma_names_grow(names, a, b - 1);
    }
}

proof fn lemma_offsets_len(e: Endian, names: Seq<Seq<char>>, k: int)
    requires
        0 <= k,
    ensures
        offsets_upto(e, names, k).len() == 8 * k,
    decreases k,
{
    if k > 0 {
        lemma_offsets_len(e, names, k - 1);
    }
}

proof fn lemma_fonts_fail(e: Endian, b: Seq<u8>, pos: int, k: int, n: int, x: WiiError)
    requires
        0 < k <= n,
        fonts_upto(e, b, pos, k) == Err::<Seq<Seq<char>>, WiiError>(x),
    ensures
        fonts_upto(e, b, pos, n) == Err::<Seq<Seq<char>>, WiiError>(x),
    decreases n - k,
{
    if k < n {
        lemma_fonts_fail(e, b, pos, k + 1, n, x);
    }
}

impl FontSection {
    /// Reads the section whose signature and length end at `pos`.
    pub fn read(endian: Endian, buffer: &[u8], pos: usize) -> (r: WiiResult<FontSection>)
        ensures
            match r {
                Ok(s) => fonts_of(endian, buffer@, pos as int) == Ok::<Seq<Seq<char>>, WiiError>(
                    names_view(s.0@),
                ),
                Err(x) => fonts_of(endian, buffer@, pos as int) == Err::<Seq<Seq<char>>, WiiError>(x),
            },
    {
        let len: usize = buffer.len();
        if pos < 8 || pos > len || len - pos < 4 {
            return Err(WiiError::BadOffset);
        }
        let count: u16 = get_u16(endian, buffer, pos);
        let mut result: Vec<String> = Vec::new();
        let mut k: u16 = 0;
        assert(names_view(result@) =~= Seq::<Seq<char>>::empty());
        while k < count
            invariant
                k <= count,
                len == buffer@.len(),
                8 <= pos,
                pos + 4 <= len,
                count == u16_of(endian, buffer@.subrange(pos as int, pos + 2)),
                fonts_upto(endian, buffer@, pos as int, k as int) == Ok::<Seq<Seq<char>>, WiiError>(
                    names_view(result@),
                ),
            decreases count - k,
        {
            if 8 * (k as usize) + 8 > len - pos - 4 {
                proof {
                    lemma_fonts_fail(endian, buffer@, pos as int, k + 1, count as int, WiiError::BadOffset);
                }
                return Err(WiiError::BadOffset);
            }
            let at: usize = pos + 4 + 8 * (k as usize);
            let offset: u32 = get_u32(endian, buffer, at);
            if offset as u64 > (len - (pos - 8)) as u64 {
                proof {
                    lemma_fonts_fail(endian, buffer@, pos as int, k + 1, count as int, WiiError::BadOffset);
                }
                return Err(WiiError::BadOffset);
            }
            let target: usize = (pos - 8) + offset as usize;
            match read_string(buffer, target) {
                Ok(name) => {
                    let ghost before = names_view(result@);
                    result.push(name);
                    assert(names_view(result@) =~= before.push(name@));
                },
                Err(x) => {
                    proof {
                        lemma_fonts_fail(endian, buffer@, pos as int, k + 1, count as int, x);
                    }
                    return Err(x);
                },
            }
            k += 1;
        }
        Ok(FontSection(result))
    }

    /// Appends the section's bytes. A section of more than 65535 fonts, or
    /// longer than 32 bits can say, is not written.
    pub fn write(&self, endian: Endian, out: &mut Vec<u8>) -> (r: WiiResult<()>)
        ensures
            r.is_ok() == (self.0@.len() <= 0xFFFF && font_section_len(names_view(self.0@))
                <= 0xFFFF_FFFF),
            r.is_ok() ==> final(out)@ == old(out)@ + font_section_bytes(endian, names_view(self.0@)),
            r.is_err() ==> final(out)@ == old(out)@,
            self.0@.len() > 0xFFFF ==> r == Err::<(), WiiError>(WiiError::TooManyEntries),
            self.0@.len() <= 0xFFFF && r.is_err() ==> r == Err::<(), WiiError>(WiiError::BadOffset),
    {
        let n: usize = self.0.len();
        let ghost names = names_view(self.0@);
        if n > 0xFFFF {
            return Err(WiiError::TooManyEntries);
        }
        let start: u32 = 12 + 8 * (n as u32);
        let mut table: Vec<u8> = Vec::new();
        let mut data = DataBufferWriter::new();
        let mut k: usize = 0;
        while k < n
            invariant
                k <= n,
                n == self.0@.len(),
                n <= 0xFFFF,
                start == 12 + 8 * n,
                names == names_view(self.0@),
                data@ == names_upto(names, k as int),
                start + data@.len() <= 0xFFFF_FFFF,
                table@ == offsets_upto(endian, names, k as int),
            decreases n - k,
        {
            let name: &str = self.0[k].as_str();
            assert(names[k as int] == name@);
            let offset: u32 = data.write_str_null(name);
            put_u32(endian, &mut table, start + offset);
            put_u32(endian, &mut table, 0);
            proof {
                lemma_names_grow(names, k + 1, n as int);
                assert(data@ =~= names_upto(names, k + 1));
                assert(table@ =~= offsets_upto(endian, names, k + 1));
            }
            if data.len() > (0xFFFF_FFFF - start) as usize {
                return Err(WiiError::BadOffset);
            }
            k += 1;
        }
        put_u32(endian, out, FONT_MAGIC);
        put_u32(endian, out, start + data.len() as u32);
        put_u16(endian, out, n as u16);
        put_u16(endian, out, 0);
        put_slice(out, table.as_slice());
        let bytes: Vec<u8> = data.finish();
        put_slice(out, bytes.as_slice());
        assert(out@ =~= old(out)@ + font_section_bytes(endian, names));
        Ok(())
    }
}

} // verus!
