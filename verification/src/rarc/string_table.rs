//! The string table of an archive.

use crate::endian::copy_range;
use crate::rarc::error::{RarcError, RarcResult};
use crate::rarc::header::RarcHeader;
use crate::wii::utils::{find_nul, nul_from, utf8_text};
use vstd::prelude::*;
use vstd::utf8::{decode_utf8, is_ascii_chars};

verus! {

/// The names of an archive, each ended by a zero byte.
pub struct StringTable {
    pub buffer: Vec<u8>,
}

impl View for StringTable {
    type V = Seq<u8>;

    open spec fn view(&self) -> Seq<u8> {
        self.buffer@
    }
}

/// Every byte is ASCII.
pub open spec fn is_ascii_bytes(b: Seq<u8>) -> bool {
    forall|i: int| 0 <= i < b.len() ==> #[trigger] b[i] <= 0x7f
}

/// The text that ASCII bytes stand for.
pub open spec fn ascii_text(b: Seq<u8>) -> Seq<char> {
    Seq::new(b.len(), |i: int| b[i] as char)
}

/// The bytes of the name at `start`: up to the next zero byte, or up to
/// the end of the table where there is none.
pub open spec fn name_at(table: Seq<u8>, start: int) -> Seq<u8> {
    table.subrange(start, nul_from(table, start))
}

/// The text at `start`: none where `start` lies behind the table or the
/// name there is not ASCII.
pub open spec fn text_at(table: Seq<u8>, start: int) -> Option<Seq<char>> {
    if start < 0 || start > table.len() || !is_ascii_bytes(name_at(table, start)) {
        None
    } else {
        Some(ascii_text(name_at(table, start)))
    }
}

/// Where the string table stands, and whether the buffer holds all of it.
pub open spec fn strings_in(b: Seq<u8>, h: RarcHeader) -> bool {
    h.string_offset + 0x20 + h.string_size <= b.len()
}

/// ASCII bytes are valid UTF-8, and stand for the text of their characters.
pub proof fn lemma_ascii_is_utf8(b: Seq<u8>)
    requires
        is_ascii_bytes(b),
    ensures
        vstd::utf8::valid_utf8(b),
        decode_utf8(b) == ascii_text(b),
        vstd::utf8::encode_utf8(ascii_text(b)) == b,
{
    let t = ascii_text(b);
    assert(is_ascii_chars(t)) by {
        assert forall|i: int| 0 <= i < t.len() implies '\0' <= #[trigger] t[i] <= '\u{7f}' by {
            assert(b[i] <= 0x7f);
        }
    }
    vstd::utf8::is_ascii_chars_encode_utf8(t);
    assert(vstd::utf8::encode_utf8(t) =~= b) by {
        assert forall|i: int| 0 <= i < b.len() implies vstd::utf8::encode_utf8(t)[i] == b[i] by {
            assert(t[i] as u8 == vstd::utf8::encode_utf8(t)[i]);
            assert(b[i] <= 0x7f);
        }
    }
    vstd::utf8::encode_utf8_valid_utf8(t);
    vstd::utf8::encode_utf8_decode_utf8(t);
}

impl StringTable {
    /// Copies the string table out of the buffer of an archive.
    pub fn read(buffer: &[u8], header: &RarcHeader) -> (r: RarcResult<StringTable>)
        ensures
            r.is_ok() == strings_in(buffer@, *header),
            r.is_err() ==> r == Err::<StringTable, RarcError>(RarcError::BadOffset),
            r.is_ok() ==> r.unwrap()@ == buffer@.subrange(
                header.string_offset + 0x20,
                header.string_offset + 0x20 + header.string_size,
            ),
    {
        if header.string_offset as u64 + 0x20 + header.string_size as u64 > buffer.len() as u64 {
            return Err(RarcError::BadOffset);
        }
        let start: usize = header.string_offset as usize + 0x20;
        Ok(StringTable { buffer: copy_range(buffer, start, start + header.string_size as usize) })
    }

    /// The text at `start`, if it is ASCII.
    pub fn string_at(&self, start: usize) -> (r: Option<&str>)
        ensures
            r.is_some() == text_at(self@, start as int).is_some(),
            r.is_some() ==> r.unwrap()@ == text_at(self@, start as int).unwrap(),
    {
        if start > self.buffer.len() {
            return None;
        }
        let end: usize = find_nul(self.buffer.as_slice(), start);
        let bytes: &[u8] = vstd::slice::slice_subrange(self.buffer.as_slice(), start, end);
        let n: usize = bytes.len();
        let mut i: usize = 0;
        while i < n
            invariant
                i <= n,
                n == bytes@.len(),
                start <= self@.len(),
                bytes@ == name_at(self@, start as int),
                forall|k: int| 0 <= k < i ==> #[trigger] bytes@[k] <= 0x7f,
            decreases n - i,
        {
            if bytes[i] > 0x7f {
                assert(name_at(self@, start as int)[i as int] == bytes@[i as int]);
                return None;
            }
            i += 1;
        }
        proof {
            lemma_ascii_is_utf8(bytes@);
        }
        match utf8_text(bytes) {
            Some(s) => {
                proof {
                    vstd::utf8::encode_utf8_decode_utf8(s@);
                }
                Some(s)
            },
            None => None,
        }
    }
}

} // verus!
