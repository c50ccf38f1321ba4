//! The section of a screen layout that gives the size of the screen.

use crate::endian::{get_u32, lemma_u32_round_trip, put_u32, put_u8, u32_bytes, u32_of, Endian};
use crate::wii::error::{WiiError, WiiResult};
use vstd::prelude::*;

verus! {

/// The signature of the section.
pub const LAYOUT_MAGIC: u32 = 0x6C797431;

/// The length of the section, its signature and its length counted.
pub const LAYOUT_LEN: u32 = 0x14;

/// The size of the screen, and whether what is drawn is centered on it.
/// The width and the height are floating point numbers, each held as its
/// 32 bits.
#[derive(Debug, Clone, Copy, PartialEq, Eq, Structural)]
pub struct LayoutSection {
    pub centered: bool,
    pub width: u32,
    pub height: u32,
}

/// The section whose signature and length end at `pos`: a flag, three
/// bytes that are passed over, the width and the height.
pub open spec fn layout_at(e: Endian, b: Seq<u8>, pos: int) -> WiiResult<LayoutSection> {
    if pos < 0 || pos + 12 > b.len() {
        Err(WiiError::BadOffset)
    } else {
        Ok(
            LayoutSection {
                centered: b[pos] != 0,
                width: u32_of(e, b.subrange(pos + 4, pos + 8)) as u32,
                height: u32_of(e, b.subrange(pos + 8, pos + 12)) as u32,
            },
        )
    }
}

/// What stands behind the signature and the length of a section.
pub open spec fn layout_body(e: Endian, s: LayoutSection) -> Seq<u8> {
    seq![
        if s.centered {
            1u8
        } else {
            0u8
        },
        0u8,
        0u8,
        0u8,
    ] + u32_bytes(e, s.width) + u32_bytes(e, s.height)
}

/// The bytes of a section: the signature, the length, the flag, three
/// zero bytes, the width and the height.
pub open spec fn layout_bytes(e: Endian, s: LayoutSection) -> Seq<u8> {
    u32_bytes(e, LAYOUT_MAGIC) + u32_bytes(e, LAYOUT_LEN) + layout_body(e, s)
}

/// What is written is read back.
pub proof fn layout_round_trip(e: Endian, s: LayoutSection, before: Seq<u8>, after: Seq<u8>)
    ensures
        layout_at(e, before + layout_bytes(e, s) + after, before.len() as int + 8) == Ok::<LayoutSection, WiiError>(s),
{
    let head = before + u32_bytes(e, LAYOUT_MAGIC) + u32_bytes(e, LAYOUT_LEN);
    let body = layout_body(e, s);
    let b = before + layout_bytes(e, s) + after;
    let pos = before.len() as int + 8;
    assert(b =~= head + body + after);
    assert(b[pos] == body[0]);
    assert(b.subrange(pos + 4, pos + 8) =~= u32_bytes(e, s.width));
    assert(b.subrange(pos + 8, pos + 12) =~= u32_bytes(e, s.height));
    lemma_u32_round_trip(e, s.width);
    lemma_u32_round_trip(e, s.height);
}

impl LayoutSection {
    /// Reads the section whose signature and length end at `pos`.
    pub fn read(endian: Endian, buffer: &[u8], pos: usize) -> (r: WiiResult<LayoutSection>)
        ensures
            r == layout_at(endian, buffer@, pos as int),
    {
        let len: usize = buffer.len();
        if pos > len || len - pos < 12 {
            return Err(WiiError::BadOffset);
        }
        Ok(
            LayoutSection {
                centered: buffer[pos] != 0,
                width: get_u32(endian, buffer, pos + 4),
                height: get_u32(endian, buffer, pos + 8),
            },
        )
    }

    /// Appends the section.
    pub fn write(&self, endian: Endian, out: &mut Vec<u8>)
        ensures
            final(out)@ == old(out)@ + layout_bytes(endian, *self),
    {
        put_u32(endian, out, LAYOUT_MAGIC);
        put_u32(endian, out, LAYOUT_LEN);
        put_u8(
            out,
            if self.centered {
                1
            } else {
                0
            },
        );
        put_u8(out, 0);
        put_u8(out, 0);
        put_u8(out, 0);
        put_u32(endian, out, self.width);
        put_u32(endian, out, self.height);
        assert(out@ =~= old(out)@ + layout_bytes(endian, *self));
    }
}

} // verus!
