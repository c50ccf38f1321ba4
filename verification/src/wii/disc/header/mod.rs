//! The first 1024 bytes of a disc image.

pub mod nkit;

pub use nkit::NKitHeader;

use crate::endian::{copy_range, get_u32, put_slice, put_u32, put_u8, put_zeros, u32_bytes, u32_of, zeros, Endian};
use crate::wii::disc::title::TitleId;
use crate::wii::error::{WiiError, WiiResult};
use nkit::{nkit_bytes, nkit_fields, nkit_fields_at, nkit_magic};
use vstd::prelude::*;

verus! {

/// The signature of a disc for the later console.
pub const WII_MAGIC: u32 = 0x5D1C9EA3;

/// The signature of a disc for the earlier console.
pub const GAMECUBE_MAGIC: u32 = 0xC2339F3D;

/// Where the header of a shrunk image is looked for when a disc header is read.
pub const NKIT_READ_AT: usize = 200;

/// The length of a disc header.
pub const DISC_HEADER_LEN: usize = 1024;

/// The fields of a disc header.
pub struct WiiDiscHeader {
    pub title_id: TitleId,
    pub marker_code: [u8; 2],
    pub disc_number: u8,
    pub disc_version: u8,
    pub audio_streaming: bool,
    pub streaming_buffer_size: u8,
    pub wii_magicword: bool,
    pub gamecube_magicword: bool,
    pub game_title: Vec<u8>,
    pub hash_varification: bool,
    pub disc_encryption: bool,
    pub nkit_header: Option<NKitHeader>,
}

/// One byte for a flag: 1 where it is set.
pub open spec fn flag_byte(b: bool) -> u8 {
    if b {
        1
    } else {
        0
    }
}

/// The first 98 bytes of a disc header: its fields up to the two switches,
/// each of which is stored as 0 where it is on.
pub open spec fn disc_fields_bytes(h: WiiDiscHeader) -> Seq<u8> {
    h.title_id.0@ + h.marker_code@ + seq![
        h.disc_number,
        h.disc_version,
        flag_byte(h.audio_streaming),
        h.streaming_buffer_size,
    ] + zeros(14) + u32_bytes(
        Endian::Big,
        if h.wii_magicword {
            WII_MAGIC
        } else {
            0
        },
    ) + u32_bytes(
        Endian::Big,
        if h.gamecube_magicword {
            GAMECUBE_MAGIC
        } else {
            0
        },
    ) + h.game_title@ + seq![flag_byte(!h.hash_varification), flag_byte(!h.disc_encryption)]
}

/// The 1024 bytes of a disc header: the fields, then zero bytes, among
/// which the header of a shrunk image stands at 512 where there is one.
pub open spec fn disc_header_bytes(h: WiiDiscHeader) -> Seq<u8> {
    match h.nkit_header {
        Some(n) => disc_fields_bytes(h) + zeros(414) + nkit_bytes(n) + zeros(484),
        None => disc_fields_bytes(h) + zeros(926),
    }
}

impl WiiDiscHeader {
    /// The title of the game is 64 bytes long.
    pub open spec fn wf(&self) -> bool {
        self.game_title@.len() == 64
    }

    /// Reads the disc header at the start of `buffer`, which has to hold
    /// all of its 1024 bytes.
    pub fn read(buffer: &[u8]) -> (r: WiiResult<WiiDiscHeader>)
        ensures
            r.is_ok() == (buffer@.len() >= 1024),
            r.is_err() ==> r == Err::<WiiDiscHeader, WiiError>(WiiError::BadOffset),
            r.is_ok() ==> ({
                let h = r.unwrap();
                let b = buffer@;
                &&& h.wf()
                &&& h.title_id.0@ == b.subrange(0, 4)
                &&& h.marker_code@ == b.subrange(4, 6)
                &&& h.disc_number == b[6]
                &&& h.disc_version == b[7]
                &&& h.audio_streaming == (b[8] != 0)
                &&& h.streaming_buffer_size == b[9]
                &&& h.wii_magicword == (u32_of(Endian::Big, b.subrange(24, 28)) == WII_MAGIC)
                &&& h.gamecube_magicword == (u32_of(Endian::Big, b.subrange(28, 32))
                    == GAMECUBE_MAGIC)
                &&& h.game_title@ == b.subrange(32, 96)
                &&& h.hash_varification == (b[96] != 1)
                &&& h.disc_encryption == (b[97] != 1)
                &&& h.nkit_header.is_some() == (b.subrange(200, 204) == nkit_magic())
                &&& h.nkit_header.is_some() ==> nkit_fields(h.nkit_header.unwrap())
                    == nkit_fields_at(b, 200)
            }),
    {
        if buffer.len() < 1024 {
            return Err(WiiError::BadOffset);
        }
        let title: [u8; 4] = [buffer[0], buffer[1], buffer[2], buffer[3]];
        assert(title@ =~= buffer@.subrange(0, 4));
        let marker_code: [u8; 2] = [buffer[4], buffer[5]];
        assert(marker_code@ =~= buffer@.subrange(4, 6));
        let nkit_header: Option<NKitHeader> = match NKitHeader::read(buffer, NKIT_READ_AT) {
            Ok(n) => n,
            Err(e) => {
                return Err(e);
            },
        };
        Ok(
            WiiDiscHeader {
                title_id: TitleId(title),
                marker_code,
                disc_number: buffer[6],
                disc_version: buffer[7],
                audio_streaming: buffer[8] != 0,
                streaming_buffer_size: buffer[9],
                wii_magicword: get_u32(Endian::Big, buffer, 24) == WII_MAGIC,
                gamecube_magicword: get_u32(Endian::Big, buffer, 28) == GAMECUBE_MAGIC,
                game_title: copy_range(buffer, 32, 96),
                hash_varification: buffer[96] != 1,
                disc_encryption: buffer[97] != 1,
                nkit_header,
            },
        )
    }

    /// Appends the header's 1024 bytes.
    pub fn write(&self, out: &mut Vec<u8>)
        requires
            self.wf(),
        ensures
            final(out)@ == old(out)@ + disc_header_bytes(*self),
            disc_header_bytes(*self).len() == 1024,
    {
        put_slice(out, self.title_id.0.as_slice());
        put_slice(out, self.marker_code.as_slice());
        put_u8(out, self.disc_number);
        put_u8(out, self.disc_version);
        put_u8(out, if self.audio_streaming {
            1
        } else {
            0
        });
        put_u8(out, self.streaming_buffer_size);
        put_zeros(out, 14);
        put_u32(Endian::Big, out, if self.wii_magicword {
            WII_MAGIC
        } else {
            0
        });
        put_u32(Endian::Big, out, if self.gamecube_magicword {
            GAMECUBE_MAGIC
        } else {
            0
        });
        put_slice(out, self.game_title.as_slice());
        put_u8(out, if self.hash_varification {
            0
        } else {
            1
        });
        put_u8(out, if self.disc_encryption {
            0
        } else {
            1
        });
        assert(out@ =~= old(out)@ + disc_fields_bytes(*self));
        match &self.nkit_header {
            Some(nkit) => {
                put_zeros(out, 414);
                nkit.write(out);
                put_zeros(out, 484);
                assert(out@ =~= old(out)@ + disc_header_bytes(*self));
            },
            None => {
                put_zeros(out, 926);
                assert(out@ =~= old(out)@ + disc_header_bytes(*self));
            },
        }
    }
}

} // verus!
