//! The compressor that an archive passes through when it is saved.

use crate::endian::Endian;
use crate::jsystem::rarc::encode::rarc_encoded;
use crate::jsystem::rarc::error::{RarcError, RarcResult};
use crate::layout::Listing;
use vstd::prelude::*;

verus! {

/// The bytes that `yaz0` writes for `data` at a quality of 1 to 10 with its
/// lookahead search: its 16-byte header and the compressed stream.
pub uninterp spec fn yaz0_compressed(data: Seq<u8>, quality: usize) -> Seq<u8>;

/// A quality that the compressor knows: 1, the fastest, to 10, the smallest.
pub open spec fn quality_ok(quality: usize) -> bool {
    1 <= quality <= 10
}

/// What a listing is saved as: a quality that is none of 1 to 10 is
/// refused before anything else; a listing without an image is refused for
/// the reason that its image gives; every other listing is saved as what
/// the compressor makes of its image.
pub open spec fn rarc_saved(order: Endian, es: Listing, quality: usize) -> RarcResult<Seq<u8>> {
    if !quality_ok(quality) {
        Err(RarcError::UnsupportedCompression)
    } else {
        match rarc_encoded(order, es) {
            Err(e) => Err(e),
            Ok(image) => Ok(yaz0_compressed(image, quality)),
        }
    }
}

/// Trusted: `yaz0::Yaz0Writer::compress_and_write` with
/// `CompressionLevel::Lookahead` fails only where a write to its writer
/// fails, and the writer here is a `Vec<u8>`, which takes every byte. The
/// bytes that it writes depend on the data and the quality alone.
#[verifier::external_body]
pub(crate) fn yaz0_compress(data: &[u8], quality: usize) -> (r: Result<Vec<u8>, yaz0::Error>)
    requires
        quality_ok(quality),
    ensures
        r.is_ok(),
        r.is_ok() ==> r.unwrap()@ == yaz0_compressed(data@, quality),
{
    let mut out: Vec<u8> = Vec::new();
    let level = yaz0::CompressionLevel::Lookahead { quality };
    match yaz0::Yaz0Writer::new(&mut out).compress_and_write(data, level) {
        Ok(()) => Ok(out),
        Err(e) => Err(e),
    }
}

/// What saving returns for what the compressor returned: the compressed
/// bytes, or the compressor's error as an error of the archive.
pub fn finish_save(compressed: Result<Vec<u8>, yaz0::Error>) -> (r: RarcResult<Vec<u8>>)
    ensures
        match compressed {
            Ok(bytes) => r == Ok::<Vec<u8>, RarcError>(bytes),
            Err(e) => r == Err::<Vec<u8>, RarcError>(RarcError::Yaz0Error(e)),
        },
{
    match compressed {
        Ok(bytes) => Ok(bytes),
        Err(e) => Err(RarcError::Yaz0Error(e)),
    }
}

} // verus!
