//! A wrapper that guards a value with the MD5 hash of its bytes.

use crate::endian::{get_u32, put_slice, put_u32, put_zeros, same_bytes, u32_bytes, u32_of, zeros, Endian};
use crate::wii::error::{WiiError, WiiResult};
use crate::wii::format::FileFormat;
use md5::{Digest, Md5};
use vstd::prelude::*;

verus! {

/// The signature of the wrapper.
pub const IMD5_MAGIC: u32 = 0x424E5320;

/// The MD5 hash of `data`: 16 bytes.
pub uninterp spec fn md5_of(data: Seq<u8>) -> Seq<u8>;

/// Trusted: `Md5::digest` returns the MD5 hash of the data, 16 bytes that
/// depend on the data alone.
#[verifier::external_body]
pub(crate) fn md5_digest(data: &[u8]) -> (r: [u8; 16])
    ensures
        r@ == md5_of(data@),
{
    Md5::digest(data).into()
}

/// A value with the hash that guards it.
pub struct IMD5<F: FileFormat>(pub F);

/// What is checked before the wrapped value is read: `None` where nothing
/// is wrong, else the error.
pub open spec fn imd5_check(b: Seq<u8>) -> Option<WiiError> {
    if b.len() < 4 {
        Some(WiiError::BadOffset)
    } else if u32_of(Endian::Big, b.subrange(0, 4)) != IMD5_MAGIC {
        Some(WiiError::InvalidMagic)
    } else if b.len() < 32 || 32 + u32_of(Endian::Big, b.subrange(4, 8)) > b.len() {
        Some(WiiError::BadOffset)
    } else if md5_of(imd5_payload(b)) != b.subrange(16, 32) {
        Some(WiiError::HashMismatch)
    } else {
        None
    }
}

/// The bytes of the wrapped value: as many as the wrapper says, from byte
/// 32 on.
pub open spec fn imd5_payload(b: Seq<u8>) -> Seq<u8> {
    b.subrange(32, 32 + u32_of(Endian::Big, b.subrange(4, 8)))
}

/// The bytes of the wrapper around `payload`: the signature, the length of
/// the payload, eight zero bytes, the hash of the payload, the payload.
pub open spec fn imd5_bytes(payload: Seq<u8>) -> Seq<u8> {
    u32_bytes(Endian::Big, IMD5_MAGIC) + u32_bytes(Endian::Big, payload.len() as u32) + zeros(8)
        + md5_of(payload) + payload
}

impl<F: FileFormat> IMD5<F> {
    /// The wrapped value.
    pub fn inner(&self) -> (r: &F)
        ensures
            *r == self.0,
    {
        &self.0
    }

    /// The wrapped value, to be changed.
    pub fn inner_mut(&mut self) -> (r: &mut F)
        ensures
            *r == old(self).0,
            final(self).0 == *final(r),
    {
        &mut self.0
    }

    /// The wrapped value, without the wrapper.
    pub fn into_inner(self) -> (r: F)
        ensures
            r == self.0,
    {
        self.0
    }

    /// The value in a wrapper.
    pub fn from_inner(value: F) -> (r: Self)
        ensures
            r.0 == value,
    {
        IMD5(value)
    }
}

impl<F: FileFormat> FileFormat for IMD5<F> {
    /// Where the wrapper is refused, reading gives that error; else what
    /// reading the payload gives, in the wrapper.
    open spec fn reads_as(buffer: Seq<u8>, r: WiiResult<Self>) -> bool {
        match imd5_check(buffer) {
            Some(e) => r == Err::<Self, WiiError>(e),
            None => match r {
                Ok(x) => F::reads_as(imd5_payload(buffer), Ok::<F, WiiError>(x.0)),
                Err(e) => F::reads_as(imd5_payload(buffer), Err::<F, WiiError>(e)),
            },
        }
    }

    /// The wrapper around the bytes of the wrapped value. A value that
    /// cannot be written, or whose bytes are more than 32 bits can count,
    /// is refused.
    open spec fn image(&self) -> WiiResult<Seq<u8>> {
        match self.0.image() {
            Err(e) => Err(e),
            Ok(payload) => if payload.len() > 0xFFFF_FFFF {
                Err(WiiError::BadOffset)
            } else {
                Ok(imd5_bytes(payload))
            },
        }
    }

    /// Reads the wrapper and, where the hash is the hash of the payload,
    /// the wrapped value from the payload.
    fn read(buffer: &[u8]) -> (r: WiiResult<Self>) {
        let len: usize = buffer.len();
        if len < 4 {
            return Err(WiiError::BadOffset);
        }
        if get_u32(Endian::Big, buffer, 0) != IMD5_MAGIC {
            return Err(WiiError::InvalidMagic);
        }
        if len < 32 {
            return Err(WiiError::BadOffset);
        }
        let size: u32 = get_u32(Endian::Big, buffer, 4);
        if size as u64 > (len - 32) as u64 {
            return Err(WiiError::BadOffset);
        }
        let payload: &[u8] = vstd::slice::slice_subrange(buffer, 32, 32 + size as usize);
        let computed: [u8; 16] = md5_digest(payload);
        if !same_bytes(computed.as_slice(), vstd::slice::slice_subrange(buffer, 16, 32)) {
            return Err(WiiError::HashMismatch);
        }
        match F::read(payload) {
            Ok(x) => Ok(IMD5(x)),
            Err(e) => Err(e),
        }
    }

    /// Appends the wrapper around the bytes of the wrapped value.
    fn write(&self, out: &mut Vec<u8>) -> (r: WiiResult<()>) {
        let mut inner: Vec<u8> = Vec::new();
        self.0.write(&mut inner)?;
        if inner.len() > 0xFFFF_FFFF {
            return Err(WiiError::BadOffset);
        }
        let hash: [u8; 16] = md5_digest(inner.as_slice());
        put_u32(Endian::Big, out, IMD5_MAGIC);
        put_u32(Endian::Big, out, inner.len() as u32);
        put_zeros(out, 8);
        put_slice(out, hash.as_slice());
        put_slice(out, inner.as_slice());
        assert(out@ =~= old(out)@ + imd5_bytes(inner@));
        assert(inner@.subrange(0, inner@.len() as int) =~= inner@);
        assert(out@.subrange(old(out)@.len() as int, out@.len() as int) =~= imd5_bytes(inner@));
        Ok(())
    }
}

} // verus!
