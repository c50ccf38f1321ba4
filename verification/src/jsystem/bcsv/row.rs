//! The pool of strings of a table.

use crate::endian::{put_slice, put_u8};
use crate::jsystem::rarc::utils::{encode_shift_jis, shift_jis_encoded};
use vstd::prelude::*;

verus! {

/// The pool of strings while it is written.
pub struct StringWriter(pub Vec<u8>);

impl View for StringWriter {
    type V = Seq<u8>;

    open spec fn view(&self) -> Seq<u8> {
        self.0@
    }
}

impl StringWriter {
    /// An empty pool.
    pub fn new() -> (r: Self)
        ensures
            r@ == Seq::<u8>::empty(),
    {
        StringWriter(Vec::new())
    }

    /// Writes the Shift JIS bytes of `value` and a zero, and returns the
    /// offset at which they start.
    pub fn write_str(&mut self, value: &str) -> (r: usize)
        ensures
            r == old(self)@.len(),
            final(self)@ == old(self)@ + shift_jis_encoded(value@).0 + seq![0u8],
    {
        let (data, _unmappable) = encode_shift_jis(value);
        let result: usize = self.0.len();
        put_slice(&mut self.0, data.as_slice());
        put_u8(&mut self.0, 0);
        result
    }

    /// The bytes of the pool.
    pub fn finish(self) -> (r: Vec<u8>)
        ensures
            r@ == self@,
    {
        self.0
    }
}

} // verus!
