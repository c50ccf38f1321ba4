//! The typed table as the middleware reads it: big-endian throughout.

pub mod data;
pub mod error;
pub mod field;
pub mod header;
pub mod row;
pub mod table;
pub mod value;

pub use data::DataType;
pub use error::{BcsvError, BcsvResult};
pub use table::{BcsvRow, BcsvTable};
pub use value::DataValue;

use vstd::prelude::*;
use vstd::string::*;

verus! {

/// The hash of a column's name: each character's code is added to 31 times
/// the hash so far, in 32-bit arithmetic.
pub open spec fn name_hash_of(name: Seq<char>) -> int
    decreases name.len(),
{
    if name.len() == 0 {
        0
    } else {
        (name_hash_of(name.drop_last()) * 31 + name.last() as u32) % 0x1_0000_0000
    }
}

/// The hash of a column's name.
pub fn create_name_hash(name: &str) -> (r: u32)
    ensures
        r == name_hash_of(name@),
{
    let n: usize = name.unicode_len();
    let mut h: u64 = 0;
    let mut i: usize = 0;
    assert(name@.subrange(0, 0) =~= Seq::<char>::empty());
    while i < n
        invariant
            i <= n,
            n == name@.len(),
            h < 0x1_0000_0000,
            h == name_hash_of(name@.subrange(0, i as int)),
        decreases n - i,
    {
        let c: u32 = name.get_char(i) as u32;
        proof {
            let s = name@.subrange(0, i + 1);
            assert(s.drop_last() =~= name@.subrange(0, i as int));
            assert(s.last() == name@[i as int]);
        }
        h = (h * 31 + c as u64) % 0x1_0000_0000;
        i += 1;
    }
    assert(name@.subrange(0, n as int) =~= name@);
    h as u32
}

} // verus!
