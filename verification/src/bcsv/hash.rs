//! The hashes that stand for the names of columns.

use vstd::prelude::*;

verus! {

/// The older hash of a name: each byte is added to 256 times the hash so
/// far, in 32-bit arithmetic, and the sum is reduced modulo 33554393.
pub open spec fn old_hash_of(name: Seq<u8>) -> int
    decreases name.len(),
{
    if name.len() == 0 {
        0
    } else {
        (((old_hash_of(name.drop_last()) * 256) % 0x1_0000_0000 + name.last()) % 0x1_0000_0000)
            % 33554393
    }
}

/// The newer hash of a name: each byte is added to 31 times the hash so
/// far, in 32-bit arithmetic.
pub open spec fn jgadget_hash_of(name: Seq<u8>) -> int
    decreases name.len(),
{
    if name.len() == 0 {
        0
    } else {
        (jgadget_hash_of(name.drop_last()) * 31 + name.last()) % 0x1_0000_0000
    }
}

/// The older hash of a name.
pub fn old_hash(name: &[u8]) -> (r: u32)
    ensures
        r == old_hash_of(name@),
{
    let n: usize = name.len();
    let mut h: u64 = 0;
    let mut i: usize = 0;
    assert(name@.subrange(0, 0) =~= Seq::<u8>::empty());
    while i < n
        invariant
            i <= n,
            n == name@.len(),
            h < 33554393,
            h == old_hash_of(name@.subrange(0, i as int)),
        decreases n - i,
    {
        proof {
            let s = name@.subrange(0, i + 1);
            assert(s.drop_last() =~= name@.subrange(0, i as int));
            assert(s.last() == name@[i as int]);
        }
        h = (((h * 256) % 0x1_0000_0000 + name[i] as u64) % 0x1_0000_0000) % 33554393;
        i += 1;
    }
    assert(name@.subrange(0, n as int) =~= name@);
    h as u32
}

/// The newer hash of a name.
pub fn jgadget_hash(name: &[u8]) -> (r: u32)
    ensures
        r == jgadget_hash_of(name@),
{
    let n: usize = name.len();
    let mut h: u64 = 0;
    let mut i: usize = 0;
    assert(name@.subrange(0, 0) =~= Seq::<u8>::empty());
    while i < n
        invariant
            i <= n,
            n == name@.len(),
            h < 0x1_0000_0000,
            h == jgadget_hash_of(name@.subrange(0, i as int)),
        decreases n - i,
    {
        proof {
            let s = name@.subrange(0, i + 1);
            assert(s.drop_last() =~= name@.subrange(0, i as int));
            assert(s.last() == name@[i as int]);
        }
        h = (h * 31 + name[i] as u64) % 0x1_0000_0000;
        i += 1;
    }
    assert(name@.subrange(0, n as int) =~= name@);
    h as u32
}

} // verus!
