//! Fixed-width integers in big- and little-endian byte order.

use vstd::prelude::*;

verus! {

/// The order in which the bytes of a multi-byte integer are laid out.
#[derive(Clone, Copy, Debug, PartialEq, Eq, Structural)]
pub enum Endian {
    Big,
    Little,
}

/// The 16-bit value that two bytes stand for.
pub open spec fn u16_of(e: Endian, b: Seq<u8>) -> int
    recommends
        b.len() == 2,
{
    match e {
        Endian::Big => b[0] * 0x100 + b[1],
        Endian::Little => b[1] * 0x100 + b[0],
    }
}

/// The 32-bit value that four bytes stand for.
pub open spec fn u32_of(e: Endian, b: Seq<u8>) -> int
    recommends
        b.len() == 4,
{
    match e {
        Endian::Big => b[0] * 0x1000000 + b[1] * 0x10000 + b[2] * 0x100 + b[3],
        Endian::Little => b[3] * 0x1000000 + b[2] * 0x10000 + b[1] * 0x100 + b[0],
    }
}

/// The 24-bit value that three bytes stand for.
pub open spec fn u24_of(order: Endian, b: Seq<u8>) -> int
    recommends
        b.len() == 3,
{
    match order {
        Endian::Big => b[0] * 0x10000 + b[1] * 0x100 + b[2],
        Endian::Little => b[2] * 0x10000 + b[1] * 0x100 + b[0],
    }
}

/// The two bytes of a 16-bit value.
pub open spec fn u16_bytes(e: Endian, x: u16) -> Seq<u8> {
    match e {
        Endian::Big => seq![(x / 0x100) as u8, (x % 0x100) as u8],
        Endian::Little => seq![(x % 0x100) as u8, (x / 0x100) as u8],
    }
}

/// The four bytes of a 32-bit value.
pub open spec fn u32_bytes(e: Endian, x: u32) -> Seq<u8> {
    match e {
        Endian::Big => seq![
            (x / 0x1000000) as u8,
            ((x / 0x10000) % 0x100) as u8,
            ((x / 0x100) % 0x100) as u8,
            (x % 0x100) as u8,
        ],
        Endian::Little => seq![
            (x % 0x100) as u8,
            ((x / 0x100) % 0x100) as u8,
            ((x / 0x10000) % 0x100) as u8,
            (x / 0x1000000) as u8,
        ],
    }
}

/// The three bytes of a value below 2^24.
pub open spec fn u24_bytes(order: Endian, x: u32) -> Seq<u8>
    recommends
        x < 0x1000000,
{
    match order {
        Endian::Big => seq![(x / 0x10000) as u8, ((x / 0x100) % 0x100) as u8, (x % 0x100) as u8],
        Endian::Little => seq![(x % 0x100) as u8, ((x / 0x100) % 0x100) as u8, (x / 0x10000) as u8],
    }
}

/// `n` zero bytes.
pub open spec fn zeros(n: nat) -> Seq<u8> {
    Seq::new(n, |i: int| 0u8)
}

/// Reading back what was written gives the value that was written.
pub proof fn lemma_u16_round_trip(e: Endian, x: u16)
    ensures
        u16_bytes(e, x).len() == 2,
        u16_of(e, u16_bytes(e, x)) == x,
{
}

/// Reading back what was written gives the value that was written.
pub proof fn lemma_u32_round_trip(e: Endian, x: u32)
    ensures
        u32_bytes(e, x).len() == 4,
        u32_of(e, u32_bytes(e, x)) == x,
{
    let y = x / 0x100;
    let z = y / 0x100;
    let w = z / 0x100;
    assert(x == y * 0x100 + x % 0x100);
    assert(y == z * 0x100 + y % 0x100);
    assert(z == w * 0x100 + z % 0x100);
    assert(z == x / 0x10000);
    assert(w == x / 0x1000000);
    assert(w < 0x100);
    let b = u32_bytes(e, x);
    match e {
        Endian::Big => {
            assert(b[0] == w && b[1] == z % 0x100 && b[2] == y % 0x100 && b[3] == x % 0x100);
        },
        Endian::Little => {
            assert(b[3] == w && b[2] == z % 0x100 && b[1] == y % 0x100 && b[0] == x % 0x100);
        },
    }
}

/// Reading back what was written gives the value that was written.
pub proof fn lemma_u24_round_trip(order: Endian, x: u32)
    requires
        x < 0x1000000,
    ensures
        u24_bytes(order, x).len() == 3,
        u24_of(order, u24_bytes(order, x)) == x,
{
}

/// The four bytes recovered from `a * 2^24 + b * 2^16 + c * 2^8 + d`.
proof fn lemma_split_u32(a: u8, b: u8, c: u8, d: u8)
    ensures
        ({
            let x = a * 0x1000000 + b * 0x10000 + c * 0x100 + d;
            &&& 0 <= x <= u32::MAX
            &&& x / 0x1000000 == a
            &&& (x / 0x10000) % 0x100 == b
            &&& (x / 0x100) % 0x100 == c
            &&& x % 0x100 == d
        }),
{
    let x = a * 0x1000000 + b * 0x10000 + c * 0x100 + d;
    let y = a * 0x10000 + b * 0x100 + c;
    let z = a * 0x100 + b;
    assert(x == y * 0x100 + d);
    assert(x / 0x100 == y);
    assert(y == z * 0x100 + c);
    assert(y / 0x100 == z);
    assert(x / 0x10000 == z);
    assert(z / 0x100 == a);
    assert(x / 0x1000000 == a);
}

/// Writing what was read gives the bytes that were read.
pub proof fn u32_read_then_written(e: Endian, b: Seq<u8>)
    requires
        b.len() == 4,
    ensures
        0 <= u32_of(e, b) <= u32::MAX,
        u32_bytes(e, u32_of(e, b) as u32) == b,
{
    match e {
        Endian::Big => lemma_split_u32(b[0], b[1], b[2], b[3]),
        Endian::Little => lemma_split_u32(b[3], b[2], b[1], b[0]),
    }
    assert(u32_bytes(e, u32_of(e, b) as u32) =~= b);
}

/// Writing what was read gives the bytes that were read.
pub proof fn u16_read_then_written(e: Endian, b: Seq<u8>)
    requires
        b.len() == 2,
    ensures
        0 <= u16_of(e, b) <= u16::MAX,
        u16_bytes(e, u16_of(e, b) as u16) == b,
{
    assert(u16_bytes(e, u16_of(e, b) as u16) =~= b);
}

/// Reads the 16-bit value at `pos`.
pub fn get_u16(e: Endian, buf: &[u8], pos: usize) -> (r: u16)
    requires
        pos + 2 <= buf@.len(),
    ensures
        r == u16_of(e, buf@.subrange(pos as int, pos + 2)),
{
    let a: u16 = buf[pos] as u16;
    let b: u16 = buf[pos + 1] as u16;
    match e {
        Endian::Big => a * 0x100 + b,
        Endian::Little => b * 0x100 + a,
    }
}

/// Reads the 32-bit value at `pos`.
pub fn get_u32(e: Endian, buf: &[u8], pos: usize) -> (r: u32)
    requires
        pos + 4 <= buf@.len(),
    ensures
        r == u32_of(e, buf@.subrange(pos as int, pos + 4)),
{
    let a: u32 = buf[pos] as u32;
    let b: u32 = buf[pos + 1] as u32;
    let c: u32 = buf[pos + 2] as u32;
    let d: u32 = buf[pos + 3] as u32;
    match e {
        Endian::Big => a * 0x1000000 + b * 0x10000 + c * 0x100 + d,
        Endian::Little => d * 0x1000000 + c * 0x10000 + b * 0x100 + a,
    }
}

/// Reads the 24-bit value at `pos`.
pub fn get_u24(order: Endian, buf: &[u8], pos: usize) -> (r: u32)
    requires
        pos + 3 <= buf@.len(),
    ensures
        r == u24_of(order, buf@.subrange(pos as int, pos + 3)),
        r < 0x1000000,
{
    let a: u32 = buf[pos] as u32;
    let b: u32 = buf[pos + 1] as u32;
    let c: u32 = buf[pos + 2] as u32;
    match order {
        Endian::Big => a * 0x10000 + b * 0x100 + c,
        Endian::Little => c * 0x10000 + b * 0x100 + a,
    }
}

/// Appends one byte.
pub fn put_u8(out: &mut Vec<u8>, x: u8)
    ensures
        final(out)@ == old(out)@ + seq![x],
{
    out.push(x);
    assert(out@ =~= old(out)@ + seq![x]);
}

/// Appends the two bytes of `x`.
pub fn put_u16(e: Endian, out: &mut Vec<u8>, x: u16)
    ensures
        final(out)@ == old(out)@ + u16_bytes(e, x),
{
    let hi: u8 = (x / 0x100) as u8;
    let lo: u8 = (x % 0x100) as u8;
    match e {
        Endian::Big => {
            out.push(hi);
            out.push(lo);
        },
        Endian::Little => {
            out.push(lo);
            out.push(hi);
        },
    }
    assert(out@ =~= old(out)@ + u16_bytes(e, x));
}

/// Appends the four bytes of `x`.
pub fn put_u32(e: Endian, out: &mut Vec<u8>, x: u32)
    ensures
        final(out)@ == old(out)@ + u32_bytes(e, x),
{
    let b3: u8 = (x / 0x1000000) as u8;
    let b2: u8 = ((x / 0x10000) % 0x100) as u8;
    let b1: u8 = ((x / 0x100) % 0x100) as u8;
    let b0: u8 = (x % 0x100) as u8;
    match e {
        Endian::Big => {
            out.push(b3);
            out.push(b2);
            out.push(b1);
            out.push(b0);
        },
        Endian::Little => {
            out.push(b0);
            out.push(b1);
            out.push(b2);
            out.push(b3);
        },
    }
    assert(out@ =~= old(out)@ + u32_bytes(e, x));
}

/// Appends the three bytes of `x`.
pub fn put_u24(order: Endian, out: &mut Vec<u8>, x: u32)
    requires
        x < 0x1000000,
    ensures
        final(out)@ == old(out)@ + u24_bytes(order, x),
{
    let hi: u8 = (x / 0x10000) as u8;
    let mid: u8 = ((x / 0x100) % 0x100) as u8;
    let lo: u8 = (x % 0x100) as u8;
    match order {
        Endian::Big => {
            out.push(hi);
            out.push(mid);
            out.push(lo);
        },
        Endian::Little => {
            out.push(lo);
            out.push(mid);
            out.push(hi);
        },
    }
    assert(out@ =~= old(out)@ + u24_bytes(order, x));
}

/// Appends a copy of `data`.
pub fn put_slice(out: &mut Vec<u8>, data: &[u8])
    ensures
        final(out)@ == old(out)@ + data@,
{
    let n: usize = data.len();
    let mut i: usize = 0;
    while i < n
        invariant
            i <= n,
            n == data@.len(),
            out@ == old(out)@ + data@.subrange(0, i as int),
        decreases n - i,
    {
        out.push(data[i]);
        i += 1;
        assert(out@ =~= old(out)@ + data@.subrange(0, i as int));
    }
    assert(data@.subrange(0, n as int) =~= data@);
}

/// Appends `n` zero bytes.
pub fn put_zeros(out: &mut Vec<u8>, n: usize)
    ensures
        final(out)@ == old(out)@ + zeros(n as nat),
{
    let mut i: usize = 0;
    while i < n
        invariant
            i <= n,
            out@ == old(out)@ + zeros(i as nat),
        decreases n - i,
    {
        out.push(0u8);
        i += 1;
        assert(out@ =~= old(out)@ + zeros(i as nat));
    }
}

/// Whether two byte strings are the same.
pub fn same_bytes(a: &[u8], b: &[u8]) -> (r: bool)
    ensures
        r == (a@ == b@),
{
    let n: usize = a.len();
    if n != b.len() {
        return false;
    }
    let mut i: usize = 0;
    while i < n
        invariant
            i <= n,
            n == a@.len(),
            n == b@.len(),
            forall|k: int| 0 <= k < i ==> a@[k] == b@[k],
        decreases n - i,
    {
        if a[i] != b[i] {
            return false;
        }
        i += 1;
    }
    assert(a@ =~= b@);
    true
}

/// Copies the bytes from `from` up to `to` into a vector of their own.
pub fn copy_range(buf: &[u8], from: usize, to: usize) -> (r: Vec<u8>)
    requires
        from <= to <= buf@.len(),
    ensures
        r@ == buf@.subrange(from as int, to as int),
{
    let mut r: Vec<u8> = Vec::new();
    let mut i: usize = from;
    while i < to
        invariant
            from <= i <= to,
            to <= buf@.len(),
            r@ == buf@.subrange(from as int, i as int),
        decreases to - i,
    {
        r.push(buf[i]);
        i += 1;
        assert(r@ =~= buf@.subrange(from as int, i as int));
    }
    r
}

/// The bytes of a sequence of 32-bit words.
pub open spec fn words_bytes(order: Endian, ws: Seq<u32>) -> Seq<u8>
    decreases ws.len(),
{
    if ws.len() == 0 {
        Seq::empty()
    } else {
        words_bytes(order, ws.drop_last()) + u32_bytes(order, ws.last())
    }
}

/// Word `k` of a sequence of words is read back from its place in their bytes.
pub proof fn lemma_word_at(order: Endian, ws: Seq<u32>, rest: Seq<u8>, k: int)
    requires
        0 <= k < ws.len(),
    ensures
        words_bytes(order, ws).len() == 4 * ws.len(),
        u32_of(order, (words_bytes(order, ws) + rest).subrange(4 * k, 4 * k + 4)) == ws[k],
    decreases ws.len(),
{
    let b = words_bytes(order, ws) + rest;
    lemma_words_len(order, ws.drop_last());
    if k < ws.len() - 1 {
        let tail = u32_bytes(order, ws.last()) + rest;
        lemma_word_at(order, ws.drop_last(), tail, k);
        assert(b.subrange(4 * k, 4 * k + 4) =~= (words_bytes(order, ws.drop_last()) + tail).subrange(
            4 * k,
            4 * k + 4,
        ));
    } else {
        lemma_u32_round_trip(order, ws[k]);
        assert(b.subrange(4 * k, 4 * k + 4) =~= u32_bytes(order, ws[k]));
    }
}

/// Words take four bytes each.
pub proof fn lemma_words_len(order: Endian, ws: Seq<u32>)
    ensures
        words_bytes(order, ws).len() == 4 * ws.len(),
    decreases ws.len(),
{
    if ws.len() > 0 {
        lemma_words_len(order, ws.drop_last());
    }
}

/// Appends the bytes of words.
pub fn put_words(order: Endian, out: &mut Vec<u8>, ws: &[u32])
    ensures
        final(out)@ == old(out)@ + words_bytes(order, ws@),
{
    let n: usize = ws.len();
    let mut i: usize = 0;
    assert(ws@.subrange(0, 0) =~= Seq::<u32>::empty());
    assert(out@ =~= old(out)@ + words_bytes(order, ws@.subrange(0, 0)));
    while i < n
        invariant
            i <= n,
            n == ws@.len(),
            out@ == old(out)@ + words_bytes(order, ws@.subrange(0, i as int)),
        decreases n - i,
    {
        proof {
            let s = ws@.subrange(0, i + 1);
            assert(s.drop_last() =~= ws@.subrange(0, i as int));
            assert(s.last() == ws@[i as int]);
        }
        put_u32(order, out, ws[i]);
        i += 1;
        assert(out@ =~= old(out)@ + words_bytes(order, ws@.subrange(0, i as int)));
    }
    assert(ws@.subrange(0, n as int) =~= ws@);
}

/// A range that lies within the first of two joined byte strings is a
/// range of the first.
pub proof fn lemma_range_in_first(a: Seq<u8>, b: Seq<u8>, lo: int, hi: int)
    requires
        0 <= lo <= hi <= a.len(),
    ensures
        (a + b).subrange(lo, hi) == a.subrange(lo, hi),
{
    assert((a + b).subrange(lo, hi) =~= a.subrange(lo, hi));
}

/// A range that lies behind the first of two joined byte strings is a
/// range of the second.
pub proof fn lemma_range_in_second(a: Seq<u8>, b: Seq<u8>, lo: int, hi: int)
    requires
        0 <= lo <= hi <= b.len(),
    ensures
        (a + b).subrange(a.len() + lo, a.len() + hi) == b.subrange(lo, hi),
{
    assert((a + b).subrange(a.len() + lo, a.len() + hi) =~= b.subrange(lo, hi));
}

/// A range of a range is a range.
pub proof fn lemma_range_of_range(b: Seq<u8>, pos: int, len: int, lo: int, hi: int)
    requires
        0 <= pos,
        0 <= lo <= hi <= len,
        pos + len <= b.len(),
    ensures
        b.subrange(pos, pos + len).subrange(lo, hi) == b.subrange(pos + lo, pos + hi),
{
    assert(b.subrange(pos, pos + len).subrange(lo, hi) =~= b.subrange(pos + lo, pos + hi));
}

} // verus!
