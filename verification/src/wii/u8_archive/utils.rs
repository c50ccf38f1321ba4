//! The string pool of a flat archive.

use crate::endian::put_u8;
use vstd::prelude::*;
use vstd::string::*;

verus! {

/// A character that a name in the pool can hold: ASCII, and not the zero
/// that ends a name.
pub open spec fn is_plain_char(c: char) -> bool {
    '\u{1}' <= c <= '\u{7f}'
}

/// A name that the pool holds as it is: every character is plain.
pub open spec fn is_plain_name(s: Seq<char>) -> bool {
    forall|i: int| 0 <= i < s.len() ==> is_plain_char(#[trigger] s[i])
}

/// The bytes that stand for a name in the pool: its plain characters, the
/// others dropped.
pub open spec fn name_bytes(s: Seq<char>) -> Seq<u8>
    decreases s.len(),
{
    if s.len() == 0 {
        Seq::empty()
    } else if is_plain_char(s.last()) {
        name_bytes(s.drop_last()).push(s.last() as u8)
    } else {
        name_bytes(s.drop_last())
    }
}

/// What the pool gains when a name is written: nothing for the empty name,
/// else the name's bytes and a zero.
pub open spec fn name_entry(s: Seq<char>) -> Seq<u8> {
    if s.len() == 0 {
        Seq::empty()
    } else {
        name_bytes(s).push(0u8)
    }
}

/// The bytes of a name hold no zero, and are as many as the name's
/// characters where all of those are plain.
pub proof fn lemma_name_bytes(s: Seq<char>)
    ensures
        name_bytes(s).len() <= s.len(),
        forall|i: int| 0 <= i < name_bytes(s).len() ==> 0 < #[trigger] name_bytes(s)[i] <= 0x7f,
        is_plain_name(s) ==> name_bytes(s).len() == s.len() && forall|i: int|
            0 <= i < s.len() ==> #[trigger] name_bytes(s)[i] == s[i] as u8,
    decreases s.len(),
{
    if s.len() > 0 {
        lemma_name_bytes(s.drop_last());
        if is_plain_name(s) {
            assert(is_plain_name(s.drop_last())) by {
                assert forall|i: int| 0 <= i < s.drop_last().len() implies is_plain_char(
                    #[trigger] s.drop_last()[i],
                ) by {
                    assert(s.drop_last()[i] == s[i]);
                }
            }
            assert(is_plain_char(s.last()));
            assert forall|i: int| 0 <= i < s.len() implies #[trigger] name_bytes(s)[i] == s[i] as u8 by {
                if i < s.len() - 1 {
                    assert(s.drop_last()[i] == s[i]);
                }
            }
        }
    }
}

/// Whether every character of `s` is plain.
pub fn plain_name(s: &str) -> (r: bool)
    ensures
        r == is_plain_name(s@),
{
    let n: usize = s.unicode_len();
    let mut i: usize = 0;
    while i < n
        invariant
            i <= n,
            n == s@.len(),
            forall|j: int| 0 <= j < i ==> is_plain_char(#[trigger] s@[j]),
        decreases n - i,
    {
        let c: char = s.get_char(i);
        if c < '\u{1}' || c > '\u{7f}' {
            return false;
        }
        i += 1;
    }
    true
}

/// The string pool while it is written: it starts with one zero byte, the
/// empty name of the root.
pub struct StringTableWriter(pub Vec<u8>);

impl View for StringTableWriter {
    type V = Seq<u8>;

    open spec fn view(&self) -> Seq<u8> {
        self.0@
    }
}

impl StringTableWriter {
    /// A pool that holds the empty name only.
    pub fn new() -> (r: Self)
        ensures
            r@ == seq![0u8],
    {
        let mut v: Vec<u8> = Vec::new();
        v.push(0u8);
        assert(v@ =~= seq![0u8]);
        StringTableWriter(v)
    }

    /// Writes a name and returns the offset at which it starts. The empty
    /// name is not written again: it stands at offset 0. Characters that
    /// are not plain are left out.
    pub fn write_str(&mut self, value: &str) -> (r: u32)
        requires
            old(self)@.len() <= u32::MAX,
        ensures
            final(self)@ == old(self)@ + name_entry(value@),
            r == if value@.len() == 0 {
                0
            } else {
                old(self)@.len()
            },
    {
        let n: usize = value.unicode_len();
        if n == 0 {
            assert(self@ =~= old(self)@ + name_entry(value@));
            return 0;
        }
        let offset: u32 = self.0.len() as u32;
        let mut i: usize = 0;
        assert(value@.subrange(0, 0) =~= Seq::<char>::empty());
        assert(self@ =~= old(self)@ + name_bytes(value@.subrange(0, 0)));
        while i < n
            invariant
                i <= n,
                n == value@.len(),
                self@ == old(self)@ + name_bytes(value@.subrange(0, i as int)),
            decreases n - i,
        {
            let c: char = value.get_char(i);
            proof {
                let s = value@.subrange(0, i + 1);
                assert(s.drop_last() =~= value@.subrange(0, i as int));
                assert(s.last() == c);
            }
            if c >= '\u{1}' && c <= '\u{7f}' {
                put_u8(&mut self.0, c as u8);
            }
            i += 1;
            assert(self@ =~= old(self)@ + name_bytes(value@.subrange(0, i as int)));
        }
        assert(value@.subrange(0, n as int) =~= value@);
        put_u8(&mut self.0, 0u8);
        assert(self@ =~= old(self)@ + name_entry(value@));
        offset
    }

    /// The length of the pool in bytes.
    pub fn len(&self) -> (r: usize)
        ensures
            r == self@.len(),
    {
        self.0.len()
    }

    /// The bytes of the pool.
    pub fn finish(self) -> (r: Vec<u8>)
        ensures
            r@ == self@,
    {
        self.0
    }
}

} // verus!
