//! The section of a screen layout that holds named values of its users:
//! texts, whole numbers and floating point numbers.
//!
//! Every entry has a record of twelve bytes: where its name stands, where
//! its values stand, how many there are and of which type. Both places
//! are counted from the start of the record. The names and the values of
//! all entries follow the last record.

use crate::endian::{get_u16, get_u32, put_slice, put_u16, put_u32, put_u8, u16_bytes, u16_of, u32_bytes, u32_of, Endian};
use crate::wii::error::{WiiError, WiiResult};
use crate::wii::utils::{read_string, read_string_exact, string_at, string_exact_at};
use vstd::prelude::*;
use vstd::utf8::encode_utf8;

verus! {

/// The signature of the section.
pub const USER_DATA_MAGIC: u32 = 0x75736431;

/// A named value of a layout's user.
#[allow(inconsistent_fields)]
pub enum UserDataEntry {
    /// A text.
    String { name: String, value: String },
    /// Whole numbers.
    Int { name: String, value: Vec<i32> },
    /// Floating point numbers, each as its 32 bits.
    Float { name: String, value: Vec<u32> },
}

/// What an entry holds.
pub enum UserValue {
    String(Seq<char>),
    Int(Seq<i32>),
    Float(Seq<u32>),
}

impl View for UserDataEntry {
    type V = (Seq<char>, UserValue);

    open spec fn view(&self) -> (Seq<char>, UserValue) {
        match self {
            UserDataEntry::String { name, value } => (name@, UserValue::String(value@)),
            UserDataEntry::Int { name, value } => (name@, UserValue::Int(value@)),
            UserDataEntry::Float { name, value } => (name@, UserValue::Float(value@)),
        }
    }
}

/// The signed value with the same 32 bits.
pub open spec fn signed_of(x: u32) -> i32 {
    if x < 0x8000_0000 {
        x as i32
    } else {
        (x - 0x1_0000_0000) as i32
    }
}

/// The unsigned value with the same 32 bits.
pub open spec fn bits_of(x: i32) -> u32 {
    if x >= 0 {
        x as u32
    } else {
        (x + 0x1_0000_0000) as u32
    }
}

/// The `n` 32-bit values that stand at `pos`.
pub open spec fn words_at(e: Endian, b: Seq<u8>, pos: int, n: int) -> Seq<u32> {
    Seq::new(n as nat, |i: int| u32_of(e, b.subrange(pos + 4 * i, pos + 4 * i + 4)) as u32)
}

/// The values of an entry of type `ty` that stand at `pos`, `count` of
/// them: for a text, its bytes.
pub open spec fn user_value_at(e: Endian, b: Seq<u8>, pos: int, ty: u8, count: int) -> WiiResult<UserValue> {
    if ty == 0 {
        match string_exact_at(b, pos, count) {
            Err(x) => Err(x),
            Ok(s) => Ok(UserValue::String(s)),
        }
    } else if ty == 1 || ty == 2 {
        if pos + 4 * count > b.len() {
            Err(WiiError::BadOffset)
        } else if ty == 1 {
            Ok(UserValue::Int(Seq::new(count as nat, |i: int| signed_of(words_at(e, b, pos, count)[i]))))
        } else {
            Ok(UserValue::Float(words_at(e, b, pos, count)))
        }
    } else {
        Err(WiiError::InvalidType)
    }
}

/// The entry whose record stands at `pos`.
#[verifier::opaque]
pub open spec fn user_entry_at(e: Endian, b: Seq<u8>, pos: int) -> WiiResult<(Seq<char>, UserValue)> {
    if pos + 12 > b.len() {
        Err(WiiError::BadOffset)
    } else {
        let name_offset = u32_of(e, b.subrange(pos, pos + 4));
        let data_offset = u32_of(e, b.subrange(pos + 4, pos + 8));
        let count = u16_of(e, b.subrange(pos + 8, pos + 10));
        match string_at(b, pos + name_offset) {
            Err(x) => Err(x),
            Ok(name) => match user_value_at(e, b, pos + data_offset, b[pos + 10], count) {
                Err(x) => Err(x),
                Ok(v) => Ok((name, v)),
            },
        }
    }
}

/// The first `k` entries of a section whose signature and length end at `pos`.
pub open spec fn user_entries_upto(e: Endian, b: Seq<u8>, pos: int, k: int) -> WiiResult<
    Seq<(Seq<char>, UserValue)>,
>
    decreases k,
{
    if k <= 0 {
        Ok(Seq::empty())
    } else {
        match user_entries_upto(e, b, pos, k - 1) {
            Err(x) => Err(x),
            Ok(s) => match user_entry_at(e, b, pos + 4 + 12 * (k - 1)) {
                Err(x) => Err(x),
                Ok(entry) => Ok(s.push(entry)),
            },
        }
    }
}

/// The entries of a section whose signature and length end at `pos`.
pub open spec fn user_entries_of(e: Endian, b: Seq<u8>, pos: int) -> WiiResult<Seq<(Seq<char>, UserValue)>> {
    if pos + 4 > b.len() {
        Err(WiiError::BadOffset)
    } else {
        user_entries_upto(e, b, pos, u16_of(e, b.subrange(pos, pos + 2)))
    }
}

/// The bytes of 32-bit values, one after another.
pub open spec fn bits_bytes(e: Endian, xs: Seq<u32>) -> Seq<u8>
    decreases xs.len(),
{
    if xs.len() == 0 {
        Seq::empty()
    } else {
        bits_bytes(e, xs.drop_last()) + u32_bytes(e, xs.last())
    }
}

/// The bits of whole numbers.
pub open spec fn bits_of_all(xs: Seq<i32>) -> Seq<u32> {
    Seq::new(xs.len(), |i: int| bits_of(xs[i]))
}

/// The bytes of the values of an entry.
pub open spec fn value_bytes(e: Endian, v: UserValue) -> Seq<u8> {
    match v {
        UserValue::String(s) => encode_utf8(s),
        UserValue::Int(xs) => bits_bytes(e, bits_of_all(xs)),
        UserValue::Float(xs) => bits_bytes(e, xs),
    }
}

/// The number of values that an entry's record counts: for a text, its bytes.
pub open spec fn value_count(v: UserValue) -> nat {
    match v {
        UserValue::String(s) => encode_utf8(s).len(),
        UserValue::Int(xs) => xs.len(),
        UserValue::Float(xs) => xs.len(),
    }
}

/// The number of bytes that an entry takes in a section: twelve for its
/// record, then its name, a zero byte, and its values with four bytes for
/// each number.
pub open spec fn entry_size(x: (Seq<char>, UserValue)) -> nat {
    12 + encode_utf8(x.0).len() + 1 + match x.1 {
        UserValue::String(s) => encode_utf8(s).len(),
        UserValue::Int(xs) => 4 * xs.len(),
        UserValue::Float(xs) => 4 * xs.len(),
    }
}

/// The type of an entry as its record names it.
pub open spec fn value_tag(v: UserValue) -> u8 {
    match v {
        UserValue::String(_) => 0,
        UserValue::Int(_) => 1,
        UserValue::Float(_) => 2,
    }
}

/// What an entry adds to the names and values behind the records: its
/// name, a zero byte, and its values.
#[verifier::opaque]
pub open spec fn entry_data(e: Endian, x: (Seq<char>, UserValue)) -> Seq<u8> {
    encode_utf8(x.0) + seq![0u8] + value_bytes(e, x.1)
}

/// The record of an entry whose name goes to `at` behind the records,
/// which end `end` bytes behind the start of this one.
#[verifier::opaque]
pub open spec fn entry_record(e: Endian, x: (Seq<char>, UserValue), at: int, end: int) -> Seq<u8> {
    u32_bytes(e, (at + end) as u32) + u32_bytes(e, (at + encode_utf8(x.0).len() + 1 + end) as u32) + u16_bytes(
        e,
        value_count(x.1) as u16,
    ) + seq![value_tag(x.1), 0u8]
}

/// The entry can be written: its values can be counted in 16 bits and
/// the places of its name and of its values in 32.
pub open spec fn entry_fits(e: Endian, x: (Seq<char>, UserValue), at: int, end: int) -> bool {
    value_count(x.1) <= 0xFFFF && at + end + entry_data(e, x).len() <= 0xFFFF_FFFF
}

/// The records of the first `k` entries of a section of `n`.
pub open spec fn records_upto(e: Endian, xs: Seq<(Seq<char>, UserValue)>, k: int) -> Seq<u8>
    decreases k,
{
    if k <= 0 {
        Seq::empty()
    } else {
        records_upto(e, xs, k - 1) + entry_record(
            e,
            xs[k - 1],
            data_upto(e, xs, k - 1).len() as int,
            12 * (xs.len() - (k - 1)),
        )
    }
}

/// The names and values of the first `k` entries.
pub open spec fn data_upto(e: Endian, xs: Seq<(Seq<char>, UserValue)>, k: int) -> Seq<u8>
    decreases k,
{
    if k <= 0 {
        Seq::empty()
    } else {
        data_upto(e, xs, k - 1) + entry_data(e, xs[k - 1])
    }
}

/// Every one of the first `k` entries can be written.
pub open spec fn entries_fit(e: Endian, xs: Seq<(Seq<char>, UserValue)>, k: int) -> bool {
    forall|i: int|
        0 <= i < k ==> #[trigger] entry_fits(e, xs[i], data_upto(e, xs, i).len() as int, 12 * (xs.len() - i))
}

/// The section can be written: it has at most 65535 entries, each of
/// them can be written, and 32 bits can hold the length of the whole.
pub open spec fn section_fits(e: Endian, xs: Seq<(Seq<char>, UserValue)>) -> bool {
    &&& xs.len() <= 0xFFFF
    &&& entries_fit(e, xs, xs.len() as int)
    &&& 12 + 12 * xs.len() + data_upto(e, xs, xs.len() as int).len() <= 0xFFFF_FFFF
}

/// The bytes of a section: the signature, the length of the whole, the
/// number of entries, two zero bytes, the records, the names and values.
pub open spec fn section_bytes(e: Endian, xs: Seq<(Seq<char>, UserValue)>) -> Seq<u8> {
    u32_bytes(e, USER_DATA_MAGIC) + u32_bytes(
        e,
        (12 + 12 * xs.len() + data_upto(e, xs, xs.len() as int).len()) as u32,
    ) + u16_bytes(e, xs.len() as u16) + seq![0u8, 0u8] + records_upto(e, xs, xs.len() as int) + data_upto(
        e,
        xs,
        xs.len() as int,
    )
}

/// The entries as the contracts see them.
pub open spec fn entries_view(v: Seq<UserDataEntry>) -> Seq<(Seq<char>, UserValue)> {
    Seq::new(v.len(), |i: int| v[i]@)
}

/// Once an entry cannot be read, the section cannot be read.
proof fn lemma_entries_fail(e: Endian, b: Seq<u8>, pos: int, k: int, n: int, x: WiiError)
    requires
        0 < k <= n,
        user_entries_upto(e, b, pos, k) == Err::<Seq<(Seq<char>, UserValue)>, WiiError>(x),
    ensures
        user_entries_upto(e, b, pos, n) == Err::<Seq<(Seq<char>, UserValue)>, WiiError>(x),
    decreases n - k,
{
    if k < n {
        lemma_entries_fail(e, b, pos, k + 1, n, x);
    }
}

/// Reads `count` 32-bit values at `pos`.
pub fn read_words(endian: Endian, buffer: &[u8], pos: usize, count: usize) -> (r: WiiResult<Vec<u32>>)
    requires
        count <= 0xFFFF,
    ensures
        match r {
            Ok(v) => pos + 4 * count <= buffer@.len() && v@ == words_at(endian, buffer@, pos as int, count as int),
            Err(x) => x == WiiError::BadOffset && pos + 4 * count > buffer@.len(),
        },
{
    let len: usize = buffer.len();
    if pos > len || 4 * count > len - pos {
        return Err(WiiError::BadOffset);
    }
    let mut values: Vec<u32> = Vec::new();
    let mut i: usize = 0;
    while i < count
        invariant
            i <= count,
            count <= 0xFFFF,
            len == buffer@.len(),
            pos + 4 * count <= len,
            values@.len() == i,
            forall|k: int|
                0 <= k < i ==> #[trigger] values@[k] == u32_of(
                    endian,
                    buffer@.subrange(pos + 4 * k, pos + 4 * k + 4),
                ),
        decreases count - i,
    {
        values.push(get_u32(endian, buffer, pos + 4 * i));
        i += 1;
    }
    assert(values@ =~= words_at(endian, buffer@, pos as int, count as int));
    Ok(values)
}

/// The whole numbers with the bits of `words`.
pub fn signed_words(words: &Vec<u32>) -> (r: Vec<i32>)
    ensures
        r@ == Seq::new(words@.len(), |i: int| signed_of(words@[i])),
{
    let n: usize = words.len();
    let mut values: Vec<i32> = Vec::new();
    let mut i: usize = 0;
    while i < n
        invariant
            i <= n,
            n == words@.len(),
            values@.len() == i,
            forall|k: int| 0 <= k < i ==> #[trigger] values@[k] == signed_of(words@[k]),
        decreases n - i,
    {
        let x: u32 = words[i];
        let v: i32 = if x < 0x8000_0000 {
            x as i32
        } else {
            ((x as i64) - 0x1_0000_0000i64) as i32
        };
        values.push(v);
        i += 1;
    }
    assert(values@ =~= Seq::new(words@.len(), |i: int| signed_of(words@[i])));
    values
}

/// Appends 32-bit values in the given byte order.
pub fn put_bits(endian: Endian, out: &mut Vec<u8>, values: &Vec<u32>)
    ensures
        final(out)@ == old(out)@ + bits_bytes(endian, values@),
{
    let n: usize = values.len();
    let mut i: usize = 0;
    assert(values@.subrange(0, 0) =~= Seq::<u32>::empty());
    assert(out@ =~= old(out)@ + bits_bytes(endian, values@.subrange(0, 0)));
    while i < n
        invariant
            i <= n,
            n == values@.len(),
            out@ == old(out)@ + bits_bytes(endian, values@.subrange(0, i as int)),
        decreases n - i,
    {
        proof {
            let s = values@.subrange(0, i + 1);
            assert(s.drop_last() =~= values@.subrange(0, i as int));
            assert(s.last() == values@[i as int]);
        }
        put_u32(endian, out, values[i]);
        i += 1;
        assert(out@ =~= old(out)@ + bits_bytes(endian, values@.subrange(0, i as int)));
    }
    assert(values@.subrange(0, n as int) =~= values@);
}

/// The bits of whole numbers.
pub fn unsigned_words(values: &Vec<i32>) -> (r: Vec<u32>)
    ensures
        r@ == bits_of_all(values@),
{
    let n: usize = values.len();
    let mut words: Vec<u32> = Vec::new();
    let mut i: usize = 0;
    while i < n
        invariant
            i <= n,
            n == values@.len(),
            words@.len() == i,
            forall|k: int| 0 <= k < i ==> #[trigger] words@[k] == bits_of(values@[k]),
        decreases n - i,
    {
        let x: i32 = values[i];
        let u: u32 = if x >= 0 {
            x as u32
        } else {
            ((x as i64) + 0x1_0000_0000i64) as u32
        };
        words.push(u);
        i += 1;
    }
    assert(words@ =~= bits_of_all(values@));
    words
}

impl UserDataEntry {
    /// The name of the entry.
    pub fn name(&self) -> (r: &str)
        ensures
            r@ == self@.0,
    {
        match self {
            UserDataEntry::String { name, .. } => name.as_str(),
            UserDataEntry::Int { name, .. } => name.as_str(),
            UserDataEntry::Float { name, .. } => name.as_str(),
        }
    }

    /// The name of the entry, to be changed.
    pub fn name_mut(&mut self) -> (r: &mut String)
        ensures
            (*r)@ == old(self)@.0,
            final(self)@ == ((*final(r))@, old(self)@.1),
    {
        match self {
            UserDataEntry::String { name, .. } => name,
            UserDataEntry::Int { name, .. } => name,
            UserDataEntry::Float { name, .. } => name,
        }
    }

    /// The number of bytes that the entry takes in a section.
    pub fn size(&self) -> (r: usize)
        requires
            entry_size(self@) <= usize::MAX,
        ensures
            r == entry_size(self@),
    {
        match self {
            UserDataEntry::String { name, value } => 12 + name.as_str().as_bytes().len() + 1
                + value.as_str().as_bytes().len(),
            UserDataEntry::Int { name, value } => 12 + name.as_str().as_bytes().len() + 1 + value.len() * 4,
            UserDataEntry::Float { name, value } => 12 + name.as_str().as_bytes().len() + 1 + value.len() * 4,
        }
    }

    /// The bytes of the values of the entry.
    pub fn value_bytes(&self, endian: Endian) -> (r: Vec<u8>)
        ensures
            r@ == value_bytes(endian, self@.1),
    {
        let mut out: Vec<u8> = Vec::new();
        match self {
            UserDataEntry::String { value, .. } => {
                put_slice(&mut out, value.as_str().as_bytes());
            },
            UserDataEntry::Int { value, .. } => {
                let words: Vec<u32> = unsigned_words(value);
                put_bits(endian, &mut out, &words);
            },
            UserDataEntry::Float { value, .. } => {
                put_bits(endian, &mut out, value);
            },
        }
        assert(out@ =~= value_bytes(endian, self@.1));
        out
    }

    /// The number of values that the record counts: for a text, its bytes.
    pub fn count(&self) -> (r: usize)
        ensures
            r == value_count(self@.1),
    {
        match self {
            UserDataEntry::String { value, .. } => value.as_str().as_bytes().len(),
            UserDataEntry::Int { value, .. } => value.len(),
            UserDataEntry::Float { value, .. } => value.len(),
        }
    }

    /// The type of the entry as its record names it.
    pub fn tag(&self) -> (r: u8)
        ensures
            r == value_tag(self@.1),
    {
        match self {
            UserDataEntry::String { .. } => 0,
            UserDataEntry::Int { .. } => 1,
            UserDataEntry::Float { .. } => 2,
        }
    }

    /// Reads the entry whose record stands at `pos`.
    pub fn read(endian: Endian, buffer: &[u8], pos: usize) -> (r: WiiResult<UserDataEntry>)
        ensures
            match r {
                Ok(x) => user_entry_at(endian, buffer@, pos as int) == Ok::<(Seq<char>, UserValue), WiiError>(x@),
                Err(x) => user_entry_at(endian, buffer@, pos as int) == Err::<(Seq<char>, UserValue), WiiError>(x),
            },
    {
        reveal(user_entry_at);
        let len: usize = buffer.len();
        if pos > len || len - pos < 12 {
            return Err(WiiError::BadOffset);
        }
        let name_offset: u32 = get_u32(endian, buffer, pos);
        let data_offset: u32 = get_u32(endian, buffer, pos + 4);
        let count: u16 = get_u16(endian, buffer, pos + 8);
        let ty: u8 = buffer[pos + 10];
        if name_offset as u64 > (len - pos) as u64 {
            return Err(WiiError::BadOffset);
        }
        let name: String = read_string(buffer, pos + name_offset as usize)?;
        if ty > 2 {
            return Err(WiiError::InvalidType);
        }
        if data_offset as u64 > (len - pos) as u64 {
            return Err(WiiError::BadOffset);
        }
        let at: usize = pos + data_offset as usize;
        if ty == 0 {
            let value: String = read_string_exact(buffer, at, count as usize)?;
            Ok(UserDataEntry::String { name, value })
        } else {
            let words: Vec<u32> = read_words(endian, buffer, at, count as usize)?;
            if ty == 1 {
                Ok(UserDataEntry::Int { name, value: signed_words(&words) })
            } else {
                Ok(UserDataEntry::Float { name, value: words })
            }
        }
    }

    /// Appends the entry's record to `out` and its name and values to
    /// `data`. `end` is how far behind the start of the record the names
    /// and values begin. An entry that cannot be written leaves both as
    /// they were.
    pub fn write(&self, endian: Endian, out: &mut Vec<u8>, data: &mut Vec<u8>, end: u32) -> (r: WiiResult<()>)
        ensures
            r.is_ok() == entry_fits(endian, self@, old(data)@.len() as int, end as int),
            r.is_err() ==> r == Err::<(), WiiError>(WiiError::BadOffset) && final(out)@ == old(out)@,
            r.is_err() ==> final(data)@ == old(data)@,
            r.is_ok() ==> final(out)@ == old(out)@ + entry_record(
                endian,
                self@,
                old(data)@.len() as int,
                end as int,
            ) && final(data)@ == old(data)@ + entry_data(endian, self@),
    {
        reveal(entry_data);
        reveal(entry_record);
        let count: usize = self.count();
        let name: &[u8] = self.name().as_bytes();
        let values: Vec<u8> = self.value_bytes(endian);
        let at: usize = data.len();
        if count > 0xFFFF {
            return Err(WiiError::BadOffset);
        }
        let limit: u64 = 0xFFFF_FFFF;
        if at as u64 > limit || name.len() as u64 > limit || values.len() as u64 > limit {
            return Err(WiiError::BadOffset);
        }
        let total: u64 = at as u64 + end as u64 + name.len() as u64 + 1 + values.len() as u64;
        if total > limit {
            return Err(WiiError::BadOffset);
        }
        put_u32(endian, out, (at as u64 + end as u64) as u32);
        put_u32(endian, out, (at as u64 + name.len() as u64 + 1 + end as u64) as u32);
        put_u16(endian, out, count as u16);
        put_u8(out, self.tag());
        put_u8(out, 0);
        put_slice(data, name);
        put_u8(data, 0);
        put_slice(data, values.as_slice());
        proof {
            assert(out@ =~= old(out)@ + entry_record(endian, self@, old(data)@.len() as int, end as int));
            assert(data@ =~= old(data)@ + entry_data(endian, self@));
        }
        Ok(())
    }
}

/// The named values of a layout's user.
pub struct UserDataSection(pub Vec<UserDataEntry>);

impl View for UserDataSection {
    type V = Seq<(Seq<char>, UserValue)>;

    open spec fn view(&self) -> Seq<(Seq<char>, UserValue)> {
        entries_view(self.0@)
    }
}

impl UserDataSection {
    /// Reads the section whose signature and length end at `pos`.
    pub fn read(endian: Endian, buffer: &[u8], pos: usize) -> (r: WiiResult<UserDataSection>)
        ensures
            match r {
                Ok(x) => user_entries_of(endian, buffer@, pos as int) == Ok::<
                    Seq<(Seq<char>, UserValue)>,
                    WiiError,
                >(x@),
                Err(x) => user_entries_of(endian, buffer@, pos as int) == Err::<
                    Seq<(Seq<char>, UserValue)>,
                    WiiError,
                >(x),
            },
    {
        let len: usize = buffer.len();
        if pos > len || len - pos < 4 {
            return Err(WiiError::BadOffset);
        }
        let count: usize = get_u16(endian, buffer, pos) as usize;
        let mut entries: Vec<UserDataEntry> = Vec::new();
        let mut k: usize = 0;
        assert(entries_view(entries@) =~= Seq::<(Seq<char>, UserValue)>::empty());
        while k < count
            invariant
                k <= count,
                count <= 0xFFFF,
                count == u16_of(endian, buffer@.subrange(pos as int, pos + 2)),
                len == buffer@.len(),
                pos + 4 <= len,
                entries@.len() == k,
                user_entries_upto(endian, buffer@, pos as int, k as int) == Ok::<
                    Seq<(Seq<char>, UserValue)>,
                    WiiError,
                >(entries_view(entries@)),
            decreases count - k,
        {
            if 12 * k > len - pos - 4 {
                proof {
                    reveal(user_entry_at);
                    assert(user_entry_at(endian, buffer@, pos + 4 + 12 * k) == Err::<
                        (Seq<char>, UserValue),
                        WiiError,
                    >(WiiError::BadOffset));
                    lemma_entries_fail(endian, buffer@, pos as int, k + 1, count as int, WiiError::BadOffset);
                }
                return Err(WiiError::BadOffset);
            }
            match UserDataEntry::read(endian, buffer, pos + 4 + 12 * k) {
                Err(x) => {
                    proof {
                        assert(user_entries_upto(endian, buffer@, pos as int, k + 1) == Err::<
                            Seq<(Seq<char>, UserValue)>,
                            WiiError,
                        >(x));
                        lemma_entries_fail(endian, buffer@, pos as int, k + 1, count as int, x);
                    }
                    return Err(x);
                },
                Ok(entry) => {
                    let ghost before = entries_view(entries@);
                    entries.push(entry);
                    assert(entries_view(entries@) =~= before.push(entry@));
                },
            }
            k += 1;
        }
        Ok(UserDataSection(entries))
    }

    /// Appends the section. A section that cannot be written leaves `out`
    /// as it was.
    pub fn write(&self, endian: Endian, out: &mut Vec<u8>) -> (r: WiiResult<()>)
        ensures
            r.is_ok() == section_fits(endian, self@),
            r.is_err() ==> r == Err::<(), WiiError>(WiiError::BadOffset) && final(out)@ == old(out)@,
            r.is_ok() ==> final(out)@ == old(out)@ + section_bytes(endian, self@),
    {
        let n: usize = self.0.len();
        if n > 0xFFFF {
            return Err(WiiError::BadOffset);
        }
        let ghost xs = self@;
        let mut records: Vec<u8> = Vec::new();
        let mut data: Vec<u8> = Vec::new();
        let mut k: usize = 0;
        while k < n
            invariant
                k <= n,
                n <= 0xFFFF,
                n == self.0@.len(),
                xs == self@,
                xs.len() == n,
                records@ == records_upto(endian, xs, k as int),
                data@ == data_upto(endian, xs, k as int),
                entries_fit(endian, xs, k as int),
                out@ == old(out)@,
            decreases n - k,
        {
            let end: u32 = (12 * (n - k)) as u32;
            assert(xs[k as int] == self.0@[k as int]@);
            match self.0[k].write(endian, &mut records, &mut data, end) {
                Err(_) => {
                    assert(!entry_fits(endian, xs[k as int], data_upto(endian, xs, k as int).len() as int, 12 * (n - k)));
                    return Err(WiiError::BadOffset);
                },
                Ok(()) => {},
            }
            k += 1;
        }
        if data.len() > 0xFFFF_FFFF - 12 - 12 * n {
            return Err(WiiError::BadOffset);
        }
        put_u32(endian, out, USER_DATA_MAGIC);
        put_u32(endian, out, (12 + 12 * n + data.len()) as u32);
        put_u16(endian, out, n as u16);
        put_u8(out, 0);
        put_u8(out, 0);
        put_slice(out, records.as_slice());
        put_slice(out, data.as_slice());
        assert(out@ =~= old(out)@ + section_bytes(endian, xs));
        Ok(())
    }
}

} // verus!
