//! The banner header: sizes and the title in ten languages, in front of a
//! wrapped value.

use crate::endian::{get_u16, get_u32, put_slice, put_u16, put_words, put_zeros, u16_bytes, u16_of, u32_of, words_bytes, zeros, Endian};
use crate::wii::error::{WiiError, WiiResult};
use crate::wii::format::FileFormat;
use crate::path::push_char;
use crate::wii::imd5::{md5_digest, md5_of};
use vstd::prelude::*;
use vstd::string::*;

verus! {

/// The signature of the header.
pub const IMET_MAGIC: u32 = 0x494d4554;

/// The length of the part of the header that is hashed.
pub const IMET_LEN: usize = 0x600;

/// The number of 16-bit units that a title takes in a header that is read.
pub const TITLE_UNITS: usize = 42;

/// The UTF-16 units of a character: the character itself where it is
/// below 0x10000, else a high and a low surrogate with ten bits each of
/// what it is above 0x10000.
pub open spec fn char_units(c: char) -> Seq<u16> {
    let u = c as u32;
    if u < 0x10000 {
        seq![u as u16]
    } else {
        seq![(0xD800 + (u - 0x10000) / 0x400) as u16, (0xDC00 + (u - 0x10000) % 0x400) as u16]
    }
}

/// The UTF-16 units of a text: those of its characters, one after another.
pub open spec fn utf16_units(text: Seq<char>) -> Seq<u16>
    decreases text.len(),
{
    if text.len() == 0 {
        Seq::empty()
    } else {
        utf16_units(text.drop_last()) + char_units(text.last())
    }
}

/// The unit is the first of a pair of surrogates.
pub open spec fn is_high(u: u16) -> bool {
    0xD800 <= u <= 0xDBFF
}

/// The unit is the second of a pair of surrogates.
pub open spec fn is_low(u: u16) -> bool {
    0xDC00 <= u <= 0xDFFF
}

/// The character that a pair of surrogates stands for.
pub open spec fn pair_char(high: u16, low: u16) -> char {
    ((0x10000 + (high - 0xD800) * 0x400 + (low - 0xDC00)) as u32) as char
}

/// The text that UTF-16 units stand for: a unit that is no surrogate is a
/// character, and so is a high surrogate with the low one behind it; none
/// where a surrogate stands alone.
pub open spec fn utf16_text(units: Seq<u16>) -> Option<Seq<char>>
    decreases units.len(),
{
    if units.len() == 0 {
        Some(Seq::empty())
    } else if !is_high(units[0]) && !is_low(units[0]) {
        match utf16_text(units.drop_first()) {
            None => None,
            Some(t) => Some(seq![(units[0] as u32) as char] + t),
        }
    } else if is_high(units[0]) && units.len() >= 2 && is_low(units[1]) {
        match utf16_text(units.subrange(2, units.len() as int)) {
            None => None,
            Some(t) => Some(seq![pair_char(units[0], units[1])] + t),
        }
    } else {
        None
    }
}

/// Trusted: `char::from_u32` gives the character with the given number
/// where there is one, which is for every number up to 0x10FFFF that is
/// not one of the surrogates 0xD800 to 0xDFFF.
#[verifier::external_body]
pub(crate) fn char_from(x: u32) -> (r: Option<char>)
    ensures
        r.is_some() == (x <= 0xD7FF || 0xE000 <= x <= 0x10FFFF),
        r.is_some() ==> r.unwrap() as u32 == x,
{
    char::from_u32(x)
}

/// The UTF-16 units of a text.
pub fn encode_utf16(text: &str) -> (r: Vec<u16>)
    ensures
        r@ == utf16_units(text@),
{
    let n: usize = text.unicode_len();
    let mut units: Vec<u16> = Vec::new();
    let mut i: usize = 0;
    assert(text@.subrange(0, 0) =~= Seq::<char>::empty());
    while i < n
        invariant
            i <= n,
            n == text@.len(),
            units@ == utf16_units(text@.subrange(0, i as int)),
        decreases n - i,
    {
        let c: char = text.get_char(i);
        proof {
            let t = text@.subrange(0, i + 1);
            assert(t.drop_last() =~= text@.subrange(0, i as int));
            assert(t.last() == c);
        }
        let u: u32 = c as u32;
        if u < 0x10000 {
            units.push(u as u16);
        } else {
            units.push((0xD800 + (u - 0x10000) / 0x400) as u16);
            units.push((0xDC00 + (u - 0x10000) % 0x400) as u16);
        }
        i += 1;
        assert(units@ =~= utf16_units(text@.subrange(0, i as int)));
    }
    assert(text@.subrange(0, n as int) =~= text@);
    units
}

/// The text that UTF-16 units stand for.
pub fn decode_utf16(units: &[u16]) -> (r: Option<String>)
    ensures
        r.is_some() == utf16_text(units@).is_some(),
        r.is_some() ==> r.unwrap()@ == utf16_text(units@).unwrap(),
{
    let n: usize = units.len();
    let mut text: String = String::new();
    let mut i: usize = 0;
    proof {
        assert(units@.subrange(0, n as int) =~= units@);
        if let Some(t) = utf16_text(units@) {
            assert(Seq::<char>::empty() + t =~= t);
        }
    }
    while i < n
        invariant
            i <= n,
            n == units@.len(),
            utf16_text(units@).is_some() == utf16_text(units@.subrange(i as int, n as int)).is_some(),
            utf16_text(units@).is_some() ==> utf16_text(units@).unwrap() == text@ + utf16_text(
                units@.subrange(i as int, n as int),
            ).unwrap(),
        decreases n - i,
    {
        let ghost rest = units@.subrange(i as int, n as int);
        let ghost before = text@;
        let first: u16 = units[i];
        assert(rest[0] == first);
        if first < 0xD800 || first > 0xDFFF {
            let c: Option<char> = char_from(first as u32);
            let c: char = c.unwrap();
            proof {
                vstd::utf8::char_u32_cast(c, first as u32);
                assert(rest.drop_first() =~= units@.subrange(i + 1, n as int));
            }
            push_char(&mut text, c);
            i += 1;
            proof {
                if utf16_text(units@).is_some() {
                    let t = utf16_text(units@.subrange(i as int, n as int)).unwrap();
                    assert(before + (seq![c] + t) =~= before.push(c) + t);
                }
            }
        } else if first <= 0xDBFF && n - i >= 2 && units[i + 1] >= 0xDC00 && units[i + 1] <= 0xDFFF {
            let second: u16 = units[i + 1];
            assert(rest[1] == second);
            let x: u32 = 0x10000 + (first as u32 - 0xD800) * 0x400 + (second as u32 - 0xDC00);
            let c: Option<char> = char_from(x);
            let c: char = c.unwrap();
            proof {
                vstd::utf8::char_u32_cast(c, x);
                assert(rest.subrange(2, rest.len() as int) =~= units@.subrange(i + 2, n as int));
            }
            push_char(&mut text, c);
            i += 2;
            proof {
                if utf16_text(units@).is_some() {
                    let t = utf16_text(units@.subrange(i as int, n as int)).unwrap();
                    assert(before + (seq![c] + t) =~= before.push(c) + t);
                }
            }
        } else {
            return None;
        }
    }
    assert(units@.subrange(n as int, n as int) =~= Seq::<u16>::empty());
    assert(text@ + Seq::<char>::empty() =~= text@);
    Some(text)
}

/// The units of a text that starts with a character are the units of
/// the character and then those of the rest.
pub proof fn lemma_units_front(c: char, t: Seq<char>)
    ensures
        utf16_units(seq![c] + t) == char_units(c) + utf16_units(t),
    decreases t.len(),
{
    let s = seq![c] + t;
    if t.len() == 0 {
        assert(s.drop_last() =~= Seq::<char>::empty());
        assert(t =~= Seq::<char>::empty());
        assert(s.last() == c);
        assert(utf16_units(Seq::<char>::empty()) =~= Seq::<u16>::empty());
        assert(utf16_units(s) =~= char_units(c) + utf16_units(t));
    } else {
        lemma_units_front(c, t.drop_last());
        assert(s.drop_last() =~= seq![c] + t.drop_last());
        assert(s.last() == t.last());
        assert(utf16_units(s) =~= char_units(c) + utf16_units(t));
    }
}

/// The units of a character, before other units, are read as the
/// character, before what the other units are read as.
pub proof fn lemma_text_front(c: char, us: Seq<u16>)
    ensures
        utf16_text(char_units(c) + us) == match utf16_text(us) {
            None => None::<Seq<char>>,
            Some(t) => Some(seq![c] + t),
        },
{
    let all = char_units(c) + us;
    let u = c as u32;
    vstd::utf8::char_is_scalar(c);
    vstd::utf8::char_u32_cast(c, u);
    if u < 0x10000 {
        assert(all[0] == u as u16);
        assert(all.drop_first() =~= us);
    } else {
        let high = (0xD800 + (u - 0x10000) / 0x400) as u16;
        let low = (0xDC00 + (u - 0x10000) % 0x400) as u16;
        assert(all[0] == high);
        assert(all[1] == low);
        assert(0x10000 + (high - 0xD800) * 0x400 + (low - 0xDC00) == u);
        assert(all.subrange(2, all.len() as int) =~= us);
    }
}

/// The units of a text are read as the text.
pub proof fn utf16_round_trip(s: Seq<char>)
    ensures
        utf16_text(utf16_units(s)) == Some(s),
    decreases s.len(),
{
    if s.len() > 0 {
        let t = s.drop_first();
        assert(s =~= seq![s[0]] + t);
        lemma_units_front(s[0], t);
        utf16_round_trip(t);
        lemma_text_front(s[0], utf16_units(t));
    }
}

/// The banner header around a value.
pub struct IMET<F: FileFormat> {
    pub icon_bin_size: u32,
    pub banner_bin_size: u32,
    pub sound_bin_size: u32,
    pub name_jp: String,
    pub name_en: String,
    pub name_de: String,
    pub name_fr: String,
    pub name_es: String,
    pub name_it: String,
    pub name_nl: String,
    pub name_unk1: String,
    pub name_unk2: String,
    pub name_kr: String,
    pub inner: F,
}

/// The bytes of 16-bit units, the high byte of each first.
pub open spec fn units_bytes(us: Seq<u16>) -> Seq<u8>
    decreases us.len(),
{
    if us.len() == 0 {
        Seq::empty()
    } else {
        units_bytes(us.drop_last()) + u16_bytes(Endian::Big, us.last())
    }
}

/// The units that the bytes from `pos` on hold, `n` of them.
pub open spec fn units_at(b: Seq<u8>, pos: int, n: int) -> Seq<u16> {
    Seq::new(n as nat, |i: int| u16_of(Endian::Big, b.subrange(pos + 2 * i, pos + 2 * i + 2)) as u16)
}

/// The bytes of a title as it is written: its UTF-16 units.
pub open spec fn title_bytes(name: Seq<char>) -> Seq<u8> {
    units_bytes(utf16_units(name))
}

/// The titles of the first `k` of the languages, as they are written, one
/// after another.
pub open spec fn titles_upto(names: Seq<Seq<char>>, k: int) -> Seq<u8>
    decreases k,
{
    if k <= 0 {
        Seq::empty()
    } else {
        titles_upto(names, k - 1) + title_bytes(names[k - 1])
    }
}

/// The seven words that the hashed part starts with.
pub open spec fn imet_words(icon: u32, banner: u32, sound: u32) -> Seq<u32> {
    seq![IMET_MAGIC, 0x600u32, 3u32, icon, banner, sound, 0u32]
}

/// What the hashed part holds before it is filled up with zero bytes.
pub open spec fn imet_front(icon: u32, banner: u32, sound: u32, names: Seq<Seq<char>>) -> Seq<u8> {
    words_bytes(Endian::Big, imet_words(icon, banner, sound)) + titles_upto(names, names.len() as int)
}

/// The text without the zero characters at its end.
pub open spec fn trimmed(s: Seq<char>) -> Seq<char>
    decreases s.len(),
{
    if s.len() == 0 || s.last() != '\0' {
        s
    } else {
        trimmed(s.drop_last())
    }
}

/// The title that the 84 bytes at `pos` hold.
pub open spec fn title_at(b: Seq<u8>, pos: int) -> WiiResult<Seq<char>> {
    match utf16_text(units_at(b, pos, 42)) {
        None => Err(WiiError::Utf16Error),
        Some(t) => Ok(trimmed(t)),
    }
}

/// The titles of the first `k` languages of a header that is read.
pub open spec fn titles_read(b: Seq<u8>, k: int) -> WiiResult<Seq<Seq<char>>>
    decreases k,
{
    if k <= 0 {
        Ok(Seq::empty())
    } else {
        match titles_read(b, k - 1) {
            Err(e) => Err(e),
            Ok(s) => match title_at(b, 92 + 84 * (k - 1)) {
                Err(e) => Err(e),
                Ok(t) => Ok(s.push(t)),
            },
        }
    }
}

/// What is checked and read before the wrapped value: the three sizes and
/// the ten titles, or the error.
pub open spec fn imet_head(b: Seq<u8>) -> WiiResult<(u32, u32, u32, Seq<Seq<char>>)> {
    if b.len() < 68 {
        Err(WiiError::BadOffset)
    } else if u32_of(Endian::Big, b.subrange(64, 68)) != IMET_MAGIC {
        Err(WiiError::InvalidMagic)
    } else if b.len() < 64 + 0x600 {
        Err(WiiError::BadOffset)
    } else {
        match titles_read(b, 10) {
            Err(e) => Err(e),
            Ok(names) => Ok(
                (
                    u32_of(Endian::Big, b.subrange(76, 80)) as u32,
                    u32_of(Endian::Big, b.subrange(80, 84)) as u32,
                    u32_of(Endian::Big, b.subrange(84, 88)) as u32,
                    names,
                ),
            ),
        }
    }
}

/// The text without the zero characters at its end.
pub fn trim_zeros(s: &str) -> (r: &str)
    ensures
        r@ == trimmed(s@),
{
    let n: usize = s.unicode_len();
    let mut i: usize = n;
    assert(s@.subrange(0, n as int) =~= s@);
    while i > 0 && s.get_char(i - 1) == '\0'
        invariant
            i <= n,
            n == s@.len(),
            trimmed(s@) == trimmed(s@.subrange(0, i as int)),
        decreases i,
    {
        proof {
            let t = s@.subrange(0, i as int);
            assert(t.last() == s@[i - 1]);
            assert(t.drop_last() =~= s@.subrange(0, i - 1));
        }
        i -= 1;
    }
    proof {
        let t = s@.subrange(0, i as int);
        if i > 0 {
            assert(t.last() == s@[i - 1]);
        }
    }
    s.substring_char(0, i)
}

/// Reads the title in the 84 bytes at `pos`.
pub fn read_string(buffer: &[u8], pos: usize) -> (r: WiiResult<String>)
    requires
        pos + 84 <= buffer@.len(),
    ensures
        match r {
            Ok(s) => title_at(buffer@, pos as int) == Ok::<Seq<char>, WiiError>(s@),
            Err(e) => title_at(buffer@, pos as int) == Err::<Seq<char>, WiiError>(e),
        },
{
    let len: usize = buffer.len();
    let mut units: Vec<u16> = Vec::new();
    let mut i: usize = 0;
    while i < 42
        invariant
            i <= 42,
            len == buffer@.len(),
            pos + 84 <= len,
            units@.len() == i,
            forall|k: int|
                0 <= k < i ==> #[trigger] units@[k] == u16_of(
                    Endian::Big,
                    buffer@.subrange(pos + 2 * k, pos + 2 * k + 2),
                ),
        decreases 42 - i,
    {
        units.push(get_u16(Endian::Big, buffer, pos + 2 * i));
        i += 1;
    }
    assert(units@ =~= units_at(buffer@, pos as int, 42));
    match decode_utf16(units.as_slice()) {
        Some(s) => Ok(trim_zeros(s.as_str()).to_owned()),
        None => Err(WiiError::Utf16Error),
    }
}

/// Appends the UTF-16 units of a title, the high byte of each first.
pub fn write_string(out: &mut Vec<u8>, value: &str)
    ensures
        final(out)@ == old(out)@ + title_bytes(value@),
{
    let units: Vec<u16> = encode_utf16(value);
    let n: usize = units.len();
    let mut i: usize = 0;
    assert(units@.subrange(0, 0) =~= Seq::<u16>::empty());
    assert(out@ =~= old(out)@ + units_bytes(units@.subrange(0, 0)));
    while i < n
        invariant
            i <= n,
            n == units@.len(),
            out@ == old(out)@ + units_bytes(units@.subrange(0, i as int)),
        decreases n - i,
    {
        proof {
            let s = units@.subrange(0, i + 1);
            assert(s.drop_last() =~= units@.subrange(0, i as int));
            assert(s.last() == units@[i as int]);
        }
        put_u16(Endian::Big, out, units[i]);
        i += 1;
        assert(out@ =~= old(out)@ + units_bytes(units@.subrange(0, i as int)));
    }
    assert(units@.subrange(0, n as int) =~= units@);
}

impl<F: FileFormat> IMET<F> {
    /// The titles in the order in which the header holds them.
    pub open spec fn names(&self) -> Seq<Seq<char>> {
        seq![
            self.name_jp@,
            self.name_en@,
            self.name_de@,
            self.name_fr@,
            self.name_es@,
            self.name_it@,
            self.name_nl@,
            self.name_unk1@,
            self.name_unk2@,
            self.name_kr@,
        ]
    }

    /// What the hashed part holds before it is filled up with zero bytes.
    pub open spec fn front(&self) -> Seq<u8> {
        imet_front(self.icon_bin_size, self.banner_bin_size, self.sound_bin_size, self.names())
    }

    /// The part of the header that is hashed, with zero bytes where the
    /// hash will stand: the signature, the sizes and the titles, filled up
    /// with zero bytes to 1536 bytes. Titles that leave no room are refused.
    pub fn write_hashable_data(&self) -> (r: WiiResult<Vec<u8>>)
        ensures
            r.is_ok() == (self.front().len() <= 0x600),
            r.is_err() ==> r == Err::<Vec<u8>, WiiError>(WiiError::BadOffset),
            r.is_ok() ==> r.unwrap()@ == self.front() + zeros((0x600 - self.front().len()) as nat),
    {
        let mut result: Vec<u8> = Vec::new();
        let words: [u32; 7] = [
            IMET_MAGIC,
            0x600,
            3,
            self.icon_bin_size,
            self.banner_bin_size,
            self.sound_bin_size,
            0,
        ];
        assert(words@ =~= imet_words(self.icon_bin_size, self.banner_bin_size, self.sound_bin_size));
        put_words(Endian::Big, &mut result, words.as_slice());
        let ghost names = self.names();
        let ghost head = result@;
        assert(result@ =~= head + titles_upto(names, 0));
        write_string(&mut result, self.name_jp.as_str());
        assert(result@ =~= head + titles_upto(names, 1));
        write_string(&mut result, self.name_en.as_str());
        assert(result@ =~= head + titles_upto(names, 2));
        write_string(&mut result, self.name_de.as_str());
        assert(result@ =~= head + titles_upto(names, 3));
        write_string(&mut result, self.name_fr.as_str());
        assert(result@ =~= head + titles_upto(names, 4));
        write_string(&mut result, self.name_es.as_str());
        assert(result@ =~= head + titles_upto(names, 5));
        write_string(&mut result, self.name_it.as_str());
        assert(result@ =~= head + titles_upto(names, 6));
        write_string(&mut result, self.name_nl.as_str());
        assert(result@ =~= head + titles_upto(names, 7));
        write_string(&mut result, self.name_unk1.as_str());
        assert(result@ =~= head + titles_upto(names, 8));
        write_string(&mut result, self.name_unk2.as_str());
        assert(result@ =~= head + titles_upto(names, 9));
        write_string(&mut result, self.name_kr.as_str());
        assert(result@ =~= head + titles_upto(names, 10));
        assert(result@ == self.front());
        if result.len() > 0x600 {
            return Err(WiiError::BadOffset);
        }
        let fill: usize = 0x600 - result.len();
        put_zeros(&mut result, fill);
        Ok(result)
    }
}

impl<F: FileFormat> FileFormat for IMET<F> {
    /// Where the header is refused, reading gives that error; else what
    /// reading the bytes behind the header gives, with the sizes and the
    /// titles of the header.
    open spec fn reads_as(buffer: Seq<u8>, r: WiiResult<Self>) -> bool {
        match imet_head(buffer) {
            Err(e) => r matches Err(x) && x == e,
            Ok(head) => match r {
                Ok(x) => F::reads_as(buffer.subrange(1600, buffer.len() as int), Ok::<F, WiiError>(x.inner)) && (
                    x.icon_bin_size,
                    x.banner_bin_size,
                    x.sound_bin_size,
                    x.names(),
                ) == head,
                Err(e) => F::reads_as(buffer.subrange(1600, buffer.len() as int), Err::<F, WiiError>(e)),
            },
        }
    }

    /// 64 zero bytes, the header with its hash in its last 16 bytes, and
    /// the bytes of the wrapped value. Titles that leave no room in the
    /// header are refused, and so is a value that cannot be written.
    open spec fn image(&self) -> WiiResult<Seq<u8>> {
        if self.front().len() > 0x600 {
            Err(WiiError::BadOffset)
        } else {
            match self.inner.image() {
                Err(e) => Err(e),
                Ok(payload) => Ok(
                    imet_bytes(self.front() + zeros((0x600 - self.front().len()) as nat), payload),
                ),
            }
        }
    }

    /// Reads the header and, from what follows it, the wrapped value.
    fn read(buffer: &[u8]) -> (r: WiiResult<Self>) {
        let len: usize = buffer.len();
        if len < 68 {
            return Err(WiiError::BadOffset);
        }
        if get_u32(Endian::Big, buffer, 64) != IMET_MAGIC {
            return Err(WiiError::InvalidMagic);
        }
        if len < 64 + 0x600 {
            return Err(WiiError::BadOffset);
        }
        let icon_bin_size: u32 = get_u32(Endian::Big, buffer, 76);
        let banner_bin_size: u32 = get_u32(Endian::Big, buffer, 80);
        let sound_bin_size: u32 = get_u32(Endian::Big, buffer, 84);
        let mut titles: Vec<String> = read_titles(buffer)?;
        let ghost all = crate::wii::brlyt::font::names_view(titles@);
        let name_kr: String = titles.pop().unwrap();
        let name_unk2: String = titles.pop().unwrap();
        let name_unk1: String = titles.pop().unwrap();
        let name_nl: String = titles.pop().unwrap();
        let name_it: String = titles.pop().unwrap();
        let name_es: String = titles.pop().unwrap();
        let name_fr: String = titles.pop().unwrap();
        let name_de: String = titles.pop().unwrap();
        let name_en: String = titles.pop().unwrap();
        let name_jp: String = titles.pop().unwrap();
        let payload: &[u8] = vstd::slice::slice_subrange(buffer, 64 + 0x600, len);
        match F::read(payload) {
            Ok(inner) => {
                let r = IMET {
                    icon_bin_size,
                    banner_bin_size,
                    sound_bin_size,
                    name_jp,
                    name_en,
                    name_de,
                    name_fr,
                    name_es,
                    name_it,
                    name_nl,
                    name_unk1,
                    name_unk2,
                    name_kr,
                    inner,
                };
                assert(r.names() =~= all);
                Ok(r)
            },
            Err(e) => Err(e),
        }
    }

    /// Appends 64 zero bytes, the header with its hash in its last 16
    /// bytes, and the bytes of the wrapped value.
    fn write(&self, out: &mut Vec<u8>) -> (r: WiiResult<()>) {
        let data: Vec<u8> = self.write_hashable_data()?;
        let hash: [u8; 16] = md5_digest(data.as_slice());
        let mut inner: Vec<u8> = Vec::new();
        self.inner.write(&mut inner)?;
        put_zeros(out, 64);
        put_slice(out, vstd::slice::slice_subrange(data.as_slice(), 0, 0x5F0));
        put_slice(out, hash.as_slice());
        put_slice(out, inner.as_slice());
        assert(out@ =~= old(out)@ + imet_bytes(data@, inner@));
        assert(inner@.subrange(0, inner@.len() as int) =~= inner@);
        assert(out@.subrange(old(out)@.len() as int, out@.len() as int) =~= imet_bytes(data@, inner@));
        Ok(())
    }
}

/// The bytes of a header around the bytes of the wrapped value: 64 zero
/// bytes, the hashed part with its hash, and the wrapped value.
pub open spec fn imet_bytes(data: Seq<u8>, payload: Seq<u8>) -> Seq<u8> {
    zeros(64) + imet_signed(data) + payload
}

/// The hashed part with its hash in its last 16 bytes.
pub open spec fn imet_signed(data: Seq<u8>) -> Seq<u8> {
    data.subrange(0, 0x5F0) + md5_of(data)
}

/// Reads the ten titles.
fn read_titles(buffer: &[u8]) -> (r: WiiResult<Vec<String>>)
    requires
        64 + 0x600 <= buffer@.len(),
    ensures
        match r {
            Ok(v) => v@.len() == 10 && titles_read(buffer@, 10) == Ok::<Seq<Seq<char>>, WiiError>(
                crate::wii::brlyt::font::names_view(v@),
            ),
            Err(e) => titles_read(buffer@, 10) == Err::<Seq<Seq<char>>, WiiError>(e),
        },
{
    let mut titles: Vec<String> = Vec::new();
    let mut k: usize = 0;
    assert(crate::wii::brlyt::font::names_view(titles@) =~= Seq::<Seq<char>>::empty());
    while k < 10
        invariant
            k <= 10,
            64 + 0x600 <= buffer@.len(),
            titles@.len() == k,
            titles_read(buffer@, k as int) == Ok::<Seq<Seq<char>>, WiiError>(
                crate::wii::brlyt::font::names_view(titles@),
            ),
        decreases 10 - k,
    {
        match read_string(buffer, 92 + 84 * k) {
            Ok(s) => {
                let ghost before = crate::wii::brlyt::font::names_view(titles@);
                titles.push(s);
                assert(crate::wii::brlyt::font::names_view(titles@) =~= before.push(s@));
            },
            Err(e) => {
                proof {
                    lemma_titles_fail(buffer@, k + 1, e);
                }
                return Err(e);
            },
        }
        k += 1;
    }
    Ok(titles)
}

/// Where one title cannot be read, the titles cannot be read.
proof fn lemma_titles_fail(b: Seq<u8>, k: int, e: WiiError)
    requires
        0 < k <= 10,
        titles_read(b, k) == Err::<Seq<Seq<char>>, WiiError>(e),
    ensures
        titles_read(b, 10) == Err::<Seq<Seq<char>>, WiiError>(e),
    decreases 10 - k,
{
    if k < 10 {
        lemma_titles_fail(b, k + 1, e);
    }
}

} // verus!
