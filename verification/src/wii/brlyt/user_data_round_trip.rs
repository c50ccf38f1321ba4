//! What is written of a user's named values is read back.

use crate::endian::{lemma_range_of_range, lemma_u16_round_trip, lemma_u32_round_trip, u16_bytes, u32_bytes, Endian};
use crate::wii::brlyt::user_data::{bits_bytes, bits_of, bits_of_all, data_upto, entries_fit, entry_data, entry_fits, entry_record, records_upto, section_bytes, section_fits, signed_of, user_entries_of, user_entries_upto, user_entry_at, user_value_at, value_bytes, value_count, value_tag, words_at, UserValue, USER_DATA_MAGIC};
use crate::wii::error::WiiError;
use crate::wii::utils::lemma_nul_after;
use vstd::prelude::*;
use vstd::utf8::{encode_utf8, encode_utf8_decode_utf8, encode_utf8_valid_utf8};

verus! {

/// The bytes of the name hold no zero, which would end it.
pub open spec fn ends_nowhere(name: Seq<char>) -> bool {
    forall|i: int| 0 <= i < encode_utf8(name).len() ==> #[trigger] encode_utf8(name)[i] != 0
}

/// No name of the section holds a zero byte.
pub open spec fn names_end_nowhere(xs: Seq<(Seq<char>, UserValue)>) -> bool {
    forall|k: int| 0 <= k < xs.len() ==> ends_nowhere(#[trigger] xs[k].0)
}

/// Each 32-bit value takes four bytes, and stands at its place.
pub proof fn lemma_bits_window(e: Endian, ws: Seq<u32>, i: int)
    ensures
        bits_bytes(e, ws).len() == 4 * ws.len(),
        0 <= i < ws.len() ==> bits_bytes(e, ws).subrange(4 * i, 4 * i + 4) == u32_bytes(e, ws[i]),
    decreases ws.len(),
{
    if ws.len() > 0 {
        lemma_bits_window(e, ws.drop_last(), i);
        lemma_u32_round_trip(e, ws.last());
        if 0 <= i < ws.len() {
            if i < ws.len() - 1 {
                assert(bits_bytes(e, ws).subrange(4 * i, 4 * i + 4) =~= bits_bytes(e, ws.drop_last()).subrange(
                    4 * i,
                    4 * i + 4,
                ));
            } else {
                assert(bits_bytes(e, ws).subrange(4 * i, 4 * i + 4) =~= u32_bytes(e, ws.last()));
            }
        }
    }
}

/// 32-bit values are read back from their bytes.
pub proof fn lemma_words_back(e: Endian, b: Seq<u8>, pos: int, ws: Seq<u32>)
    requires
        0 <= pos,
        pos + 4 * ws.len() <= b.len(),
        b.subrange(pos, pos + 4 * ws.len()) == bits_bytes(e, ws),
    ensures
        words_at(e, b, pos, ws.len() as int) == ws,
{
    let n = ws.len() as int;
    assert forall|i: int| 0 <= i < n implies words_at(e, b, pos, n)[i] == ws[i] by {
        lemma_bits_window(e, ws, i);
        lemma_range_of_range(b, pos, 4 * n, 4 * i, 4 * i + 4);
        lemma_u32_round_trip(e, ws[i]);
    }
    assert(words_at(e, b, pos, n) =~= ws);
}

/// The values of an entry are read back from their bytes.
pub proof fn lemma_value_back(e: Endian, b: Seq<u8>, pos: int, v: UserValue)
    requires
        0 <= pos,
        pos + value_bytes(e, v).len() <= b.len(),
        b.subrange(pos, pos + value_bytes(e, v).len()) == value_bytes(e, v),
    ensures
        user_value_at(e, b, pos, value_tag(v), value_count(v) as int) == Ok::<UserValue, WiiError>(v),
{
    match v {
        UserValue::String(s) => {
            encode_utf8_valid_utf8(s);
            encode_utf8_decode_utf8(s);
        },
        UserValue::Int(xs) => {
            let ws = bits_of_all(xs);
            lemma_bits_window(e, ws, 0);
            lemma_words_back(e, b, pos, ws);
            assert(Seq::new(xs.len(), |i: int| signed_of(words_at(e, b, pos, xs.len() as int)[i])) =~= xs) by {
                assert forall|i: int| 0 <= i < xs.len() implies signed_of(ws[i]) == xs[i] by {
                    assert(ws[i] == bits_of(xs[i]));
                }
            }
        },
        UserValue::Float(ws) => {
            lemma_bits_window(e, ws, 0);
            lemma_words_back(e, b, pos, ws);
        },
    }
}

/// An entry is read back from its record and from its name and values.
pub proof fn lemma_entry_back(e: Endian, b: Seq<u8>, r: int, x: (Seq<char>, UserValue), at: int, end: int)
    requires
        0 <= r,
        0 <= at,
        12 <= end,
        entry_fits(e, x, at, end),
        ends_nowhere(x.0),
        r + at + end + entry_data(e, x).len() <= b.len(),
        b.subrange(r, r + 12) == entry_record(e, x, at, end),
        b.subrange(r + at + end, r + at + end + entry_data(e, x).len()) == entry_data(e, x),
    ensures
        user_entry_at(e, b, r) == Ok::<(Seq<char>, UserValue), WiiError>(x),
{
    reveal(user_entry_at);
    reveal(entry_record);
    reveal(entry_data);
    let name = encode_utf8(x.0);
    let values = value_bytes(e, x.1);
    let a: u32 = (at + end) as u32;
    let d: u32 = (at + name.len() + 1 + end) as u32;
    let c: u16 = value_count(x.1) as u16;
    lemma_u32_round_trip(e, a);
    lemma_u32_round_trip(e, d);
    lemma_u16_round_trip(e, c);
    let rec = entry_record(e, x, at, end);
    assert(rec.len() == 12);
    assert(rec.subrange(0, 4) =~= u32_bytes(e, a));
    assert(rec.subrange(4, 8) =~= u32_bytes(e, d));
    assert(rec.subrange(8, 10) =~= u16_bytes(e, c));
    assert(rec[10] == value_tag(x.1));
    lemma_range_of_range(b, r, 12, 0, 4);
    lemma_range_of_range(b, r, 12, 4, 8);
    lemma_range_of_range(b, r, 12, 8, 10);
    assert(b[r + 10] == b.subrange(r, r + 12)[10]);
    let start = r + at + end;
    let whole = entry_data(e, x);
    assert(whole =~= name + seq![0u8] + values);
    assert forall|k: int| start <= k < start + name.len() implies #[trigger] b[k] != 0 by {
        assert(b[k] == b.subrange(start, start + whole.len())[k - start]);
        assert(whole[k - start] == name[k - start]);
    }
    assert(b[start + name.len()] == 0) by {
        assert(b[start + name.len()] == b.subrange(start, start + whole.len())[name.len() as int]);
    }
    lemma_nul_after(b, start, name.len() as int);
    lemma_range_of_range(b, start, whole.len() as int, 0, name.len() as int);
    assert(whole.subrange(0, name.len() as int) =~= name);
    encode_utf8_valid_utf8(x.0);
    encode_utf8_decode_utf8(x.0);
    lemma_range_of_range(b, start, whole.len() as int, name.len() as int + 1, whole.len() as int);
    assert(whole.subrange(name.len() as int + 1, whole.len() as int) =~= values);
    lemma_value_back(e, b, start + name.len() + 1, x.1);
}

/// The records take twelve bytes each, and each stands at its place.
pub proof fn lemma_record_window(e: Endian, xs: Seq<(Seq<char>, UserValue)>, k: int, m: int)
    requires
        0 <= k < m <= xs.len(),
    ensures
        records_upto(e, xs, m).len() == 12 * m,
        records_upto(e, xs, m).subrange(12 * k, 12 * k + 12) == entry_record(
            e,
            xs[k],
            data_upto(e, xs, k).len() as int,
            12 * (xs.len() - k),
        ),
    decreases m,
{
    let last = entry_record(e, xs[m - 1], data_upto(e, xs, m - 1).len() as int, 12 * (xs.len() - (m - 1)));
    assert(last.len() == 12) by {
        reveal(entry_record);
        lemma_u32_round_trip(e, 0);
        lemma_u16_round_trip(e, 0);
        lemma_lengths(e);
    }
    if m - 1 > 0 {
        lemma_record_window(e, xs, 0, m - 1);
    }
    if k < m - 1 {
        lemma_record_window(e, xs, k, m - 1);
        assert(records_upto(e, xs, m).subrange(12 * k, 12 * k + 12) =~= records_upto(e, xs, m - 1).subrange(
            12 * k,
            12 * k + 12,
        ));
    } else {
        assert(records_upto(e, xs, m).subrange(12 * k, 12 * k + 12) =~= last);
    }
}

/// Every 32-bit value takes four bytes and every 16-bit value two.
pub proof fn lemma_lengths(e: Endian)
    ensures
        forall|x: u32| (#[trigger] u32_bytes(e, x)).len() == 4,
        forall|x: u16| (#[trigger] u16_bytes(e, x)).len() == 2,
{
    assert forall|x: u32| (#[trigger] u32_bytes(e, x)).len() == 4 by {
        lemma_u32_round_trip(e, x);
    }
    assert forall|x: u16| (#[trigger] u16_bytes(e, x)).len() == 2 by {
        lemma_u16_round_trip(e, x);
    }
}

/// The name and the values of each entry stand at their place.
pub proof fn lemma_data_window(e: Endian, xs: Seq<(Seq<char>, UserValue)>, k: int, m: int)
    requires
        0 <= k < m,
    ensures
        data_upto(e, xs, k).len() + entry_data(e, xs[k]).len() <= data_upto(e, xs, m).len(),
        data_upto(e, xs, m).subrange(
            data_upto(e, xs, k).len() as int,
            data_upto(e, xs, k).len() as int + entry_data(e, xs[k]).len(),
        ) == entry_data(e, xs[k]),
    decreases m,
{
    let a = data_upto(e, xs, k).len() as int;
    let d = entry_data(e, xs[k]);
    if k < m - 1 {
        lemma_data_window(e, xs, k, m - 1);
        assert(data_upto(e, xs, m).subrange(a, a + d.len()) =~= data_upto(e, xs, m - 1).subrange(a, a + d.len()));
    } else {
        assert(data_upto(e, xs, m).subrange(a, a + d.len()) =~= d);
    }
}

/// The first `k` entries of a section are read back from its bytes.
pub proof fn lemma_entries_back(e: Endian, b: Seq<u8>, pos: int, xs: Seq<(Seq<char>, UserValue)>, k: int)
    requires
        0 <= pos,
        0 <= k <= xs.len(),
        section_fits(e, xs),
        names_end_nowhere(xs),
        pos + 4 + 12 * xs.len() + data_upto(e, xs, xs.len() as int).len() <= b.len(),
        b.subrange(pos + 4, pos + 4 + 12 * xs.len()) == records_upto(e, xs, xs.len() as int),
        b.subrange(
            pos + 4 + 12 * xs.len(),
            pos + 4 + 12 * xs.len() + data_upto(e, xs, xs.len() as int).len(),
        ) == data_upto(e, xs, xs.len() as int),
    ensures
        user_entries_upto(e, b, pos, k) == Ok::<Seq<(Seq<char>, UserValue)>, WiiError>(xs.subrange(0, k)),
    decreases k,
{
    if k == 0 {
        assert(xs.subrange(0, 0) =~= Seq::<(Seq<char>, UserValue)>::empty());
    } else {
        let n = xs.len() as int;
        let i = k - 1;
        lemma_entries_back(e, b, pos, xs, i);
        let at = data_upto(e, xs, i).len() as int;
        let r = pos + 4 + 12 * i;
        let start = pos + 4 + 12 * n;
        let all = data_upto(e, xs, n).len() as int;
        lemma_record_window(e, xs, i, n);
        lemma_data_window(e, xs, i, n);
        lemma_range_of_range(b, pos + 4, 12 * n, 12 * i, 12 * i + 12);
        lemma_range_of_range(b, start, all, at, at + entry_data(e, xs[i]).len());
        assert(entry_fits(e, xs[i], at, 12 * (n - i)));
        assert(ends_nowhere(xs[i].0));
        assert(r + at + 12 * (n - i) == start + at);
        lemma_entry_back(e, b, r, xs[i], at, 12 * (n - i));
        assert(xs.subrange(0, k) =~= xs.subrange(0, i).push(xs[i]));
    }
}

/// What is written is read back: the bytes of a section that can be
/// written, and whose names hold no zero byte, are read as its entries,
/// whatever stands before and behind them.
pub proof fn user_data_round_trip(e: Endian, xs: Seq<(Seq<char>, UserValue)>, before: Seq<u8>, after: Seq<u8>)
    requires
        section_fits(e, xs),
        names_end_nowhere(xs),
    ensures
        user_entries_of(e, before + section_bytes(e, xs) + after, before.len() as int + 8) == Ok::<
            Seq<(Seq<char>, UserValue)>,
            WiiError,
        >(xs),
{
    let n = xs.len() as int;
    let recs = records_upto(e, xs, n);
    let data = data_upto(e, xs, n);
    let size: u32 = (12 + 12 * n + data.len()) as u32;
    let head = before + u32_bytes(e, USER_DATA_MAGIC) + u32_bytes(e, size);
    let b = before + section_bytes(e, xs) + after;
    let pos = before.len() as int + 8;
    lemma_lengths(e);
    if n > 0 {
        lemma_record_window(e, xs, 0, n);
    }
    lemma_u16_round_trip(e, n as u16);
    assert(head.len() == pos);
    assert(b =~= head + u16_bytes(e, n as u16) + seq![0u8, 0u8] + recs + data + after);
    assert(b.subrange(pos, pos + 2) =~= u16_bytes(e, n as u16));
    assert(b.subrange(pos + 4, pos + 4 + 12 * n) =~= recs);
    assert(b.subrange(pos + 4 + 12 * n, pos + 4 + 12 * n + data.len()) =~= data);
    lemma_entries_back(e, b, pos, xs, n);
    assert(xs.subrange(0, n) =~= xs);
}

} // verus!
