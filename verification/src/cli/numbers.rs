//! Numbers as texts: how a text is read as a number, and how a number is
//! written in hexadecimal notation.

use crate::path::push_char;
use vstd::prelude::*;
use vstd::string::*;

verus! {

/// The value of a digit in the radix 10 or 16, or -1 for any other
/// character. The letters of the radix 16 count in both cases.
pub open spec fn digit_value(c: char, radix: int) -> int {
    if '0' <= c <= '9' {
        c as u32 - 0x30
    } else if radix == 16 && 'a' <= c <= 'f' {
        c as u32 - 0x61 + 10
    } else if radix == 16 && 'A' <= c <= 'F' {
        c as u32 - 0x41 + 10
    } else {
        -1
    }
}

/// The number that a run of digits stands for, the first digit counting
/// most; none where a character is no digit. An empty run stands for 0.
pub open spec fn digits_value(s: Seq<char>, radix: int) -> Option<int>
    decreases s.len(),
{
    if s.len() == 0 {
        Some(0)
    } else {
        match digits_value(s.drop_last(), radix) {
            None => None,
            Some(v) => if digit_value(s.last(), radix) < 0 {
                None
            } else {
                Some(v * radix + digit_value(s.last(), radix))
            },
        }
    }
}

/// The number that a text stands for: one digit or more, behind a `+`,
/// behind nothing or, where a sign is read, behind a `-`.
pub open spec fn number_of(s: Seq<char>, radix: int, signed: bool) -> Option<int> {
    if s.len() == 0 {
        None
    } else if s[0] == '+' || (signed && s[0] == '-') {
        if s.len() == 1 {
            None
        } else {
            match digits_value(s.subrange(1, s.len() as int), radix) {
                None => None,
                Some(v) => Some(
                    if s[0] == '-' {
                        -v
                    } else {
                        v
                    },
                ),
            }
        }
    } else {
        digits_value(s, radix)
    }
}

/// The number, where there is one and it lies between `min` and `max`.
pub open spec fn within(v: Option<int>, min: int, max: int) -> Option<int> {
    match v {
        None => None,
        Some(x) => if min <= x <= max {
            Some(x)
        } else {
            None
        },
    }
}

/// The digit that stands for a value below 16, with capital letters.
pub open spec fn hex_digit(d: int) -> char {
    if d < 10 {
        ((0x30 + d) as u8) as char
    } else {
        ((0x41 + d - 10) as u8) as char
    }
}

/// A number in hexadecimal notation with capital letters.
pub open spec fn hex_digits(n: nat) -> Seq<char>
    decreases n,
{
    if n < 16 {
        seq![hex_digit(n as int)]
    } else {
        hex_digits(n / 16).push(hex_digit((n % 16) as int))
    }
}

/// A run of digits stands for no less than any run that it starts with,
/// and for nothing where that run stands for nothing.
pub proof fn lemma_digits_grow(s: Seq<char>, radix: int, k: int)
    requires
        0 <= k <= s.len(),
        radix >= 1,
    ensures
        match digits_value(s, radix) {
            None => true,
            Some(w) => match digits_value(s.subrange(0, k), radix) {
                None => false,
                Some(v) => 0 <= v <= w,
            },
        },
    decreases s.len(),
{
    if s.len() == 0 {
        assert(s.subrange(0, k) =~= s);
    } else {
        let t = s.drop_last();
        let j = if k < s.len() {
            k
        } else {
            k - 1
        };
        lemma_digits_grow(t, radix, j);
        if let Some(w) = digits_value(s, radix) {
            let v = digits_value(t, radix).unwrap();
            let d = digit_value(s.last(), radix);
            assert(v * radix + d >= v) by (nonlinear_arith)
                requires
                    v >= 0,
                    radix >= 1,
                    d >= 0,
            ;
            if k < s.len() {
                assert(t.subrange(0, k) =~= s.subrange(0, k));
            } else {
                assert(s.subrange(0, k) =~= s);
            }
        }
    }
}

/// The value of a digit, if the character is one.
pub fn digit_of(c: char, radix: u32) -> (r: Option<u64>)
    requires
        radix == 10 || radix == 16,
    ensures
        match r {
            Some(d) => d == digit_value(c, radix as int) && d < radix,
            None => digit_value(c, radix as int) < 0,
        },
{
    if c >= '0' && c <= '9' {
        Some((c as u32 - 0x30) as u64)
    } else if radix == 16 && c >= 'a' && c <= 'f' {
        Some((c as u32 - 0x61 + 10) as u64)
    } else if radix == 16 && c >= 'A' && c <= 'F' {
        Some((c as u32 - 0x41 + 10) as u64)
    } else {
        None
    }
}

/// The number that the digits from `start` on stand for, where every
/// character is a digit and the number is at most `max`.
pub fn read_digits(text: &str, start: usize, radix: u32, max: u64) -> (r: Option<u64>)
    requires
        start <= text@.len(),
        radix == 10 || radix == 16,
        max <= 0x1_0000_0000,
    ensures
        r.is_some() == within(
            digits_value(text@.subrange(start as int, text@.len() as int), radix as int),
            0,
            max as int,
        ).is_some(),
        r.is_some() ==> r.unwrap() == digits_value(
            text@.subrange(start as int, text@.len() as int),
            radix as int,
        ).unwrap(),
{
    let n: usize = text.unicode_len();
    let ghost s = text@.subrange(start as int, n as int);
    let mut acc: u64 = 0;
    let mut i: usize = start;
    assert(s.subrange(0, 0) =~= Seq::<char>::empty());
    while i < n
        invariant
            start <= i <= n,
            n == text@.len(),
            s == text@.subrange(start as int, n as int),
            radix == 10 || radix == 16,
            max <= 0x1_0000_0000,
            acc <= max,
            digits_value(s.subrange(0, i - start), radix as int) == Some(acc as int),
        decreases n - i,
    {
        let c: char = text.get_char(i);
        proof {
            let t = s.subrange(0, i - start + 1);
            assert(t.drop_last() =~= s.subrange(0, i - start));
            assert(t.last() == c);
            lemma_digits_grow(s, radix as int, i - start + 1);
        }
        match digit_of(c, radix) {
            None => {
                return None;
            },
            Some(d) => {
                let next: u64 = acc * (radix as u64) + d;
                if next > max {
                    return None;
                }
                acc = next;
            },
        }
        i += 1;
    }
    assert(s.subrange(0, n - start) =~= s);
    Some(acc)
}

/// The number that a text stands for, where it stands for one that is at
/// least `-below` and at most `max`. A `-` before the digits is read only
/// where `signed` says so.
pub fn read_number(text: &str, radix: u32, signed: bool, max: u64, below: u64) -> (r: Option<i64>)
    requires
        radix == 10 || radix == 16,
        max <= 0x1_0000_0000,
        below <= 0x1_0000_0000,
    ensures
        r.is_some() == within(number_of(text@, radix as int, signed), -(below as int), max as int).is_some(),
        r.is_some() ==> r.unwrap() == number_of(text@, radix as int, signed).unwrap(),
{
    let n: usize = text.unicode_len();
    if n == 0 {
        return None;
    }
    let first: char = text.get_char(0);
    let minus: bool = signed && first == '-';
    if first == '+' || minus {
        if n == 1 {
            return None;
        }
        let limit: u64 = if minus {
            below
        } else {
            max
        };
        proof {
            let rest = text@.subrange(1, n as int);
            lemma_digits_grow(rest, radix as int, 0);
            assert(rest.subrange(0, 0) =~= Seq::<char>::empty());
        }
        match read_digits(text, 1, radix, limit) {
            None => None,
            Some(v) => if minus {
                Some(0 - (v as i64))
            } else {
                Some(v as i64)
            },
        }
    } else {
        proof {
            assert(text@.subrange(0, n as int) =~= text@);
            lemma_digits_grow(text@, radix as int, 0);
            assert(text@.subrange(0, 0) =~= Seq::<char>::empty());
        }
        match read_digits(text, 0, radix, max) {
            None => None,
            Some(v) => Some(v as i64),
        }
    }
}

/// Appends a number in hexadecimal notation with capital letters.
pub fn push_hex(s: &mut String, n: u32)
    ensures
        final(s)@ == old(s)@ + hex_digits(n as nat),
    decreases n,
{
    if n >= 16 {
        push_hex(s, n / 16);
    }
    let d: u8 = (n % 16) as u8;
    let c: char = if d < 10 {
        (0x30 + d) as char
    } else {
        (0x41 + d - 10) as char
    };
    push_char(s, c);
    assert(s@ =~= old(s)@ + hex_digits(n as nat));
}

} // verus!
