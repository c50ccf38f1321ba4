//! The lines that the list command prints.

use crate::path::push_char;
use humansize::file_size_opts::{FileSizeOpts, CONVENTIONAL};
use humansize::FileSize;
use vstd::prelude::*;
use vstd::string::*;

verus! {

/// The text that `humansize` gives for a size with its conventional
/// options and no space before the unit.
pub uninterp spec fn human_size_text(len: usize) -> Seq<char>;

/// Whether a character is numeric, as `char::is_numeric` tells.
pub uninterp spec fn is_numeric_char(c: char) -> bool;

/// Trusted: `FileSize::file_size` on a `usize` gives a text that depends on
/// the size and the options alone.
#[verifier::external_body]
pub(crate) fn human_size(len: usize) -> (r: String)
    ensures
        r@ == human_size_text(len),
{
    let opts = FileSizeOpts { space: false, ..CONVENTIONAL };
    match len.file_size(opts) {
        Ok(x) => x,
        Err(x) => x,
    }
}

/// Trusted: `char::is_numeric` is a function of the character alone.
#[verifier::external_body]
pub(crate) fn char_is_numeric(c: char) -> (r: bool)
    ensures
        r == is_numeric_char(c),
{
    c.is_numeric()
}

/// The character of a decimal digit.
pub open spec fn digit_char(d: int) -> char {
    ((0x30 + d) as u8) as char
}

/// A number in decimal notation.
pub open spec fn decimal_text(n: nat) -> Seq<char>
    decreases n,
{
    if n < 10 {
        seq![digit_char(n as int)]
    } else {
        decimal_text(n / 10).push(digit_char((n % 10) as int))
    }
}

/// A size in the short form: the text that `humansize` gives, with a space
/// behind it where its unit is a single letter, so that the numbers of
/// sizes in bytes and in larger units end in one column.
pub open spec fn short_size(len: usize) -> Seq<char> {
    let t = human_size_text(len);
    if t.len() >= 2 && is_numeric_char(t[t.len() - 2]) {
        t.push(' ')
    } else {
        t
    }
}

/// The size of an entry as the list shows it.
pub open spec fn size_text(len: usize, humansize: bool) -> Seq<char> {
    if humansize {
        short_size(len)
    } else {
        decimal_text(len as nat)
    }
}

/// The length that the list counts for an entry: that of a file's
/// contents, and 0 for a directory.
pub open spec fn listed_len(e: Option<usize>) -> usize {
    match e {
        Some(n) => n,
        None => 0,
    }
}

/// The longest of the size texts of the first `k` entries.
pub open spec fn widest(entries: Seq<(Seq<char>, Option<usize>)>, humansize: bool, k: int) -> nat
    decreases k,
{
    if k <= 0 {
        0
    } else {
        let w = widest(entries, humansize, k - 1);
        let s = size_text(listed_len(entries[k - 1].1), humansize).len();
        if s > w {
            s
        } else {
            w
        }
    }
}

/// `n` spaces.
pub open spec fn spaces(n: nat) -> Seq<char> {
    Seq::new(n, |i: int| ' ')
}

/// One line of the list: a hyphen for a file or a `d` for a directory, the
/// size, set to the right in a column of the given width, and the path.
pub open spec fn line_of(entry: (Seq<char>, Option<usize>), humansize: bool, width: nat) -> Seq<char> {
    let size = size_text(listed_len(entry.1), humansize);
    seq![
        if entry.1.is_some() {
            '-'
        } else {
            'd'
        },
        ' ',
    ] + spaces((width - size.len()) as nat) + size + seq![' '] + entry.0
}

/// The entries as the contracts see them.
pub open spec fn listed_view(v: Seq<(&str, Option<usize>)>) -> Seq<(Seq<char>, Option<usize>)> {
    Seq::new(v.len(), |i: int| (v[i].0@, v[i].1))
}

/// A number in decimal notation.
pub fn decimal(n: usize) -> (r: String)
    ensures
        r@ == decimal_text(n as nat),
    decreases n,
{
    let d: u8 = 0x30 + (n % 10) as u8;
    if n < 10 {
        let mut s: String = String::new();
        push_char(&mut s, d as char);
        assert(s@ =~= decimal_text(n as nat));
        s
    } else {
        let mut s: String = decimal(n / 10);
        push_char(&mut s, d as char);
        s
    }
}

/// The size of an entry as the list shows it.
pub fn size_string(len: usize, humansize: bool) -> (r: String)
    ensures
        r@ == size_text(len, humansize),
{
    if humansize {
        let mut size: String = human_size(len);
        let n: usize = size.as_str().unicode_len();
        if n >= 2 && char_is_numeric(size.as_str().get_char(n - 2)) {
            push_char(&mut size, ' ');
        }
        size
    } else {
        decimal(len)
    }
}

/// The lines of the detailed list, one for every entry.
pub fn verbose_lines(entries: &Vec<(&str, Option<usize>)>, humansize: bool) -> (r: Vec<String>)
    ensures
        r@.len() == entries@.len(),
        forall|i: int|
            0 <= i < entries@.len() ==> (#[trigger] r@[i])@ == line_of(
                listed_view(entries@)[i],
                humansize,
                widest(listed_view(entries@), humansize, entries@.len() as int),
            ),
{
    let n: usize = entries.len();
    let ghost view = listed_view(entries@);
    let mut sizes: Vec<String> = Vec::new();
    let mut width: usize = 0;
    let mut i: usize = 0;
    while i < n
        invariant
            i <= n,
            n == entries@.len(),
            view == listed_view(entries@),
            sizes@.len() == i,
            forall|k: int|
                0 <= k < i ==> (#[trigger] sizes@[k])@ == size_text(listed_len(view[k].1), humansize),
            width == widest(view, humansize, i as int),
            forall|k: int| 0 <= k < i ==> (#[trigger] sizes@[k])@.len() <= width,
        decreases n - i,
    {
        let len: usize = match entries[i].1 {
            Some(x) => x,
            None => 0,
        };
        assert(view[i as int].1 == entries@[i as int].1);
        let size: String = size_string(len, humansize);
        let w: usize = size.as_str().unicode_len();
        if w > width {
            width = w;
        }
        sizes.push(size);
        i += 1;
    }
    let mut lines: Vec<String> = Vec::new();
    let mut k: usize = 0;
    while k < n
        invariant
            k <= n,
            n == entries@.len(),
            n == sizes@.len(),
            view == listed_view(entries@),
            width == widest(view, humansize, n as int),
            forall|q: int|
                0 <= q < n ==> (#[trigger] sizes@[q])@ == size_text(listed_len(view[q].1), humansize),
            forall|q: int| 0 <= q < n ==> (#[trigger] sizes@[q])@.len() <= width,
            lines@.len() == k,
            forall|q: int| 0 <= q < k ==> (#[trigger] lines@[q])@ == line_of(view[q], humansize, width as nat),
        decreases n - k,
    {
        assert(view[k as int] == (entries@[k as int].0@, entries@[k as int].1));
        let mut line: String = String::new();
        push_char(&mut line, if entries[k].1.is_some() {
            '-'
        } else {
            'd'
        });
        push_char(&mut line, ' ');
        let size: &str = sizes[k].as_str();
        let pad: usize = width - size.unicode_len();
        let ghost head = line@;
        let mut p: usize = 0;
        while p < pad
            invariant
                p <= pad,
                line@ == head + spaces(p as nat),
            decreases pad - p,
        {
            push_char(&mut line, ' ');
            p += 1;
            assert(line@ =~= head + spaces(p as nat));
        }
        line.append(size);
        push_char(&mut line, ' ');
        line.append(entries[k].0);
        assert(line@ =~= line_of(view[k as int], humansize, width as nat));
        lines.push(line);
        k += 1;
    }
    lines
}

/// The lines of the plain list: the paths.
pub fn simple_lines(entries: &Vec<(&str, Option<usize>)>) -> (r: Vec<String>)
    ensures
        r@.len() == entries@.len(),
        forall|i: int| 0 <= i < entries@.len() ==> (#[trigger] r@[i])@ == entries@[i].0@,
{
    let n: usize = entries.len();
    let mut lines: Vec<String> = Vec::new();
    let mut k: usize = 0;
    while k < n
        invariant
            k <= n,
            n == entries@.len(),
            lines@.len() == k,
            forall|q: int| 0 <= q < k ==> (#[trigger] lines@[q])@ == entries@[q].0@,
        decreases n - k,
    {
        lines.push(entries[k].0.to_owned());
        k += 1;
    }
    lines
}

} // verus!
