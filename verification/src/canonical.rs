//! When the order of the paths is an order in which a tree can be laid out.
//!
//! A listing follows the bytes of the paths. A directory comes before what
//! lies in it, since its path is a prefix of theirs. What lies in it comes
//! in one run behind it unless another path goes on, behind the directory's
//! own, with a character that sorts before the separator: `a.b` stands
//! between `a` and `a/c`.

use crate::layout::{encodable, has_parent, is_parent_at};
use crate::order::lemma_bytes_lt_asymmetric;
use crate::path::{is_ancestor, lemma_parent_name, normalize, parent_of, sep};
use crate::tree::{created, has_descendant, is_hierarchy, valid_keys};
use crate::trie::{bytes_lt, is_listing, path_lt};
use vstd::prelude::*;
use vstd::utf8::*;

verus! {

/// `a` is the start of `b`, and `b` goes on behind it.
pub open spec fn starts<T>(a: Seq<T>, b: Seq<T>) -> bool {
    a.len() < b.len() && b.subrange(0, a.len() as int) == a
}

/// No path goes on, behind the path of a directory that holds something,
/// with a character that sorts before the separator.
pub open spec fn is_contiguous(m: Map<Seq<char>, Option<Seq<u8>>>) -> bool {
    forall|d: Seq<char>, q: Seq<char>|
        #![trigger m.contains_key(d), m.contains_key(q)]
        m.contains_key(d) && m.contains_key(q) && has_descendant(m, d) && starts(d, q) ==> q[d.len() as int]
            >= sep()
}

/// No character of the path sorts before the separator.
pub open spec fn above_separator(p: Seq<char>) -> bool {
    forall|i: int| 0 <= i < p.len() ==> #[trigger] p[i] >= sep()
}

/// The bytes of two texts, one after the other, are the bytes of the
/// joined text.
pub proof fn lemma_encode_concat(a: Seq<char>, b: Seq<char>)
    ensures
        encode_utf8(a + b) == encode_utf8(a) + encode_utf8(b),
    decreases a.len(),
{
    if a.len() == 0 {
        assert(a + b =~= b);
        assert(encode_utf8(a) + encode_utf8(b) =~= encode_utf8(b));
    } else {
        lemma_encode_concat(a.drop_first(), b);
        assert((a + b).drop_first() =~= a.drop_first() + b);
        assert(encode_utf8(a + b) =~= encode_utf8(a) + encode_utf8(b));
    }
}

/// What starts a string of bytes comes before it.
pub proof fn lemma_start_comes_first(a: Seq<u8>, b: Seq<u8>)
    requires
        starts(a, b),
    ensures
        bytes_lt(a, b),
    decreases a.len(),
{
    if a.len() > 0 {
        assert(b.subrange(0, a.len() as int)[0] == b[0]);
        assert(b.drop_first().subrange(0, a.len() - 1) =~= a.drop_first()) by {
            assert forall|i: int| 0 <= i < a.len() - 1 implies b.drop_first().subrange(0, a.len() - 1)[i]
                == a.drop_first()[i] by {
                assert(b.subrange(0, a.len() as int)[i + 1] == b[i + 1]);
            }
        }
        lemma_start_comes_first(a.drop_first(), b.drop_first());
    }
}

/// What stands between the start of a string and the string itself has
/// the same start, and goes on with a byte that is no greater.
pub proof fn lemma_between(a: Seq<u8>, q: Seq<u8>, x: Seq<u8>)
    requires
        starts(a, x),
        bytes_lt(a, q),
        bytes_lt(q, x),
    ensures
        starts(a, q),
        q[a.len() as int] <= x[a.len() as int],
    decreases a.len(),
{
    if a.len() == 0 {
        assert(q.subrange(0, 0) =~= a);
    } else {
        assert(x.subrange(0, a.len() as int)[0] == x[0]);
        let a1 = a.drop_first();
        let q1 = q.drop_first();
        let x1 = x.drop_first();
        assert(x1.subrange(0, a1.len() as int) =~= a1) by {
            assert forall|i: int| 0 <= i < a1.len() implies x1.subrange(0, a1.len() as int)[i] == a1[i] by {
                assert(x.subrange(0, a.len() as int)[i + 1] == x[i + 1]);
            }
        }
        lemma_between(a1, q1, x1);
        assert(q.subrange(0, a.len() as int) =~= a) by {
            assert forall|i: int| 0 <= i < a.len() implies q.subrange(0, a.len() as int)[i] == a[i] by {
                if i > 0 {
                    assert(q1.subrange(0, a1.len() as int)[i - 1] == q1[i - 1]);
                }
            }
        }
        assert(q1[a1.len() as int] == q[a.len() as int]);
        assert(x1[a1.len() as int] == x[a.len() as int]);
    }
}

/// A text whose bytes start the bytes of another starts that text, and
/// the bytes that follow are those of the rest of the text.
pub proof fn lemma_start_of_text(a: Seq<char>, q: Seq<char>)
    requires
        encode_utf8(a).len() <= encode_utf8(q).len(),
        encode_utf8(q).subrange(0, encode_utf8(a).len() as int) == encode_utf8(a),
    ensures
        a.len() <= q.len(),
        q.subrange(0, a.len() as int) == a,
        encode_utf8(q.subrange(a.len() as int, q.len() as int)) == encode_utf8(q).subrange(
            encode_utf8(a).len() as int,
            encode_utf8(q).len() as int,
        ),
    decreases a.len(),
{
    let ua = encode_utf8(a);
    let uq = encode_utf8(q);
    if a.len() == 0 {
        assert(q.subrange(0, 0) =~= a);
        assert(q.subrange(0, q.len() as int) =~= q);
        assert(uq.subrange(0, uq.len() as int) =~= uq);
    } else {
        encode_utf8_first_scalar(a);
        assert(ua.len() > 0);
        assert(q.len() > 0);
        encode_utf8_first_scalar(q);
        assert forall|i: int| 0 <= i < ua.len() implies ua[i] == uq[i] by {
            assert(uq.subrange(0, ua.len() as int)[i] == uq[i]);
        }
        assert(decode_first_scalar(ua) == decode_first_scalar(uq));
        char_u32_cast(a[0], a[0] as u32);
        char_u32_cast(q[0], q[0] as u32);
        assert(a[0] == q[0]);
        let w = encode_scalar(a[0] as u32).len() as int;
        let a1 = a.drop_first();
        let q1 = q.drop_first();
        assert(encode_utf8(a1) =~= ua.subrange(w, ua.len() as int));
        assert(encode_utf8(q1) =~= uq.subrange(w, uq.len() as int));
        assert(encode_utf8(q1).subrange(0, encode_utf8(a1).len() as int) =~= encode_utf8(a1));
        lemma_start_of_text(a1, q1);
        assert(q.subrange(0, a.len() as int) =~= a) by {
            assert forall|i: int| 0 <= i < a.len() implies q.subrange(0, a.len() as int)[i] == a[i] by {
                if i > 0 {
                    assert(q1.subrange(0, a1.len() as int)[i - 1] == q1[i - 1]);
                }
            }
        }
        assert(q.subrange(a.len() as int, q.len() as int) =~= q1.subrange(a1.len() as int, q1.len() as int));
        assert(uq.subrange(ua.len() as int, uq.len() as int) =~= encode_utf8(q1).subrange(
            encode_utf8(a1).len() as int,
            encode_utf8(q1).len() as int,
        ));
    }
}

/// A text's first byte, where it is below 128, is its first character.
pub proof fn lemma_first_byte(s: Seq<char>)
    requires
        s.len() > 0,
    ensures
        encode_utf8(s).len() > 0,
        encode_utf8(s)[0] < 0x80 ==> s[0] as u32 == encode_utf8(s)[0],
        s[0] as u32 <= 0x7f ==> s[0] as u32 == encode_utf8(s)[0],
{
    encode_utf8_first_scalar(s);
    let b = encode_utf8(s)[0];
    assert(b < 0x80 ==> (b & 0x7F) as u32 == b) by (bit_vector);
    let c = s[0] as u32;
    assert(c <= 0x7f ==> (c & 0x7F) as u8 == c) by (bit_vector);
}

/// The path of a directory comes before the paths of what lies in it.
pub proof fn lemma_directory_first(a: Seq<char>, p: Seq<char>)
    requires
        starts(a, p),
    ensures
        path_lt(a, p),
        starts(encode_utf8(a), encode_utf8(p)),
{
    let rest = p.subrange(a.len() as int, p.len() as int);
    assert(p =~= a + rest);
    lemma_encode_concat(a, rest);
    lemma_first_byte(rest);
    assert(encode_utf8(p).subrange(0, encode_utf8(a).len() as int) =~= encode_utf8(a));
    lemma_start_comes_first(encode_utf8(a), encode_utf8(p));
}

/// A path that stands between a directory and something in it lies in
/// the directory too, unless it goes on behind the directory's path with
/// a character that sorts before the separator.
pub proof fn lemma_inside_run(a: Seq<char>, q: Seq<char>, p: Seq<char>)
    requires
        is_ancestor(a, p),
        path_lt(a, q),
        path_lt(q, p),
    ensures
        starts(a, q),
        q[a.len() as int] <= sep(),
        q[a.len() as int] == sep() ==> is_ancestor(a, q),
{
    let ua = encode_utf8(a);
    let uq = encode_utf8(q);
    let up = encode_utf8(p);
    lemma_directory_first(a, p);
    lemma_between(ua, uq, up);
    lemma_start_of_text(a, q);
    let rest_p = p.subrange(a.len() as int, p.len() as int);
    lemma_start_of_text(a, p);
    lemma_first_byte(rest_p);
    assert(rest_p[0] == p[a.len() as int]);
    assert(encode_utf8(rest_p)[0] == up[ua.len() as int]);
    assert(up[ua.len() as int] == 0x2f);
    if a.len() == q.len() {
        assert(q.subrange(0, a.len() as int) =~= q);
        assert(false);
    }
    let rest_q = q.subrange(a.len() as int, q.len() as int);
    lemma_first_byte(rest_q);
    assert(rest_q[0] == q[a.len() as int]);
    assert(encode_utf8(rest_q)[0] == uq[ua.len() as int]);
    assert(uq[ua.len() as int] <= 0x2f);
    let c = rest_q[0];
    let k: u32 = uq[ua.len() as int] as u32;
    assert(c as u32 == k);
    char_u32_cast(c, k);
    assert(k as char == c);
    assert(k <= 0x2f);
    assert(k as char <= sep());
    if q[a.len() as int] == sep() {
        assert(is_ancestor(a, q));
    }
}

/// A tree in which every entry has its directories, and no path splits
/// what lies in a directory from it, can be laid out in the order of its
/// paths.
pub proof fn hierarchy_is_encodable(m: Map<Seq<char>, Option<Seq<u8>>>, es: Seq<(Seq<char>, Option<Seq<u8>>)>)
    requires
        is_listing(es, m),
        valid_keys(m),
        is_hierarchy(m),
        is_contiguous(m),
    ensures
        encodable(es),
{
    assert forall|i: int| 0 <= i < es.len() implies has_parent(es, i) by {
        let p = es[i].0;
        let a = parent_of(p);
        if a.len() != 0 {
            lemma_parent_name(p);
            assert(m.contains_key(a) && m[a].is_none());
            let j = choose|j: int| 0 <= j < es.len() && #[trigger] es[j].0 == a;
            lemma_directory_first(a, p);
            if i < j {
                lemma_bytes_lt_asymmetric(encode_utf8(p), encode_utf8(a));
            }
            assert(j < i);
            assert(has_descendant(m, a));
            assert forall|k: int| j < k < i implies is_ancestor(es[j].0, #[trigger] es[k].0) by {
                let q = es[k].0;
                lemma_inside_run(a, q, p);
                assert(m.contains_key(a) && m.contains_key(q));
            }
            assert(is_parent_at(es, i, j));
        }
    }
}

/// Behind the same start, the string that goes on with the smaller byte
/// comes first.
pub proof fn lemma_smaller_byte_first(start: Seq<u8>, s: Seq<u8>, t: Seq<u8>)
    requires
        s.len() > 0,
        t.len() > 0,
        s[0] < t[0],
    ensures
        bytes_lt(start + s, start + t),
    decreases start.len(),
{
    if start.len() == 0 {
        assert(start + s =~= s);
        assert(start + t =~= t);
    } else {
        lemma_smaller_byte_first(start.drop_first(), s, t);
        assert((start + s).drop_first() =~= start.drop_first() + s);
        assert((start + t).drop_first() =~= start.drop_first() + t);
    }
}

/// A path that goes on behind a directory's with a character that sorts
/// before the separator comes before all that lies in the directory.
pub proof fn lemma_split_comes_first(d: Seq<char>, q: Seq<char>, x: Seq<char>)
    requires
        starts(d, q),
        q[d.len() as int] < sep(),
        is_ancestor(d, x),
    ensures
        path_lt(q, x),
{
    let rq = q.subrange(d.len() as int, q.len() as int);
    let rx = x.subrange(d.len() as int, x.len() as int);
    assert(q =~= d + rq);
    assert(x =~= d + rx);
    lemma_encode_concat(d, rq);
    lemma_encode_concat(d, rx);
    lemma_first_byte(rq);
    lemma_first_byte(rx);
    let c = rq[0];
    char_is_scalar(c);
    char_u32_cast(c, c as u32);
    assert(c as u32 <= 0x2f);
    assert(rx[0] == sep());
    lemma_smaller_byte_first(encode_utf8(d), encode_utf8(rq), encode_utf8(rx));
}

/// In a listing, what comes first stands first.
pub proof fn lemma_listed_before(
    m: Map<Seq<char>, Option<Seq<u8>>>,
    es: Seq<(Seq<char>, Option<Seq<u8>>)>,
    i: int,
    j: int,
)
    requires
        is_listing(es, m),
        0 <= i < es.len(),
        0 <= j < es.len(),
        path_lt(es[i].0, es[j].0),
    ensures
        i < j,
{
    if j < i {
        lemma_bytes_lt_asymmetric(encode_utf8(es[i].0), encode_utf8(es[j].0));
    } else if i == j {
        crate::order::lemma_bytes_lt_irreflexive(encode_utf8(es[i].0));
    }
}

/// What can be laid out has, above each entry, its directories.
pub proof fn lemma_directories_above(
    m: Map<Seq<char>, Option<Seq<u8>>>,
    es: Seq<(Seq<char>, Option<Seq<u8>>)>,
    k: Seq<char>,
    a: Seq<char>,
)
    requires
        is_listing(es, m),
        encodable(es),
        m.contains_key(k),
        is_ancestor(a, k),
    ensures
        m.contains_key(a),
        m[a].is_none(),
    decreases k.len(),
{
    let i = choose|i: int| 0 <= i < es.len() && #[trigger] es[i].0 == k;
    assert(has_parent(es, i));
    crate::path::lemma_parent_longest(a, k);
    let j = choose|j: int| is_parent_at(es, i, j);
    assert(is_parent_at(es, i, j));
    assert(m.contains_key(es[j].0) && m[es[j].0] == es[j].1);
    if a != parent_of(k) {
        lemma_directories_above(m, es, parent_of(k), a);
    }
}

/// A listing that can be laid out is that of a tree in which every entry
/// has its directories.
pub proof fn encodable_is_hierarchy(m: Map<Seq<char>, Option<Seq<u8>>>, es: Seq<(Seq<char>, Option<Seq<u8>>)>)
    requires
        is_listing(es, m),
        encodable(es),
    ensures
        is_hierarchy(m),
{
    assert forall|k: Seq<char>, a: Seq<char>| m.contains_key(k) && is_ancestor(a, k) implies m.contains_key(a)
        && m[a].is_none() by {
        lemma_directories_above(m, es, k, a);
    }
}

/// Of what lies in a directory, something lies in it directly.
pub proof fn lemma_child_toward(m: Map<Seq<char>, Option<Seq<u8>>>, d: Seq<char>, x: Seq<char>) -> (c: Seq<char>)
    requires
        is_hierarchy(m),
        m.contains_key(x),
        is_ancestor(d, x),
    ensures
        m.contains_key(c),
        is_ancestor(d, c),
        parent_of(c) == d,
    decreases x.len(),
{
    crate::path::lemma_parent_longest(d, x);
    if parent_of(x) == d {
        x
    } else {
        lemma_child_toward(m, d, parent_of(x))
    }
}

/// A listing that can be laid out is that of a tree in which no path
/// splits a directory from what lies in it.
pub proof fn encodable_is_contiguous(m: Map<Seq<char>, Option<Seq<u8>>>, es: Seq<(Seq<char>, Option<Seq<u8>>)>)
    requires
        is_listing(es, m),
        encodable(es),
    ensures
        is_contiguous(m),
{
    encodable_is_hierarchy(m, es);
    assert forall|d: Seq<char>, q: Seq<char>|
        #![trigger m.contains_key(d), m.contains_key(q)]
        m.contains_key(d) && m.contains_key(q) && has_descendant(m, d) && starts(d, q) implies q[d.len() as int]
            >= sep() by {
        if q[d.len() as int] < sep() {
            let x = choose|x: Seq<char>| m.contains_key(x) && is_ancestor(d, x);
            let c = lemma_child_toward(m, d, x);
            let i = choose|i: int| 0 <= i < es.len() && #[trigger] es[i].0 == c;
            let k = choose|k: int| 0 <= k < es.len() && #[trigger] es[k].0 == q;
            assert(has_parent(es, i));
            let j = choose|j: int| is_parent_at(es, i, j);
            assert(is_parent_at(es, i, j));
            lemma_directory_first(d, q);
            lemma_listed_before(m, es, j, k);
            lemma_split_comes_first(d, q, c);
            lemma_listed_before(m, es, k, i);
            assert(is_ancestor(es[j].0, es[k].0));
        }
    }
}

/// The trees that can be laid out in the order of their paths are those
/// in which every entry has its directories and no path splits a
/// directory from what lies in it.
pub proof fn encodable_trees(m: Map<Seq<char>, Option<Seq<u8>>>, es: Seq<(Seq<char>, Option<Seq<u8>>)>)
    requires
        is_listing(es, m),
        valid_keys(m),
    ensures
        encodable(es) == (is_hierarchy(m) && is_contiguous(m)),
{
    if encodable(es) {
        encodable_is_hierarchy(m, es);
        encodable_is_contiguous(m, es);
    }
    if is_hierarchy(m) && is_contiguous(m) {
        hierarchy_is_encodable(m, es);
    }
}

/// A tree whose paths hold no character that sorts before the separator
/// has none that splits a directory from what lies in it.
pub proof fn above_separator_is_contiguous(m: Map<Seq<char>, Option<Seq<u8>>>)
    requires
        forall|k: Seq<char>| m.contains_key(k) ==> above_separator(k),
    ensures
        is_contiguous(m),
{
    assert forall|d: Seq<char>, q: Seq<char>|
        #![trigger m.contains_key(d), m.contains_key(q)]
        m.contains_key(d) && m.contains_key(q) && has_descendant(m, d) && starts(d, q) implies q[d.len() as int]
            >= sep() by {
        assert(above_separator(q));
        let c = q[d.len() as int];
        assert(c >= sep());
    }
}

/// What a text without such characters stands for as a path has none.
pub proof fn lemma_normalize_above(s: Seq<char>)
    requires
        above_separator(s),
    ensures
        above_separator(normalize(s)),
    decreases s.len(),
{
    if s.len() > 0 {
        let t = s.drop_last();
        assert forall|i: int| 0 <= i < t.len() implies #[trigger] t[i] >= sep() by {
            assert(t[i] == s[i]);
        }
        lemma_normalize_above(t);
        assert(s.last() == s[s.len() - 1]);
    }
}

/// Creating an entry at a path without characters that sort before the
/// separator keeps a tree free of them.
pub proof fn created_keeps_above_separator(m: Map<Seq<char>, Option<Seq<u8>>>, raw: Seq<char>, e: Option<Seq<u8>>)
    requires
        forall|k: Seq<char>| m.contains_key(k) ==> above_separator(k),
        above_separator(raw),
    ensures
        forall|k: Seq<char>| created(m, raw, e).contains_key(k) ==> above_separator(k),
{
    let p = normalize(raw);
    lemma_normalize_above(raw);
    assert forall|k: Seq<char>| created(m, raw, e).contains_key(k) implies above_separator(k) by {
        if !m.contains_key(k) && k != p {
            assert(is_ancestor(k, p));
            assert forall|i: int| 0 <= i < k.len() implies #[trigger] k[i] >= sep() by {
                assert(p.subrange(0, k.len() as int)[i] == p[i]);
            }
        }
    }
}

} // verus!
