//! Archive paths: `/`-separated names without empty segments.

use vstd::prelude::*;
use vstd::string::*;

verus! {

/// The separator between the segments of a path.
pub open spec fn sep() -> char {
    '/'
}

/// A path has at least one segment and no empty one: it is not empty, neither
/// starts nor ends with the separator, and never holds two separators in a row.
pub open spec fn is_valid_path(p: Seq<char>) -> bool {
    &&& p.len() > 0
    &&& p[0] != sep()
    &&& p[p.len() - 1] != sep()
    &&& forall|i: int| 0 < i < p.len() ==> !(p[i - 1] == sep() && #[trigger] p[i] == sep())
}

/// A name is one segment: not empty, and without a separator.
pub open spec fn is_valid_name(n: Seq<char>) -> bool {
    &&& n.len() > 0
    &&& forall|i: int| 0 <= i < n.len() ==> #[trigger] n[i] != sep()
}

/// What a caller's text stands for as a path: its non-empty segments, joined
/// by single separators. The result is empty where the text names the root.
pub open spec fn normalize(s: Seq<char>) -> Seq<char>
    decreases s.len(),
{
    if s.len() == 0 {
        Seq::<char>::empty()
    } else {
        let r = normalize(s.drop_last());
        let c = s.last();
        if c == sep() {
            r
        } else if s.len() >= 2 && s[s.len() - 2] == sep() && r.len() > 0 {
            r.push(sep()).push(c)
        } else {
            r.push(c)
        }
    }
}

/// `a` names a directory above `p`: `p` is `a`, a separator, and more.
pub open spec fn is_ancestor(a: Seq<char>, p: Seq<char>) -> bool {
    &&& 0 < a.len() < p.len()
    &&& p[a.len() as int] == sep()
    &&& p.subrange(0, a.len() as int) == a
}

/// The index of the last separator in `p`, or -1 where it has none.
pub open spec fn last_sep(p: Seq<char>) -> int
    decreases p.len(),
{
    if p.len() == 0 {
        -1
    } else if p.last() == sep() {
        p.len() - 1
    } else {
        last_sep(p.drop_last())
    }
}

/// The path of the directory that holds `p`; empty where that is the root.
pub open spec fn parent_of(p: Seq<char>) -> Seq<char> {
    if last_sep(p) < 0 {
        Seq::<char>::empty()
    } else {
        p.subrange(0, last_sep(p))
    }
}

/// The last segment of `p`.
pub open spec fn name_of(p: Seq<char>) -> Seq<char> {
    p.subrange(last_sep(p) + 1, p.len() as int)
}

/// The path of the entry called `name` in the directory `prefix`.
pub open spec fn join(prefix: Seq<char>, name: Seq<char>) -> Seq<char> {
    if prefix.len() == 0 {
        name
    } else {
        prefix.push(sep()) + name
    }
}

/// `p` lies in the directory `dir`, at any depth; everything lies in the root.
pub open spec fn is_inside(p: Seq<char>, dir: Seq<char>) -> bool {
    dir.len() == 0 || (dir.len() < p.len() && p[dir.len() as int] == sep() && p.subrange(
        0,
        dir.len() as int,
    ) == dir)
}

pub proof fn lemma_last_sep_bounds(p: Seq<char>)
    ensures
        -1 <= last_sep(p) < p.len(),
        last_sep(p) >= 0 ==> p[last_sep(p)] == sep(),
        forall|i: int| last_sep(p) < i < p.len() ==> p[i] != sep(),
    decreases p.len(),
{
    if p.len() > 0 && p.last() != sep() {
        lemma_last_sep_bounds(p.drop_last());
        assert forall|i: int| last_sep(p) < i < p.len() implies p[i] != sep() by {
            if i < p.len() - 1 {
                assert(p.drop_last()[i] == p[i]);
            }
        }
    }
}

/// A normalized text is empty or a valid path.
pub proof fn lemma_normalize_valid(s: Seq<char>)
    ensures
        normalize(s).len() == 0 || is_valid_path(normalize(s)),
        normalize(s).len() <= s.len(),
        normalize(s).len() > 0 && s.len() > 0 && s.last() != sep() ==> normalize(s).last()
            == s.last(),
    decreases s.len(),
{
    if s.len() > 0 {
        lemma_normalize_valid(s.drop_last());
        let r = normalize(s.drop_last());
        let c = s.last();
        if c != sep() {
            if s.len() >= 2 && s[s.len() - 2] == sep() && r.len() > 0 {
                let q = r.push(sep()).push(c);
                assert(s.drop_last().last() == sep());
                assert(r == normalize(s.drop_last().drop_last()));
                lemma_normalize_valid(s.drop_last().drop_last());
                assert(q[0] == r[0]);
                assert forall|i: int| 0 < i < q.len() implies !(q[i - 1] == sep() && #[trigger] q[i]
                    == sep()) by {
                    if i < r.len() {
                        assert(q[i - 1] == r[i - 1] && q[i] == r[i]);
                    }
                }
            } else {
                let q = r.push(c);
                if r.len() > 0 {
                    assert(q[0] == r[0]);
                }
                assert forall|i: int| 0 < i < q.len() implies !(q[i - 1] == sep() && #[trigger] q[i]
                    == sep()) by {
                    if i < r.len() {
                        assert(q[i - 1] == r[i - 1] && q[i] == r[i]);
                    }
                }
            }
        }
    }
}

/// Normalizing a valid path changes nothing.
pub proof fn valid_path_is_normal(p: Seq<char>)
    requires
        is_valid_path(p),
    ensures
        normalize(p) == p,
{
    lemma_normalize_prefix(p, p.len() as int);
    assert(p.subrange(0, p.len() as int) =~= p);
}

proof fn lemma_normalize_prefix(p: Seq<char>, k: int)
    requires
        is_valid_path(p),
        0 <= k <= p.len(),
    ensures
        k == 0 || p[k - 1] != sep() ==> normalize(p.subrange(0, k)) == p.subrange(0, k),
        k > 0 && p[k - 1] == sep() ==> normalize(p.subrange(0, k)) == p.subrange(0, k - 1),
    decreases k,
{
    let s = p.subrange(0, k);
    if k > 0 {
        lemma_normalize_prefix(p, k - 1);
        assert(s.drop_last() =~= p.subrange(0, k - 1));
        if p[k - 1] == sep() {
            assert(p[k - 2] != sep());
        } else if k >= 2 && p[k - 2] == sep() {
            assert(k >= 3);
            assert(p[k - 3] != sep());
            lemma_normalize_prefix(p, k - 2);
            assert(p.subrange(0, k - 2).push(sep()).push(p[k - 1]) =~= s);
        } else {
            assert(p.subrange(0, k - 1).push(p[k - 1]) =~= s);
        }
    } else {
        assert(s =~= Seq::<char>::empty());
    }
}

/// A valid path is its parent joined with its name, and both parts are well formed.
pub proof fn lemma_parent_name(p: Seq<char>)
    requires
        is_valid_path(p),
    ensures
        is_valid_name(name_of(p)),
        join(parent_of(p), name_of(p)) == p,
        parent_of(p).len() == 0 || is_valid_path(parent_of(p)),
        parent_of(p).len() > 0 ==> is_ancestor(parent_of(p), p),
        parent_of(p).len() < p.len(),
{
    lemma_last_sep_bounds(p);
    let k = last_sep(p);
    if k >= 0 {
        assert(p.subrange(0, k).push(sep()) + p.subrange(k + 1, p.len() as int) =~= p);
        let q = p.subrange(0, k);
        assert(k > 0);
        assert(q[k - 1] == p[k - 1]);
        assert(p[k - 1] != sep());
        assert forall|i: int| 0 < i < q.len() implies !(q[i - 1] == sep() && #[trigger] q[i]
            == sep()) by {
            assert(q[i - 1] == p[i - 1] && q[i] == p[i]);
        }
    } else {
        assert(p.subrange(0, p.len() as int) =~= p);
    }
}

/// Joining a directory's path and a name gives a valid path whose parent and
/// name are the two parts.
pub proof fn lemma_join_valid(prefix: Seq<char>, name: Seq<char>)
    requires
        prefix.len() == 0 || is_valid_path(prefix),
        is_valid_name(name),
    ensures
        is_valid_path(join(prefix, name)),
        parent_of(join(prefix, name)) == prefix,
        name_of(join(prefix, name)) == name,
        is_inside(join(prefix, name), prefix),
{
    let p = join(prefix, name);
    lemma_last_sep_of_join(prefix, name, name.len() as int);
    assert(name.subrange(0, name.len() as int) =~= name);
    if prefix.len() > 0 {
        let n = prefix.len() as int;
        assert(last_sep(p) == n);
        assert(p.len() == n + 1 + name.len());
        assert(p.subrange(0, n) =~= prefix);
        assert(p.subrange(n + 1, p.len() as int) =~= name);
        lemma_join_no_double(prefix, name);
        assert(p[p.len() - 1] == name[name.len() - 1]);
        assert(p[0] == prefix[0]);
    } else {
        assert(p.subrange(0, p.len() as int) =~= p);
    }
}

proof fn lemma_join_no_double(prefix: Seq<char>, name: Seq<char>)
    requires
        is_valid_path(prefix),
        is_valid_name(name),
    ensures
        ({
            let p = prefix.push(sep()) + name;
            forall|i: int| 0 < i < p.len() ==> !(p[i - 1] == sep() && #[trigger] p[i] == sep())
        }),
{
    let p = prefix.push(sep()) + name;
    let n = prefix.len() as int;
    assert forall|i: int| 0 < i < p.len() implies !(p[i - 1] == sep() && #[trigger] p[i]
        == sep()) by {
        if i < n {
            assert(p[i - 1] == prefix[i - 1]);
            assert(p[i] == prefix[i]);
        } else if i == n {
            assert(p[i - 1] == prefix[n - 1]);
        } else {
            assert(p[i] == name[i - n - 1]);
        }
    }
}

proof fn lemma_last_sep_of_join(prefix: Seq<char>, name: Seq<char>, k: int)
    requires
        forall|i: int| 0 <= i < name.len() ==> #[trigger] name[i] != sep(),
        0 <= k <= name.len(),
    ensures
        prefix.len() > 0 ==> last_sep(prefix.push(sep()) + name.subrange(0, k)) == prefix.len(),
        last_sep(name.subrange(0, k)) == -1,
    decreases k,
{
    let n = name.subrange(0, k);
    let p = prefix.push(sep()) + n;
    if k > 0 {
        lemma_last_sep_of_join(prefix, name, k - 1);
        assert(n.drop_last() =~= name.subrange(0, k - 1));
        assert(p.drop_last() =~= prefix.push(sep()) + name.subrange(0, k - 1));
        assert(n.last() == name[k - 1]);
        assert(p.last() == name[k - 1]);
    } else {
        assert(p =~= prefix.push(sep()));
        assert(n =~= Seq::<char>::empty());
    }
}

/// Appends one character to a string.
///
/// Trusted: `String::push` adds `c` at the end and changes nothing else.
#[verifier::external_body]
pub(crate) fn push_char(s: &mut String, c: char)
    ensures
        final(s)@ == old(s)@.push(c),
{
    s.push(c);
}

/// The normalized form of `path`.
pub fn normalize_path(path: &str) -> (r: String)
    ensures
        r@ == normalize(path@),
{
    let n: usize = path.unicode_len();
    let mut r: String = String::new();
    let mut empty: bool = true;
    let mut after_sep: bool = false;
    let mut i: usize = 0;
    assert(path@.subrange(0, 0) =~= Seq::<char>::empty());
    while i < n
        invariant
            i <= n,
            n == path@.len(),
            r@ == normalize(path@.subrange(0, i as int)),
            empty == (r@.len() == 0),
            after_sep == (i > 0 && path@[i - 1] == sep()),
        decreases n - i,
    {
        let c: char = path.get_char(i);
        proof {
            let s = path@.subrange(0, i + 1);
            assert(s.drop_last() =~= path@.subrange(0, i as int));
            assert(s.last() == c);
            if i > 0 {
                assert(s[s.len() - 2] == path@[i - 1]);
            }
        }
        if c != '/' {
            if after_sep && !empty {
                push_char(&mut r, '/');
            }
            push_char(&mut r, c);
            empty = false;
            after_sep = false;
        } else {
            after_sep = true;
        }
        i += 1;
    }
    assert(path@.subrange(0, n as int) =~= path@);
    r
}

/// Whether `p` lies in the directory `dir`.
pub fn inside(p: &str, dir: &str) -> (r: bool)
    ensures
        r == is_inside(p@, dir@),
{
    let n: usize = dir.unicode_len();
    let m: usize = p.unicode_len();
    if n == 0 {
        return true;
    }
    if n >= m {
        return false;
    }
    if p.get_char(n) != '/' {
        return false;
    }
    let mut i: usize = 0;
    while i < n
        invariant
            i <= n < m,
            n == dir@.len(),
            m == p@.len(),
            p@.subrange(0, i as int) == dir@.subrange(0, i as int),
        decreases n - i,
    {
        if p.get_char(i) != dir.get_char(i) {
            proof {
                assert(p@.subrange(0, n as int)[i as int] != dir@[i as int]);
            }
            return false;
        }
        i += 1;
        assert(p@.subrange(0, i as int) =~= p@.subrange(0, i - 1).push(p@[i - 1]));
        assert(dir@.subrange(0, i as int) =~= dir@.subrange(0, i - 1).push(dir@[i - 1]));
    }
    assert(dir@.subrange(0, n as int) =~= dir@);
    true
}

/// Whether `name` is a single path segment.
pub fn valid_name(name: &str) -> (r: bool)
    ensures
        r == is_valid_name(name@),
{
    let n: usize = name.unicode_len();
    if n == 0 {
        return false;
    }
    let mut i: usize = 0;
    while i < n
        invariant
            i <= n,
            n == name@.len(),
            forall|j: int| 0 <= j < i ==> #[trigger] name@[j] != sep(),
        decreases n - i,
    {
        if name.get_char(i) == '/' {
            assert(name@[i as int] == sep());
            return false;
        }
        i += 1;
    }
    true
}

/// Whether two strings hold the same text.
pub fn same_text(a: &str, b: &str) -> (r: bool)
    ensures
        r == (a@ == b@),
{
    let n: usize = a.unicode_len();
    if n != b.unicode_len() {
        return false;
    }
    let mut i: usize = 0;
    while i < n
        invariant
            i <= n,
            n == a@.len(),
            n == b@.len(),
            a@.subrange(0, i as int) == b@.subrange(0, i as int),
        decreases n - i,
    {
        if a.get_char(i) != b.get_char(i) {
            return false;
        }
        i += 1;
        assert(a@.subrange(0, i as int) =~= a@.subrange(0, i - 1).push(a@[i - 1]));
        assert(b@.subrange(0, i as int) =~= b@.subrange(0, i - 1).push(b@[i - 1]));
    }
    assert(a@.subrange(0, n as int) =~= a@);
    assert(b@.subrange(0, n as int) =~= b@);
    true
}

/// An ancestor of an ancestor is an ancestor.
pub proof fn lemma_ancestor_transitive(a: Seq<char>, b: Seq<char>, c: Seq<char>)
    requires
        is_ancestor(a, b),
        is_ancestor(b, c),
    ensures
        is_ancestor(a, c),
{
    assert(c.subrange(0, b.len() as int)[a.len() as int] == c[a.len() as int]);
    assert(c.subrange(0, a.len() as int) =~= b.subrange(0, a.len() as int));
}

/// The parent is the longest ancestor: no ancestor of `p` is longer than
/// `p`'s parent, and a parent that is not the root is an ancestor.
pub proof fn lemma_parent_longest(a: Seq<char>, p: Seq<char>)
    requires
        is_ancestor(a, p),
    ensures
        a.len() <= parent_of(p).len(),
        is_ancestor(parent_of(p), p),
        a == parent_of(p) || is_ancestor(a, parent_of(p)),
{
    lemma_last_sep_bounds(p);
    let k = last_sep(p);
    let q = parent_of(p);
    assert(k >= a.len());
    assert(p.subrange(0, k) == q);
    assert(q.subrange(0, a.len() as int) =~= a);
    if a.len() == q.len() {
        assert(a =~= q);
    } else {
        assert(q[a.len() as int] == p[a.len() as int]);
    }
}

/// Splits `p` at its last separator into the parent's path and the name.
pub fn split_parent<'a>(p: &'a str) -> (r: (&'a str, &'a str))
    ensures
        r.0@ == parent_of(p@),
        r.1@ == name_of(p@),
{
    let n: usize = p.unicode_len();
    let mut i: usize = n;
    proof {
        assert(p@.subrange(0, n as int) =~= p@);
    }
    while i > 0
        invariant
            i <= n,
            n == p@.len(),
            last_sep(p@) == last_sep(p@.subrange(0, i as int)),
        decreases i,
    {
        if p.get_char(i - 1) == '/' {
            proof {
                assert(p@.subrange(0, i as int).last() == p@[i - 1]);
            }
            return (p.substring_char(0, i - 1), p.substring_char(i, n));
        }
        proof {
            assert(p@.subrange(0, i as int).last() == p@[i - 1]);
            assert(p@.subrange(0, i as int).drop_last() =~= p@.subrange(0, i - 1));
        }
        i -= 1;
    }
    proof {
        assert(p@.subrange(0, 0) =~= Seq::<char>::empty());
    }
    (p.substring_char(0, 0), p.substring_char(0, n))
}

/// The path of the entry called `name` in the directory `prefix`.
pub fn join_path(prefix: &str, name: &str) -> (r: String)
    ensures
        r@ == join(prefix@, name@),
{
    if prefix.unicode_len() == 0 {
        return name.to_owned();
    }
    let mut r: String = prefix.to_owned();
    push_char(&mut r, '/');
    r.append(name);
    r
}

} // verus!
