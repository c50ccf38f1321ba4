//! The archive tree: the entries of an archive, by path.
//!
//! A directory has no list of children; what lies in it is what has its path
//! as an ancestor. Removing an entry that still has entries below it is
//! refused, so that no entry is ever left without its directory.

use crate::order::{lemma_listing_len, lemma_listing_unique, listing};
use crate::path::{is_ancestor, is_valid_path, lemma_normalize_valid, normalize, normalize_path, sep};
use crate::trie::{entries_view, entry_view, is_listing, trie_entries, trie_get, trie_insert, trie_map, trie_new, trie_remove};
use radix_trie::Trie;
use vstd::prelude::*;
use vstd::string::*;

verus! {

/// `m` with every directory above `p` that it lacked.
pub open spec fn with_ancestors(m: Map<Seq<char>, Option<Seq<u8>>>, p: Seq<char>) -> Map<
    Seq<char>,
    Option<Seq<u8>>,
> {
    with_ancestors_below(m, p, p.len() as int)
}

/// `m` with every directory above `p` that it lacked and whose path is
/// shorter than `k`.
pub open spec fn with_ancestors_below(m: Map<Seq<char>, Option<Seq<u8>>>, p: Seq<char>, k: int) -> Map<
    Seq<char>,
    Option<Seq<u8>>,
> {
    Map::new(
        |a: Seq<char>| m.contains_key(a) || (is_ancestor(a, p) && a.len() < k),
        |a: Seq<char>|
            if m.contains_key(a) {
                m[a]
            } else {
                None
            },
    )
}

/// The tree after an entry was created at the path that `raw` stands for.
/// The directories above it are added where they are missing; what stands
/// at one of those paths already, be it a file, stays. A file replaces what
/// stood at its path; a directory is added only where nothing stood. Where
/// `raw` names the root, nothing changes.
pub open spec fn created(m: Map<Seq<char>, Option<Seq<u8>>>, raw: Seq<char>, e: Option<Seq<u8>>) -> Map<
    Seq<char>,
    Option<Seq<u8>>,
> {
    let p = normalize(raw);
    if p.len() == 0 {
        m
    } else if e.is_some() || !m.contains_key(p) {
        with_ancestors(m, p).insert(p, e)
    } else {
        with_ancestors(m, p)
    }
}

/// Some entry of `m` lies below `p`.
pub open spec fn has_descendant(m: Map<Seq<char>, Option<Seq<u8>>>, p: Seq<char>) -> bool {
    exists|k: Seq<char>| m.contains_key(k) && is_ancestor(p, k)
}

/// The entry at `p` can be taken out: it is there and nothing lies below it.
pub open spec fn removable(m: Map<Seq<char>, Option<Seq<u8>>>, p: Seq<char>) -> bool {
    m.contains_key(p) && !has_descendant(m, p)
}

/// Every key is a valid path.
pub open spec fn valid_keys(m: Map<Seq<char>, Option<Seq<u8>>>) -> bool {
    forall|k: Seq<char>| m.contains_key(k) ==> is_valid_path(k)
}

/// Every entry has its directories: each path above it is there, as a directory.
pub open spec fn is_hierarchy(m: Map<Seq<char>, Option<Seq<u8>>>) -> bool {
    forall|k: Seq<char>, a: Seq<char>|
        m.contains_key(k) && is_ancestor(a, k) ==> m.contains_key(a) && m[a].is_none()
}

/// The paths of the directories of a listing, in its order.
pub open spec fn dirs_of(es: Seq<(Seq<char>, Option<Seq<u8>>)>) -> Seq<Seq<char>>
    decreases es.len(),
{
    if es.len() == 0 {
        Seq::empty()
    } else if es.last().1.is_none() {
        dirs_of(es.drop_last()).push(es.last().0)
    } else {
        dirs_of(es.drop_last())
    }
}

/// The files of a listing with their contents, in its order.
pub open spec fn files_of(es: Seq<(Seq<char>, Option<Seq<u8>>)>) -> Seq<(Seq<char>, Seq<u8>)>
    decreases es.len(),
{
    if es.len() == 0 {
        Seq::empty()
    } else if es.last().1.is_some() {
        files_of(es.drop_last()).push((es.last().0, es.last().1.unwrap()))
    } else {
        files_of(es.drop_last())
    }
}

/// A valid path's ancestors are valid paths.
pub proof fn lemma_ancestor_valid(a: Seq<char>, p: Seq<char>)
    requires
        is_valid_path(p),
        is_ancestor(a, p),
    ensures
        is_valid_path(a),
{
    assert(a[0] == p[0]);
    let n = a.len() as int;
    assert(a[n - 1] == p[n - 1]);
    assert(p[n] == sep());
    assert forall|i: int| 0 < i < a.len() implies !(a[i - 1] == sep() && #[trigger] a[i] == sep()) by {
        assert(a[i - 1] == p[i - 1] && a[i] == p[i]);
    }
}

/// After a file was created, every directory above it is in the tree: as a
/// directory, unless a file stood at its path before.
pub proof fn created_file_has_ancestors(
    m: Map<Seq<char>, Option<Seq<u8>>>,
    raw: Seq<char>,
    data: Seq<u8>,
    a: Seq<char>,
)
    requires
        is_ancestor(a, normalize(raw)),
    ensures
        created(m, raw, Some(data)).contains_key(a),
        !(m.contains_key(a) && m[a].is_some()) ==> created(m, raw, Some(data))[a].is_none(),
{
}

/// After a file was created, it stands at its path with its contents,
/// whatever stood there before; creating it twice leaves the tree as
/// creating it with the later contents does.
pub proof fn created_file_overwrites(
    m: Map<Seq<char>, Option<Seq<u8>>>,
    raw: Seq<char>,
    first: Seq<u8>,
    second: Seq<u8>,
)
    requires
        normalize(raw).len() > 0,
    ensures
        created(m, raw, Some(second))[normalize(raw)] == Some(second),
        created(created(m, raw, Some(first)), raw, Some(second))[normalize(raw)] == Some(second),
        created(created(m, raw, Some(first)), raw, Some(second)) == created(m, raw, Some(second)),
{
    assert(created(created(m, raw, Some(first)), raw, Some(second)) =~= created(
        m,
        raw,
        Some(second),
    ));
}

/// Creating a directory where something stands changes nothing but the
/// directories above it.
pub proof fn created_directory_keeps(m: Map<Seq<char>, Option<Seq<u8>>>, raw: Seq<char>)
    requires
        m.contains_key(normalize(raw)),
    ensures
        created(m, raw, None)[normalize(raw)] == m[normalize(raw)],
{
}

/// Creating an entry keeps a hierarchy a hierarchy, where no file stands
/// above the entry and, if it is a file, nothing lies below its path.
pub proof fn created_keeps_hierarchy(
    m: Map<Seq<char>, Option<Seq<u8>>>,
    raw: Seq<char>,
    e: Option<Seq<u8>>,
)
    requires
        is_hierarchy(m),
        forall|a: Seq<char>|
            is_ancestor(a, normalize(raw)) && m.contains_key(a) ==> (#[trigger] m[a]).is_none(),
        e.is_some() ==> !has_descendant(m, normalize(raw)),
    ensures
        is_hierarchy(created(m, raw, e)),
{
    let p = normalize(raw);
    let r = created(m, raw, e);
    assert forall|k: Seq<char>, a: Seq<char>| r.contains_key(k) && is_ancestor(a, k) implies r.contains_key(a)
        && r[a].is_none() by {
        if p.len() > 0 {
            if m.contains_key(k) {
                assert(m.contains_key(a) && m[a].is_none());
                if a == p {
                    assert(has_descendant(m, p));
                }
            } else {
                if k != p {
                    crate::path::lemma_ancestor_transitive(a, k, p);
                }
                if m.contains_key(a) {
                    assert(m[a].is_none());
                }
            }
        }
    }
}

/// Taking an entry out keeps a hierarchy a hierarchy.
pub proof fn removed_keeps_hierarchy(m: Map<Seq<char>, Option<Seq<u8>>>, p: Seq<char>)
    requires
        is_hierarchy(m),
        removable(m, p),
    ensures
        is_hierarchy(m.remove(p)),
{
    let r = m.remove(p);
    assert forall|k: Seq<char>, a: Seq<char>| r.contains_key(k) && is_ancestor(a, k) implies r.contains_key(a)
        && r[a].is_none() by {
        assert(m.contains_key(a) && m[a].is_none());
        if a == p {
            assert(has_descendant(m, p));
        }
    }
}

/// The entries of an archive, by path, in a radix trie.
pub struct ArchiveTree {
    trie: Trie<String, Option<Vec<u8>>>,
}

impl View for ArchiveTree {
    type V = Map<Seq<char>, Option<Seq<u8>>>;

    closed spec fn view(&self) -> Map<Seq<char>, Option<Seq<u8>>> {
        trie_map(self.trie)
    }
}

impl ArchiveTree {
    /// Every path in the tree is a valid path.
    pub open spec fn wf(&self) -> bool {
        valid_keys(self@)
    }

    /// A tree without entries.
    pub fn new() -> (r: Self)
        ensures
            r@ == Map::<Seq<char>, Option<Seq<u8>>>::empty(),
            r.wf(),
    {
        let r = ArchiveTree { trie: trie_new() };
        assert(r@ =~= Map::<Seq<char>, Option<Seq<u8>>>::empty());
        r
    }

    /// Puts an entry at exactly this path, in place of what stood there,
    /// and touches nothing else.
    pub fn insert(&mut self, path: String, data: Option<Vec<u8>>)
        ensures
            final(self)@ == old(self)@.insert(path@, entry_view(data)),
            old(self).wf() && is_valid_path(path@) ==> final(self).wf(),
    {
        trie_insert(&mut self.trie, path, data);
    }

    /// Creates an entry, with the directories above it.
    pub fn create(&mut self, path: &str, data: Option<Vec<u8>>)
        ensures
            final(self)@ == created(old(self)@, path@, entry_view(data)),
            old(self).wf() ==> final(self).wf(),
    {
        let np: String = normalize_path(path);
        let n: usize = np.as_str().unicode_len();
        proof {
            lemma_normalize_valid(path@);
        }
        if n == 0 {
            return ;
        }
        let ghost m0 = self@;
        let ghost p = np@;
        let mut i: usize = 0;
        assert(self@ =~= with_ancestors_below(m0, p, 0));
        while i < n
            invariant
                i <= n,
                n == p.len(),
                p == np@,
                is_valid_path(p),
                self@ == with_ancestors_below(m0, p, i as int),
            decreases n - i,
        {
            if np.as_str().get_char(i) == '/' {
                let prefix: &str = np.as_str().substring_char(0, i);
                assert(is_ancestor(prefix@, p));
                if trie_get(&self.trie, prefix).is_none() {
                    trie_insert(&mut self.trie, prefix.to_owned(), None);
                }
                assert(self@ =~= with_ancestors_below(m0, p, i + 1)) by {
                    assert forall|a: Seq<char>| is_ancestor(a, p) && a.len() < i + 1 implies (
                    is_ancestor(a, p) && a.len() < i) || a == prefix@ by {
                        if a.len() == i {
                            assert(a =~= prefix@);
                        }
                    }
                }
            } else {
                assert(self@ =~= with_ancestors_below(m0, p, i + 1)) by {
                    assert forall|a: Seq<char>| is_ancestor(a, p) && a.len() < i + 1 implies a.len()
                        < i by {}
                }
            }
            i += 1;
        }
        let ghost m2 = self@;
        let absent: bool = trie_get(&self.trie, np.as_str()).is_none();
        proof {
            assert(!is_ancestor(p, p));
            assert(m2.contains_key(p) == m0.contains_key(p));
        }
        if data.is_some() || absent {
            trie_insert(&mut self.trie, np, data);
        }
        proof {
            if old(self).wf() {
                assert forall|k: Seq<char>| self@.contains_key(k) implies is_valid_path(k) by {
                    if !m0.contains_key(k) && k != p {
                        lemma_ancestor_valid(k, p);
                    }
                }
            }
        }
    }

    /// Creates a directory, with the directories above it, unless something
    /// stands at its path already.
    pub fn create_directory(&mut self, path: &str)
        ensures
            final(self)@ == created(old(self)@, path@, None),
            old(self).wf() ==> final(self).wf(),
    {
        self.create(path, None)
    }

    /// Creates a file, with the directories above it, in place of what stood
    /// at its path.
    pub fn create_file(&mut self, path: &str, data: Vec<u8>)
        ensures
            final(self)@ == created(old(self)@, path@, Some(data@)),
            old(self).wf() ==> final(self).wf(),
    {
        self.create(path, Some(data))
    }

    /// Whether a directory stands at exactly this path.
    pub fn is_directory(&self, path: &str) -> (r: bool)
        ensures
            r == (self@.contains_key(path@) && self@[path@].is_none()),
    {
        match trie_get(&self.trie, path) {
            Some(e) => e.is_none(),
            None => false,
        }
    }

    /// The contents of the file at exactly this path, if a file stands there.
    pub fn get_file(&self, path: &str) -> (r: Option<&[u8]>)
        ensures
            r.is_some() == (self@.contains_key(path@) && self@[path@].is_some()),
            r.is_some() ==> self@[path@] == Some(r.unwrap()@),
    {
        match trie_get(&self.trie, path) {
            Some(Some(d)) => Some(d.as_slice()),
            _ => None,
        }
    }

    /// Whether anything stands at exactly this path.
    pub fn contains(&self, path: &str) -> (r: bool)
        ensures
            r == self@.contains_key(path@),
    {
        trie_get(&self.trie, path).is_some()
    }

    /// Whether some entry lies below this path.
    pub fn has_entries_below(&self, path: &str) -> (r: bool)
        ensures
            r == has_descendant(self@, path@),
    {
        let es = trie_entries(&self.trie);
        let n: usize = es.len();
        let ghost v = entries_view(es@);
        let mut i: usize = 0;
        while i < n
            invariant
                i <= n,
                n == es@.len(),
                v == entries_view(es@),
                is_listing(v, self@),
                forall|j: int| 0 <= j < i ==> !is_ancestor(path@, #[trigger] v[j].0),
            decreases n - i,
        {
            if is_above(path, es[i].0) {
                assert(v[i as int].0 == es@[i as int].0@);
                assert(self@.contains_key(v[i as int].0));
                return true;
            }
            assert(v[i as int].0 == es@[i as int].0@);
            i += 1;
        }
        proof {
            if has_descendant(self@, path@) {
                let k = choose|k: Seq<char>| self@.contains_key(k) && is_ancestor(path@, k);
                let j = choose|j: int| 0 <= j < v.len() && v[j].0 == k;
                assert(!is_ancestor(path@, v[j].0));
            }
        }
        false
    }

    /// Takes out the entry at exactly this path and returns what it held
    /// (`Some(None)` for a directory). An entry that has entries below it is
    /// not taken out: then, as for a path where nothing stands, the result
    /// is `None` and the tree is unchanged.
    pub fn remove(&mut self, path: &str) -> (r: Option<Option<Vec<u8>>>)
        ensures
            r.is_some() == removable(old(self)@, path@),
            r.is_some() ==> entry_view(r.unwrap()) == old(self)@[path@],
            final(self)@ == if removable(old(self)@, path@) {
                old(self)@.remove(path@)
            } else {
                old(self)@
            },
            old(self).wf() ==> final(self).wf(),
    {
        if !self.contains(path) || self.has_entries_below(path) {
            return None;
        }
        trie_remove(&mut self.trie, path)
    }

    /// Moves the entry at `old_path`, if it can be taken out, to `new_path`.
    pub fn mv(&mut self, old_path: &str, new_path: &str)
        ensures
            final(self)@ == if removable(old(self)@, old_path@) {
                created(old(self)@.remove(old_path@), new_path@, old(self)@[old_path@])
            } else {
                old(self)@
            },
            old(self).wf() ==> final(self).wf(),
    {
        if let Some(data) = self.remove(old_path) {
            self.create(new_path, data)
        }
    }

    /// The number of entries.
    pub fn len(&self) -> (r: usize)
        ensures
            self@.dom().finite(),
            r == self@.dom().len(),
    {
        let es = trie_entries(&self.trie);
        proof {
            lemma_listing_len(entries_view(es@), self@);
        }
        es.len()
    }

    /// The entries in ascending order of their paths.
    pub fn iter(&self) -> (r: Vec<(&str, Option<&[u8]>)>)
        ensures
            entries_view(r@) == listing(self@),
            is_listing(listing(self@), self@),
    {
        let es = trie_entries(&self.trie);
        proof {
            lemma_listing_unique(entries_view(es@), listing(self@), self@);
        }
        es
    }

    /// The paths of the directories, in ascending order.
    pub fn directories(&self) -> (r: Vec<&str>)
        ensures
            r@.len() == dirs_of(listing(self@)).len(),
            forall|i: int| 0 <= i < r@.len() ==> (#[trigger] r@[i])@ == dirs_of(listing(self@))[i],
    {
        let es = self.iter();
        let n: usize = es.len();
        let ghost v = entries_view(es@);
        let mut r: Vec<&str> = Vec::new();
        let mut i: usize = 0;
        assert(v.subrange(0, 0) =~= Seq::empty());
        while i < n
            invariant
                i <= n,
                n == es@.len(),
                v == entries_view(es@),
                r@.len() == dirs_of(v.subrange(0, i as int)).len(),
                forall|j: int| 0 <= j < r@.len() ==> (#[trigger] r@[j])@ == dirs_of(v.subrange(0, i as int))[j],
            decreases n - i,
        {
            proof {
                let s = v.subrange(0, i + 1);
                assert(s.drop_last() =~= v.subrange(0, i as int));
                assert(s.last() == v[i as int]);
            }
            if es[i].1.is_none() {
                r.push(es[i].0);
            }
            i += 1;
        }
        assert(v.subrange(0, n as int) =~= v);
        r
    }

    /// The files with their contents, in ascending order of their paths.
    pub fn files(&self) -> (r: Vec<(&str, &[u8])>)
        ensures
            r@.len() == files_of(listing(self@)).len(),
            forall|i: int| 0 <= i < r@.len() ==> ((#[trigger] r@[i]).0@, r@[i].1@) == files_of(listing(self@))[i],
    {
        let es = self.iter();
        let n: usize = es.len();
        let ghost v = entries_view(es@);
        let mut r: Vec<(&str, &[u8])> = Vec::new();
        let mut i: usize = 0;
        assert(v.subrange(0, 0) =~= Seq::empty());
        while i < n
            invariant
                i <= n,
                n == es@.len(),
                v == entries_view(es@),
                r@.len() == files_of(v.subrange(0, i as int)).len(),
                forall|j: int| 0 <= j < r@.len() ==> ((#[trigger] r@[j]).0@, r@[j].1@) == files_of(v.subrange(0, i as int))[j],
            decreases n - i,
        {
            proof {
                let s = v.subrange(0, i + 1);
                assert(s.drop_last() =~= v.subrange(0, i as int));
                assert(s.last() == v[i as int]);
            }
            match es[i].1 {
                Some(d) => {
                    r.push((es[i].0, d));
                },
                None => {},
            }
            i += 1;
        }
        assert(v.subrange(0, n as int) =~= v);
        r
    }
}

/// Whether `a` names a directory above `p`.
pub fn is_above(a: &str, p: &str) -> (r: bool)
    ensures
        r == is_ancestor(a@, p@),
{
    if a.unicode_len() == 0 {
        return false;
    }
    crate::path::inside(p, a)
}

} // verus!
