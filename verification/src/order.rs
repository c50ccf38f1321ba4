//! The order of paths, and why a map has one sorted listing only.

use crate::trie::{bytes_lt, is_listing, path_lt};
use vstd::prelude::*;

verus! {

/// No byte string comes before itself.
pub proof fn lemma_bytes_lt_irreflexive(a: Seq<u8>)
    ensures
        !bytes_lt(a, a),
    decreases a.len(),
{
    if a.len() > 0 {
        lemma_bytes_lt_irreflexive(a.drop_first());
    }
}

/// Of two byte strings at most one comes before the other.
pub proof fn lemma_bytes_lt_asymmetric(a: Seq<u8>, b: Seq<u8>)
    requires
        bytes_lt(a, b),
    ensures
        !bytes_lt(b, a),
    decreases a.len(),
{
    if a.len() > 0 && b.len() > 0 && a[0] == b[0] {
        lemma_bytes_lt_asymmetric(a.drop_first(), b.drop_first());
    }
}

/// What comes before something that comes before a third comes before the third.
pub proof fn lemma_bytes_lt_transitive(a: Seq<u8>, b: Seq<u8>, c: Seq<u8>)
    requires
        bytes_lt(a, b),
        bytes_lt(b, c),
    ensures
        bytes_lt(a, c),
    decreases a.len(),
{
    if a.len() > 0 && b.len() > 0 && c.len() > 0 && a[0] == b[0] && b[0] == c[0] {
        lemma_bytes_lt_transitive(a.drop_first(), b.drop_first(), c.drop_first());
    }
}

/// The one sorted listing of a map's entries.
pub open spec fn listing(m: Map<Seq<char>, Option<Seq<u8>>>) -> Seq<(Seq<char>, Option<Seq<u8>>)> {
    choose|es: Seq<(Seq<char>, Option<Seq<u8>>)>| is_listing(es, m)
}

/// Two sorted listings of the same map are the same sequence.
pub proof fn lemma_listing_unique(
    a: Seq<(Seq<char>, Option<Seq<u8>>)>,
    b: Seq<(Seq<char>, Option<Seq<u8>>)>,
    m: Map<Seq<char>, Option<Seq<u8>>>,
)
    requires
        is_listing(a, m),
        is_listing(b, m),
    ensures
        a == b,
    decreases a.len(),
{
    if a.len() == 0 {
        if b.len() > 0 {
            assert(m.contains_key(b[0].0));
        }
        assert(a =~= b);
    } else {
        let k = a[0].0;
        assert(m.contains_key(k));
        let j = choose|j: int| 0 <= j < b.len() && b[j].0 == k;
        assert(m.contains_key(b[0].0));
        let i = choose|i: int| 0 <= i < a.len() && a[i].0 == b[0].0;
        if i > 0 && j > 0 {
            assert(path_lt(a[0].0, a[i].0));
            assert(path_lt(b[0].0, b[j].0));
            lemma_bytes_lt_asymmetric(
                vstd::utf8::encode_utf8(a[0].0),
                vstd::utf8::encode_utf8(a[i].0),
            );
        }
        assert(b[0].0 == k);
        assert(a[0] == b[0]);
        let m2 = m.remove(k);
        lemma_listing_rest(a, m);
        lemma_listing_rest(b, m);
        lemma_listing_unique(a.drop_first(), b.drop_first(), m2);
        assert(a =~= seq![a[0]] + a.drop_first());
        assert(b =~= seq![b[0]] + b.drop_first());
    }
}

/// Without its first entry a listing lists the map without that entry.
pub proof fn lemma_listing_rest(a: Seq<(Seq<char>, Option<Seq<u8>>)>, m: Map<Seq<char>, Option<Seq<u8>>>)
    requires
        is_listing(a, m),
        a.len() > 0,
    ensures
        is_listing(a.drop_first(), m.remove(a[0].0)),
{
    let r = a.drop_first();
    let k = a[0].0;
    let m2 = m.remove(k);
    assert forall|i: int, j: int| 0 <= i < j < r.len() implies path_lt(
        #[trigger] r[i].0,
        #[trigger] r[j].0,
    ) by {
        assert(r[i] == a[i + 1] && r[j] == a[j + 1]);
    }
    assert forall|i: int| 0 <= i < r.len() implies m2.contains_key(#[trigger] r[i].0) && m2[r[i].0]
        == r[i].1 by {
        assert(r[i] == a[i + 1]);
        assert(path_lt(a[0].0, a[i + 1].0));
        lemma_bytes_lt_irreflexive(vstd::utf8::encode_utf8(k));
    }
    assert forall|q: Seq<char>| m2.contains_key(q) implies exists|i: int|
        0 <= i < r.len() && #[trigger] r[i].0 == q by {
        assert(m.contains_key(q));
        let i = choose|i: int| 0 <= i < a.len() && a[i].0 == q;
        assert(r[i - 1] == a[i]);
    }
}

/// The keys of a listed map are finitely many, as many as the listing is long.
pub proof fn lemma_listing_len(a: Seq<(Seq<char>, Option<Seq<u8>>)>, m: Map<Seq<char>, Option<Seq<u8>>>)
    requires
        is_listing(a, m),
    ensures
        m.dom().finite(),
        m.dom().len() == a.len(),
    decreases a.len(),
{
    if a.len() == 0 {
        assert(m.dom() =~= Set::<Seq<char>>::empty());
    } else {
        lemma_listing_rest(a, m);
        lemma_listing_len(a.drop_first(), m.remove(a[0].0));
        assert(m.contains_key(a[0].0));
        assert(m.dom() =~= m.remove(a[0].0).dom().insert(a[0].0));
    }
}

} // verus!
