//! The radix trie that holds an archive's entries, and what is taken on trust
//! about it.

use radix_trie::Trie;
use radix_trie::TrieCommon;
use vstd::prelude::*;
use vstd::utf8::encode_utf8;

verus! {

#[verifier::external_type_specification]
#[verifier::external_body]
#[verifier::reject_recursive_types(K)]
#[verifier::reject_recursive_types(V)]
pub struct ExTrie<K, V>(Trie<K, V>);

/// What a stored entry is to the contracts: the bytes of a file, or nothing
/// for a directory.
pub open spec fn entry_view(e: Option<Vec<u8>>) -> Option<Seq<u8>> {
    match e {
        Some(d) => Some(d@),
        None => None,
    }
}

/// The same for a borrowed entry.
pub open spec fn slice_view(e: Option<&[u8]>) -> Option<Seq<u8>> {
    match e {
        Some(d) => Some(d@),
        None => None,
    }
}

/// The entries that a trie holds, by path.
pub uninterp spec fn trie_map(t: Trie<String, Option<Vec<u8>>>) -> Map<Seq<char>, Option<Seq<u8>>>;

/// Byte strings in dictionary order: at the first difference the smaller byte
/// decides, and a proper prefix comes before what extends it.
pub open spec fn bytes_lt(a: Seq<u8>, b: Seq<u8>) -> bool
    decreases a.len(),
{
    if b.len() == 0 {
        false
    } else if a.len() == 0 {
        true
    } else if a[0] != b[0] {
        a[0] < b[0]
    } else {
        bytes_lt(a.drop_first(), b.drop_first())
    }
}

/// The order in which a trie hands out its keys: that of their UTF-8 bytes.
pub open spec fn path_lt(a: Seq<char>, b: Seq<char>) -> bool {
    bytes_lt(encode_utf8(a), encode_utf8(b))
}

/// `es` lists the entries of `m`, each once, in ascending order of their paths.
pub open spec fn is_listing(es: Seq<(Seq<char>, Option<Seq<u8>>)>, m: Map<Seq<char>, Option<Seq<u8>>>) -> bool {
    &&& forall|i: int, j: int| 0 <= i < j < es.len() ==> path_lt(#[trigger] es[i].0, #[trigger] es[j].0)
    &&& forall|i: int| 0 <= i < es.len() ==> m.contains_key(#[trigger] es[i].0) && m[es[i].0] == es[i].1
    &&& forall|k: Seq<char>| m.contains_key(k) ==> exists|i: int| 0 <= i < es.len() && #[trigger] es[i].0 == k
}

/// What a vector of borrowed entries is to the contracts.
pub open spec fn entries_view(v: Seq<(&str, Option<&[u8]>)>) -> Seq<(Seq<char>, Option<Seq<u8>>)> {
    Seq::new(v.len(), |i: int| (v[i].0@, slice_view(v[i].1)))
}

/// Trusted: `Trie::new` makes a trie without entries.
#[verifier::external_body]
pub(crate) fn trie_new() -> (t: Trie<String, Option<Vec<u8>>>)
    ensures
        forall|k: Seq<char>| !trie_map(t).contains_key(k),
{
    Trie::new()
}

/// Trusted: `Trie::get` finds the value stored under exactly this key, if
/// there is one.
#[verifier::external_body]
pub(crate) fn trie_get<'a>(t: &'a Trie<String, Option<Vec<u8>>>, key: &str) -> (r: Option<
    &'a Option<Vec<u8>>,
>)
    ensures
        r.is_some() == trie_map(*t).contains_key(key@),
        r.is_some() ==> entry_view(*r.unwrap()) == trie_map(*t)[key@],
{
    t.get(key)
}

/// Trusted: `Trie::insert` stores the value under the key, replacing what was
/// there, and leaves every other key as it was.
#[verifier::external_body]
pub(crate) fn trie_insert(t: &mut Trie<String, Option<Vec<u8>>>, key: String, value: Option<Vec<u8>>)
    ensures
        trie_map(*final(t)) == trie_map(*old(t)).insert(key@, entry_view(value)),
{
    t.insert(key, value);
}

/// Trusted: `Trie::remove` takes out the value stored under exactly this key
/// and returns it, and leaves every other key as it was.
#[verifier::external_body]
pub(crate) fn trie_remove(t: &mut Trie<String, Option<Vec<u8>>>, key: &str) -> (r: Option<
    Option<Vec<u8>>,
>)
    ensures
        trie_map(*final(t)) == trie_map(*old(t)).remove(key@),
        r.is_some() == trie_map(*old(t)).contains_key(key@),
        r.is_some() ==> entry_view(r.unwrap()) == trie_map(*old(t))[key@],
{
    t.remove(key)
}

/// Trusted: `TrieCommon::iter` on a trie visits every entry once, a node's own
/// entry before those of its children and the children by ascending nibble,
/// which is the ascending order of the keys' bytes.
#[verifier::external_body]
pub(crate) fn trie_entries<'a>(t: &'a Trie<String, Option<Vec<u8>>>) -> (r: Vec<
    (&'a str, Option<&'a [u8]>),
>)
    ensures
        is_listing(entries_view(r@), trie_map(*t)),
{
    t.iter().map(|(k, v)| (k.as_str(), v.as_deref())).collect()
}

} // verus!
