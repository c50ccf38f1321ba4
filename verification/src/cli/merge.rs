//! Putting the entries of one archive into another.

use crate::jsystem::rarc::RarcArchive;
use crate::tree::created;
use crate::trie::slice_view;
use vstd::prelude::*;

verus! {

/// The tree after the first `k` of the entries were put into it, those
/// left out that are marked as excluded.
pub open spec fn merged(
    m: Map<Seq<char>, Option<Seq<u8>>>,
    entries: Seq<(Seq<char>, Option<Seq<u8>>)>,
    excluded: Seq<bool>,
    k: int,
) -> Map<Seq<char>, Option<Seq<u8>>>
    decreases k,
{
    if k <= 0 {
        m
    } else if excluded[k - 1] {
        merged(m, entries, excluded, k - 1)
    } else {
        created(merged(m, entries, excluded, k - 1), entries[k - 1].0, entries[k - 1].1)
    }
}

/// Puts the entries into the archive, files as files and directories as
/// directories, but for those that are marked as excluded.
pub fn add_entries(output: &mut RarcArchive, entries: &Vec<(&str, Option<&[u8]>)>, excluded: &Vec<bool>)
    requires
        excluded@.len() == entries@.len(),
    ensures
        final(output)@ == merged(
            old(output)@,
            crate::trie::entries_view(entries@),
            excluded@,
            entries@.len() as int,
        ),
        old(output).wf() ==> final(output).wf(),
{
    let n: usize = entries.len();
    let ghost view = crate::trie::entries_view(entries@);
    let mut k: usize = 0;
    while k < n
        invariant
            k <= n,
            n == entries@.len(),
            n == excluded@.len(),
            view == crate::trie::entries_view(entries@),
            output@ == merged(old(output)@, view, excluded@, k as int),
            old(output).wf() ==> output.wf(),
        decreases n - k,
    {
        assert(view[k as int] == (entries@[k as int].0@, slice_view(entries@[k as int].1)));
        if !excluded[k] {
            match entries[k].1 {
                Some(data) => {
                    output.create_file(entries[k].0, vstd::slice::slice_to_vec(data));
                },
                None => {
                    output.create_directory(entries[k].0);
                },
            }
        }
        k += 1;
    }
}

} // verus!
