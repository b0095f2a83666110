//! De-duplicating a colon-separated search path, keeping each entry where it
//! first occurs.

use vstd::prelude::*;
use crate::text::{
    contains_string, dedup_seq, join_seq, join_with, lemma_dedup_idempotent,
    lemma_dedup_properties, lemma_split_join, lemma_split_nonempty, lemma_split_pieces_lack_sep,
    split_on, split_seq,
};

verus! {

/// The entries of a search path: the pieces between the colons.
pub open spec fn path_entries(paths: Seq<char>) -> Seq<Seq<char>> {
    split_seq(paths, ':')
}

/// The search path with every repeated entry dropped after its first
/// occurrence, joined again with colons.
pub open spec fn dedup_path_spec(paths: Seq<char>) -> Seq<char> {
    join_seq(dedup_seq(path_entries(paths)), seq![':'])
}

/// Drops every entry of the colon-separated `paths` that already occurred
/// earlier, and joins what is left with colons.
pub fn dedup_path_list(paths: &str) -> (res: String)
    ensures
        res@ == dedup_path_spec(paths@),
{
    let entries = split_on(paths, ':');
    let ghost all = entries.deep_view();
    let mut kept: Vec<String> = Vec::new();
    let n = entries.len();
    for i in 0..n
        invariant
            n == entries@.len(),
            all == entries.deep_view(),
            kept.deep_view() == dedup_seq(all.take(i as int)),
    {
        assert(all.take(i + 1).drop_last() =~= all.take(i as int));
        assert(all.take(i + 1).last() == entries@[i as int]@);
        if !contains_string(&kept, &entries[i]) {
            let ghost before = kept.deep_view();
            kept.push(entries[i].clone());
            assert(kept.deep_view() =~= before.push(entries@[i as int]@));
        }
    }
    assert(all.take(n as int) =~= all);
    let sep = ":";
    proof {
        reveal_strlit(":");
        assert(sep@ =~= seq![':']);
    }
    join_with(&kept, sep)
}

/// Every entry of the result occurs once, and the result holds exactly the
/// entries of the input.
pub proof fn lemma_dedup_path_entries(paths: Seq<char>)
    ensures
        path_entries(dedup_path_spec(paths)) == dedup_seq(path_entries(paths)),
        path_entries(dedup_path_spec(paths)).no_duplicates(),
        forall|e: Seq<char>|
            #[trigger] path_entries(dedup_path_spec(paths)).contains(e) <==> path_entries(
                paths,
            ).contains(e),
{
    let entries = path_entries(paths);
    lemma_split_nonempty(paths, ':');
    lemma_dedup_properties(entries);
    lemma_split_pieces_lack_sep(paths, ':');
    let kept = dedup_seq(entries);
    assert(kept.len() >= 1) by {
        assert(entries.contains(entries[0]));
        assert(kept.contains(entries[0]));
    }
    assert forall|i: int| 0 <= i < kept.len() implies !(#[trigger] kept[i]).contains(':') by {
        assert(kept.contains(kept[i]));
        assert(entries.contains(kept[i]));
        let k = choose|k: int| 0 <= k < entries.len() && entries[k] == kept[i];
        assert(!entries[k].contains(':'));
    }
    lemma_split_join(kept, ':');
}

/// De-duplicating a search path a second time changes nothing.
pub proof fn lemma_dedup_path_idempotent(paths: Seq<char>)
    ensures
        dedup_path_spec(dedup_path_spec(paths)) == dedup_path_spec(paths),
{
    lemma_dedup_path_entries(paths);
    lemma_dedup_idempotent(path_entries(paths));
}

} // verus!
