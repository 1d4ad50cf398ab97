//! Laws of the index model: facts that relate building, diffing and
//! duplicate detection, proved once and for all inputs.
//!
//! The central one is strategy independence: the index built from a batch
//! of files depends only on which files the batch holds, not on the order
//! in which the hashing strategy completes them, up to the order of paths
//! inside one fingerprint's list.

use vstd::prelude::*;

verus! {

use vstd::multiset::Multiset;

use crate::FileData;
use crate::diff_keys;
use crate::dup_keys;
use crate::errors_of;
use crate::index_of_entries;
use crate::is_duplicates_listing;
use crate::paths_for;
use crate::index::IndexView;
use crate::index::empty_index;

/// The paths collected for one fingerprint see the batch only through its
/// multiset: reordering the entries can only reorder the collected paths.
proof fn lemma_paths_for_multiset(s1: Seq<FileData>, s2: Seq<FileData>, k: Seq<char>)
    requires
        s1.to_multiset() == s2.to_multiset(),
    ensures
        paths_for(s1, k).to_multiset() == paths_for(s2, k).to_multiset(),
    decreases s1.len(),
{
    broadcast use vstd::seq_lib::group_to_multiset_ensures;
    broadcast use vstd::seq_lib::group_seq_lib_default;
    broadcast use vstd::seq_lib::lemma_multiset_commutative;
    broadcast use vstd::multiset::group_multiset_axioms;

    reveal(Seq::filter);
    if s1.len() == 0 {
        assert(s1.to_multiset().len() == 0);
        assert(s2.len() == 0);
        assert(paths_for(s1, k) =~= paths_for(s2, k));
    } else {
        let x = s1.last();
        let s1p = s1.drop_last();
        assert(s1p.push(x) =~= s1);
        assert(s1.to_multiset() == s1p.to_multiset().insert(x));
        assert(s1.contains(x));
        assert(s2.to_multiset().count(x) > 0);
        assert(s2.contains(x));
        let j = choose|j: int| 0 <= j < s2.len() && s2[j] == x;
        let s2a = s2.subrange(0, j);
        let s2b = s2.subrange(j + 1, s2.len() as int);
        assert(s2 =~= (s2a + seq![x]) + s2b);
        let s2p = s2a + s2b;
        assert(seq![x] =~= Seq::<FileData>::empty().push(x));
        assert(seq![x].to_multiset() =~= Multiset::<FileData>::empty().insert(x));
        assert(s2.to_multiset() =~= s2p.to_multiset().insert(x));
        assert forall|a: FileData|
            s1p.to_multiset().count(a) == s2p.to_multiset().count(a) by {
            vstd::multiset::lemma_insert_increases_count_by_1(s1p.to_multiset(), x);
            vstd::multiset::lemma_insert_increases_count_by_1(s2p.to_multiset(), x);
            if a != x {
                vstd::multiset::lemma_insert_other_elements_unchanged(s1p.to_multiset(), x, a);
                vstd::multiset::lemma_insert_other_elements_unchanged(s2p.to_multiset(), x, a);
            }
            assert(s1p.to_multiset().insert(x).count(a) == s2p.to_multiset().insert(x).count(a));
        }
        assert(s1p.to_multiset() =~= s2p.to_multiset());
        lemma_paths_for_multiset(s1p, s2p, k);

        // Evaluate the one-entry batch.
        assert(seq![x].drop_last() =~= Seq::<FileData>::empty());
        let px = paths_for(seq![x], k);

        // Distribute `paths_for` over the decompositions of both batches.
        assert(paths_for(s1p + seq![x], k) =~= paths_for(s1p, k) + px);
        assert(s1 =~= s1p + seq![x]);
        assert(paths_for((s2a + seq![x]) + s2b, k) =~= (paths_for(s2a, k) + px) + paths_for(
            s2b,
            k,
        ));
        assert(paths_for(s2p, k) =~= paths_for(s2a, k) + paths_for(s2b, k));

        assert(paths_for(s1, k).to_multiset() =~= paths_for(s2, k).to_multiset());
    }
}

/// Strategy independence of the built index (and idempotence of building):
/// two batches with the same entries — the sequential walk order and any
/// completion order of the concurrent strategy — produce indexes with the
/// same fingerprints, and the same paths per fingerprint up to order; in
/// particular every per-fingerprint multiplicity matches.
pub proof fn lemma_index_strategy_independent(s1: Seq<FileData>, s2: Seq<FileData>)
    requires
        s1.to_multiset() == s2.to_multiset(),
    ensures
        index_of_entries(s1).dom() == index_of_entries(s2).dom(),
        forall|k: Seq<char>| #[trigger]
            index_of_entries(s1).dom().contains(k) ==> index_of_entries(s1)[k].to_multiset()
                == index_of_entries(s2)[k].to_multiset(),
        forall|k: Seq<char>| #[trigger]
            index_of_entries(s1).dom().contains(k) ==> index_of_entries(s1)[k].len()
                == index_of_entries(s2)[k].len(),
{
    broadcast use vstd::seq_lib::group_to_multiset_ensures;

    assert forall|k: Seq<char>|
        paths_for(s1, k).to_multiset() == paths_for(s2, k).to_multiset() && #[trigger] paths_for(
            s1,
            k,
        ).len() == paths_for(s2, k).len() by {
        lemma_paths_for_multiset(s1, s2, k);
        assert(paths_for(s1, k).to_multiset().len() == paths_for(s2, k).to_multiset().len());
    }
    assert(index_of_entries(s1).dom() =~= index_of_entries(s2).dom());
}

/// Strategy independence of the diff: which fingerprints are new and which
/// are gone does not depend on the order in which either index's batch was
/// hashed.
pub proof fn lemma_diff_strategy_independent(
    a1: Seq<FileData>,
    b1: Seq<FileData>,
    a2: Seq<FileData>,
    b2: Seq<FileData>,
)
    requires
        a1.to_multiset() == a2.to_multiset(),
        b1.to_multiset() == b2.to_multiset(),
    ensures
        diff_keys(index_of_entries(a1), index_of_entries(b1)) == diff_keys(
            index_of_entries(a2),
            index_of_entries(b2),
        ),
        diff_keys(index_of_entries(b1), index_of_entries(a1)) == diff_keys(
            index_of_entries(b2),
            index_of_entries(a2),
        ),
{
    lemma_index_strategy_independent(a1, a2);
    lemma_index_strategy_independent(b1, b2);
    assert(diff_keys(index_of_entries(a1), index_of_entries(b1)) =~= diff_keys(
        index_of_entries(a2),
        index_of_entries(b2),
    ));
    assert(diff_keys(index_of_entries(b1), index_of_entries(a1)) =~= diff_keys(
        index_of_entries(b2),
        index_of_entries(a2),
    ));
}

/// Symmetry of the diff: any value meeting `get_diff`'s contract for the
/// pair (A, B) names, in its first half, the same fingerprint set that a
/// value meeting the contract for (B, A) names in its second half, and the
/// other way round.
pub proof fn lemma_diff_symmetry(
    va: IndexView,
    vb: IndexView,
    ab_first: Seq<Seq<char>>,
    ab_second: Seq<Seq<char>>,
    ba_first: Seq<Seq<char>>,
    ba_second: Seq<Seq<char>>,
)
    requires
        ab_first.to_set() == diff_keys(va, vb),
        ab_second.to_set() == diff_keys(vb, va),
        ba_first.to_set() == diff_keys(vb, va),
        ba_second.to_set() == diff_keys(va, vb),
    ensures
        ab_first.to_set() == ba_second.to_set(),
        ab_second.to_set() == ba_first.to_set(),
{
}

/// What a duplicates listing guarantees: every group has at least two
/// paths; a fingerprint with a single path is never listed; a fingerprint
/// with two or more paths is listed at exactly one position, with its full
/// path list.
pub proof fn lemma_duplicates_exact(
    v: IndexView,
    ks: Seq<Seq<char>>,
    groups: Seq<Seq<Seq<char>>>,
    k: Seq<char>,
)
    requires
        is_duplicates_listing(v, ks, groups),
        v.dom().contains(k),
    ensures
        forall|i: int| 0 <= i < groups.len() ==> #[trigger] groups[i].len() >= 2,
        v[k].len() < 2 ==> !ks.contains(k),
        v[k].len() >= 2 ==> exists|i: int|
            0 <= i < ks.len() && ks[i] == k && #[trigger] groups[i] == v[k],
        forall|i: int, j: int| 0 <= i < j < ks.len() ==> ks[i] != ks[j],
{
    assert forall|i: int| 0 <= i < groups.len() implies #[trigger] groups[i].len() >= 2 by {
        assert(ks.contains(ks[i]));
        assert(ks.to_set().contains(ks[i]));
        assert(dup_keys(v).contains(ks[i]));
    }
    if v[k].len() < 2 {
        if ks.contains(k) {
            assert(ks.to_set().contains(k));
            assert(dup_keys(v).contains(k));
            assert(false);
        }
    } else {
        assert(dup_keys(v).contains(k));
        assert(ks.to_set().contains(k));
        assert(ks.contains(k));
        let i = choose|i: int| 0 <= i < ks.len() && ks[i] == k;
        assert(groups[i] == v[k]);
    }
}

/// An empty batch builds an index with no keys and records no errors.
pub proof fn lemma_empty_batch()
    ensures
        index_of_entries(Seq::<FileData>::empty()) == empty_index(),
        errors_of(Seq::<FileData>::empty()) == Seq::<Seq<char>>::empty(),
{
    reveal(Seq::filter);
    assert(index_of_entries(Seq::<FileData>::empty()) =~~= empty_index());
    assert(errors_of(Seq::<FileData>::empty()) =~= Seq::<Seq<char>>::empty());
}

} // verus!
