//! Collecting the distinct versions of a path from what its snapshots hold.
use crate::index::{
    lists_each_value_once, new_version_index, sort_by_time, version_index_insert,
    version_index_values,
};
use crate::paths::{join, join_path};
use crate::types::{fingerprint, PathData};
use vstd::prelude::*;

verus! {

broadcast use vstd::seq_lib::group_to_multiset_ensures;

/// No two entries of `s` are the same version.
pub open spec fn fingerprints_distinct(s: Seq<PathData>) -> bool {
    forall|i: int, j: int|
        0 <= i < j < s.len() ==> fingerprint(#[trigger] s[i]) != fingerprint(#[trigger] s[j])
}

/// Modification times ascend along `s`.
pub open spec fn sorted_by_time(s: Seq<PathData>) -> bool {
    forall|i: int, j: int|
        0 <= i <= j < s.len() ==> (#[trigger] s[i]).system_time <= (#[trigger] s[j]).system_time
}

/// Some entry of `s` has fingerprint `f`.
pub open spec fn has_fingerprint(s: Seq<PathData>, f: (i128, u64)) -> bool {
    exists|i: int| 0 <= i < s.len() && fingerprint(#[trigger] s[i]) == f
}

/// `r` holds the distinct versions among the existing entries of `candidates`:
/// each of its entries is an existing candidate, each existing candidate's fingerprint
/// occurs in it exactly once, and it is ordered by modification time.
pub open spec fn is_version_list(r: Seq<PathData>, candidates: Seq<PathData>) -> bool {
    &&& forall|i: int| 0 <= i < r.len() ==> candidates.contains(#[trigger] r[i])
    &&& forall|i: int| 0 <= i < r.len() ==> !(#[trigger] r[i]).is_phantom
    &&& forall|j: int|
        0 <= j < candidates.len() && !(#[trigger] candidates[j]).is_phantom ==> has_fingerprint(
            r,
            fingerprint(candidates[j]),
        )
    &&& fingerprints_distinct(r)
    &&& sorted_by_time(r)
}

/// Reordering a list keeps its entries, and keeps them distinct as versions.
proof fn lemma_permutation_keeps_versions(a: Seq<PathData>, b: Seq<PathData>)
    requires
        a.to_multiset() == b.to_multiset(),
        fingerprints_distinct(a),
    ensures
        forall|x: PathData| a.contains(x) <==> b.contains(x),
        fingerprints_distinct(b),
        forall|f: (i128, u64)| has_fingerprint(a, f) ==> has_fingerprint(b, f),
{
    assert forall|x: PathData| a.contains(x) <==> b.contains(x) by {
        assert(a.contains(x) <==> a.to_multiset().count(x) > 0);
        assert(b.contains(x) <==> b.to_multiset().count(x) > 0);
    }
    assert(a.no_duplicates());
    a.lemma_multiset_has_no_duplicates();
    b.lemma_multiset_has_no_duplicates_conv();
    assert forall|i: int, j: int| 0 <= i < j < b.len() implies fingerprint(#[trigger] b[i])
        != fingerprint(#[trigger] b[j]) by {
        assert(b.contains(b[i]));
        assert(b.contains(b[j]));
        let p = choose|p: int| 0 <= p < a.len() && a[p] == b[i];
        let q = choose|q: int| 0 <= q < a.len() && a[q] == b[j];
        if fingerprint(b[i]) == fingerprint(b[j]) {
            if p < q {
                assert(fingerprint(a[p]) != fingerprint(a[q]));
            } else if q < p {
                assert(fingerprint(a[q]) != fingerprint(a[p]));
            }
        }
    }
    assert forall|f: (i128, u64)| has_fingerprint(a, f) implies has_fingerprint(b, f) by {
        let i = choose|i: int| 0 <= i < a.len() && fingerprint(#[trigger] a[i]) == f;
        assert(a.contains(a[i]));
        let j = choose|j: int| 0 <= j < b.len() && b[j] == a[i];
        assert(fingerprint(b[j]) == f);
    }
}

/// The distinct versions among `candidates`, phantoms dropped, ordered by modification
/// time. Of several entries with one fingerprint any one may be kept.
pub fn unique_versions(candidates: &Vec<PathData>) -> (r: Vec<PathData>)
    ensures
        is_version_list(r@, candidates@),
{
    let mut index = new_version_index();
    let mut i: usize = 0;
    while i < candidates.len()
        invariant
            0 <= i <= candidates@.len(),
            forall|k: (i128, u64)| #[trigger]
                index@.contains_key(k) ==> fingerprint(index@[k]) == k && candidates@.contains(
                    index@[k],
                ) && !index@[k].is_phantom,
            forall|j: int|
                0 <= j < i && !(#[trigger] candidates@[j]).is_phantom ==> index@.contains_key(
                    fingerprint(candidates@[j]),
                ),
        decreases candidates.len() - i,
    {
        let c = &candidates[i];
        if !c.is_phantom {
            assert(candidates@.contains(candidates@[i as int]));
            version_index_insert(&mut index, (c.system_time, c.size), c.duplicate());
        }
        i = i + 1;
    }
    let ghost m = index@;
    let mut values = version_index_values(index);
    let ghost ks = choose|ks: Seq<(i128, u64)>|
        {
            &&& ks.len() == values@.len()
            &&& ks.no_duplicates()
            &&& ks.to_set() == m.dom()
            &&& forall|i: int| 0 <= i < ks.len() ==> values@[i] == m[#[trigger] ks[i]]
        };
    assert(lists_each_value_once(values@, m));
    proof {
        assert forall|p: int| 0 <= p < values@.len() implies m.contains_key(#[trigger] ks[p]) by {
            assert(ks.to_set().contains(ks[p]));
        }
        assert forall|p: int, q: int| 0 <= p < q < values@.len() implies fingerprint(
            #[trigger] values@[p],
        ) != fingerprint(#[trigger] values@[q]) by {
            assert(m.contains_key(ks[p]));
            assert(m.contains_key(ks[q]));
        }
        assert forall|j: int|
            0 <= j < candidates@.len() && !(#[trigger] candidates@[j]).is_phantom implies has_fingerprint(
            values@,
            fingerprint(candidates@[j]),
        ) by {
            let k = fingerprint(candidates@[j]);
            assert(ks.to_set().contains(k));
            let p = choose|p: int| 0 <= p < ks.len() && ks[p] == k;
            assert(m.contains_key(ks[p]));
            assert(fingerprint(values@[p]) == k);
        }
    }
    let ghost before = values@;
    sort_by_time(&mut values);
    proof {
        lemma_permutation_keeps_versions(before, values@);
        assert forall|i: int| 0 <= i < values@.len() implies candidates@.contains(
            #[trigger] values@[i],
        ) && !values@[i].is_phantom by {
            assert(values@.contains(values@[i]));
            let p = choose|p: int| 0 <= p < before.len() && before[p] == values@[i];
            assert(m.contains_key(ks[p]));
        }
    }
    values
}

/// The distinct versions found by two searches of one path (its own dataset and a
/// replica), merged and deduplicated by fingerprint again.
pub fn merge_versions(first: &Vec<PathData>, second: &Vec<PathData>) -> (r: Vec<PathData>)
    ensures
        is_version_list(r@, first@ + second@),
{
    let mut all: Vec<PathData> = Vec::new();
    let mut i: usize = 0;
    while i < first.len()
        invariant
            0 <= i <= first@.len(),
            all@ == first@.subrange(0, i as int),
        decreases first.len() - i,
    {
        all.push(first[i].duplicate());
        i = i + 1;
    }
    let mut j: usize = 0;
    while j < second.len()
        invariant
            0 <= j <= second@.len(),
            all@ == first@ + second@.subrange(0, j as int),
        decreases second.len() - j,
    {
        all.push(second[j].duplicate());
        j = j + 1;
    }
    assert(all@ =~= first@ + second@);
    unique_versions(&all)
}

/// The paths at which the snapshots in `snapshot_dirs` hold the file `relative_path`.
pub fn snapshot_version_paths(snapshot_dirs: &Vec<String>, relative_path: &str) -> (r: Vec<
    String,
>)
    ensures
        r@.len() == snapshot_dirs@.len(),
        forall|i: int|
            0 <= i < r@.len() ==> (#[trigger] r@[i])@ == join_path(
                snapshot_dirs@[i]@,
                relative_path@,
            ),
{
    let mut r: Vec<String> = Vec::new();
    let mut i: usize = 0;
    while i < snapshot_dirs.len()
        invariant
            0 <= i <= snapshot_dirs@.len(),
            r@.len() == i,
            forall|j: int|
                0 <= j < i ==> (#[trigger] r@[j])@ == join_path(
                    snapshot_dirs@[j]@,
                    relative_path@,
                ),
        decreases snapshot_dirs.len() - i,
    {
        r.push(join(snapshot_dirs[i].as_str(), relative_path));
        i = i + 1;
    }
    r
}

} // verus!
