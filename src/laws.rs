//! Properties that relate the library's functions, proved over their specifications.
use crate::lookup::{
    has_qualifying_dataset, is_immediate_dataset, mount_at, native_search_dirs, qualifies,
};
use crate::paths::{
    is_normal_path, is_path_prefix, join_path, last_slash, parent_dir, strip_path_prefix,
    trim_leading_slashes, trim_trailing_slashes,
};
use crate::types::{fingerprint, PathData};
use crate::versions::{has_fingerprint, is_version_list};
use vstd::prelude::*;

verus! {

broadcast use vstd::seq_lib::group_to_multiset_ensures;

/// Joining a path prefix with what is left of a normal path past it gives the path back.
/// This is the round trip of the explicit-roots mode, where the prefix is the live root.
pub proof fn lemma_join_strip(p: Seq<char>, m: Seq<char>)
    requires
        is_normal_path(p),
        is_path_prefix(m, p),
    ensures
        join_path(m, strip_path_prefix(p, m)) == p,
{
    let k = m.len() as int;
    let rest = p.subrange(k, p.len() as int);
    if m.len() == 0 {
    } else if m.len() == p.len() {
        assert(p.subrange(0, k) =~= p);
        assert(rest.len() == 0);
    } else if m[k - 1] == '/' {
        assert(p[k - 1] == '/');
        assert(rest[0] != '/');
        assert(m + rest =~= p);
    } else {
        let tail = p.subrange(k + 1, p.len() as int);
        assert(p[k] == '/');
        assert(rest.subrange(1, rest.len() as int) =~= tail);
        if tail.len() == 0 {
            assert(p.last() == '/');
        }
        assert(tail[0] != '/');
        assert(trim_leading_slashes(tail) == tail);
        assert(m + seq!['/'] + tail =~= p);
    }
}

/// In mount-table mode, joining the mount point of a normal path's dataset with the
/// relative path that the search directories give reconstructs the live path.
pub proof fn lemma_search_dirs_round_trip(
    table: Seq<(String, String)>,
    path: Seq<char>,
    for_alt_replicated: bool,
    hidden: Seq<char>,
    rel: Seq<char>,
)
    requires
        is_normal_path(path),
        native_search_dirs(table, path, for_alt_replicated, hidden, rel),
    ensures
        exists|i: int|
            is_immediate_dataset(table, i, path) && join_path(mount_at(table, i), rel) == path,
{
    let i = choose|i: int|
        {
            &&& is_immediate_dataset(table, i, path)
            &&& is_path_prefix(mount_at(table, i), path)
            &&& rel == strip_path_prefix(path, mount_at(table, i))
            &&& if for_alt_replicated {
                exists|k: int, a: int|
                    crate::lookup::has_alternate_at(table, mount_at(table, i), k, a) && hidden
                        == join_path(mount_at(table, a), crate::lookup::snapshot_subdir())
            } else {
                hidden == join_path(mount_at(table, i), crate::lookup::snapshot_subdir())
            }
        };
    lemma_join_strip(path, mount_at(table, i));
}

/// The fingerprints of the entries of `s`, in order.
pub open spec fn fingerprints(s: Seq<PathData>) -> Seq<(i128, u64)> {
    s.map_values(|p: PathData| fingerprint(p))
}

/// Two version lists of the same candidates hold the same fingerprints, each once: running
/// the enumeration again on unchanged input gives the same versions.
pub proof fn lemma_version_lists_agree(
    candidates: Seq<PathData>,
    r1: Seq<PathData>,
    r2: Seq<PathData>,
)
    requires
        is_version_list(r1, candidates),
        is_version_list(r2, candidates),
    ensures
        fingerprints(r1).to_multiset() == fingerprints(r2).to_multiset(),
{
    let f1 = fingerprints(r1);
    let f2 = fingerprints(r2);
    assert(f1.no_duplicates());
    assert(f2.no_duplicates());
    assert forall|x: (i128, u64)| f1.contains(x) implies f2.contains(x) by {
        let i = choose|i: int| 0 <= i < f1.len() && f1[i] == x;
        assert(candidates.contains(r1[i]));
        let j = choose|j: int| 0 <= j < candidates.len() && candidates[j] == r1[i];
        assert(!candidates[j].is_phantom);
        assert(has_fingerprint(r2, x));
        let k = choose|k: int| 0 <= k < r2.len() && fingerprint(#[trigger] r2[k]) == x;
        assert(f2[k] == x);
    }
    assert forall|x: (i128, u64)| f2.contains(x) implies f1.contains(x) by {
        let i = choose|i: int| 0 <= i < f2.len() && f2[i] == x;
        assert(candidates.contains(r2[i]));
        let j = choose|j: int| 0 <= j < candidates.len() && candidates[j] == r2[i];
        assert(!candidates[j].is_phantom);
        assert(has_fingerprint(r1, x));
        let k = choose|k: int| 0 <= k < r1.len() && fingerprint(#[trigger] r1[k]) == x;
        assert(f1[k] == x);
    }
    f1.lemma_multiset_has_no_duplicates();
    f2.lemma_multiset_has_no_duplicates();
    assert forall|x: (i128, u64)| f1.to_multiset().count(x) == f2.to_multiset().count(x) by {
        if f1.contains(x) {
            assert(f1.to_multiset().contains(x));
            assert(f2.to_multiset().contains(x));
        } else {
            assert(f1.to_multiset().count(x) == 0);
            assert(f2.to_multiset().count(x) == 0);
        }
    }
    assert(f1.to_multiset() =~= f2.to_multiset());
}

/// Two existing candidates with the same modification time and size give exactly one
/// version, whatever their paths.
pub proof fn lemma_same_fingerprint_collapses(
    candidates: Seq<PathData>,
    r: Seq<PathData>,
    a: int,
    b: int,
)
    requires
        is_version_list(r, candidates),
        0 <= a < candidates.len(),
        0 <= b < candidates.len(),
        !candidates[a].is_phantom,
        !candidates[b].is_phantom,
        fingerprint(candidates[a]) == fingerprint(candidates[b]),
    ensures
        exists|i: int|
            0 <= i < r.len() && fingerprint(r[i]) == fingerprint(candidates[b]) && forall|j: int|
                0 <= j < r.len() && fingerprint(#[trigger] r[j]) == fingerprint(candidates[a])
                    ==> j == i,
{
    assert(has_fingerprint(r, fingerprint(candidates[a])));
    let i = choose|i: int| 0 <= i < r.len() && fingerprint(#[trigger] r[i]) == fingerprint(candidates[a]);
    assert forall|j: int|
        0 <= j < r.len() && fingerprint(#[trigger] r[j]) == fingerprint(candidates[a]) implies j
        == i by {
        if j < i {
            assert(fingerprint(r[j]) != fingerprint(r[i]));
        } else if i < j {
            assert(fingerprint(r[i]) != fingerprint(r[j]));
        }
    }
}

/// The root, the one path that is its own parent, resolves whenever the root is a mount
/// point of the table.
pub proof fn lemma_root_resolves(table: Seq<(String, String)>, i: int)
    requires
        0 <= i < table.len(),
        mount_at(table, i) == seq!['/'],
    ensures
        has_qualifying_dataset(table, seq!['/']),
{
    let root = seq!['/'];
    assert(trim_trailing_slashes(root) == root);
    assert(last_slash(root) == 0);
    assert(parent_dir(root) == root);
    assert(root.subrange(0, 1) =~= root);
    assert(qualifies(table, i, root));
}

} // verus!
