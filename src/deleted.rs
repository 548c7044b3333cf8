//! Files that some snapshot of a directory holds and the live directory does not.
use crate::types::{Config, PathData};
use crate::versions::{has_fingerprint, is_version_list, merge_versions, unique_versions, fingerprints_distinct, sorted_by_time};
use vstd::prelude::*;

verus! {

/// No live name equals `name`.
pub open spec fn absent_from(live_names: Seq<String>, name: Seq<char>) -> bool {
    forall|l: int| 0 <= l < live_names.len() ==> (#[trigger] live_names[l])@ != name
}

/// Snapshot entry `j` is the one kept for its file name (no later entry has that name),
/// and no live entry has that name.
pub open spec fn is_deleted_entry(
    live_names: Seq<String>,
    snap_entries: Seq<(String, PathData)>,
    j: int,
) -> bool {
    &&& 0 <= j < snap_entries.len()
    &&& forall|k: int| j < k < snap_entries.len() ==> (#[trigger] snap_entries[k]).0@ != snap_entries[j].0@
    &&& absent_from(live_names, snap_entries[j].0@)
}

/// `p` is the entry of some deleted snapshot entry.
pub open spec fn is_deleted_version(
    live_names: Seq<String>,
    snap_entries: Seq<(String, PathData)>,
    p: PathData,
) -> bool {
    exists|j: int| is_deleted_entry(live_names, snap_entries, j) && snap_entries[j].1 == p
}

/// Whether no live name equals `name`.
fn is_absent(live_names: &Vec<String>, name: &String) -> (r: bool)
    ensures
        r == absent_from(live_names@, name@),
{
    let mut l: usize = 0;
    while l < live_names.len()
        invariant
            0 <= l <= live_names@.len(),
            forall|m: int| 0 <= m < l ==> (#[trigger] live_names@[m])@ != name@,
        decreases live_names.len() - l,
    {
        if live_names[l] == *name {
            return false;
        }
        l = l + 1;
    }
    true
}

/// Whether no snapshot entry after `j` has the name of entry `j`.
fn is_last_of_name(snap_entries: &Vec<(String, PathData)>, j: usize) -> (r: bool)
    requires
        j < snap_entries@.len(),
    ensures
        r == forall|k: int|
            j < k < snap_entries@.len() ==> (#[trigger] snap_entries@[k]).0@ != snap_entries@[j as int].0@,
{
    let n = snap_entries.len();
    let mut k: usize = j + 1;
    while k < n
        invariant
            n == snap_entries@.len(),
            j < k <= n,
            forall|m: int| j < m < k ==> (#[trigger] snap_entries@[m]).0@ != snap_entries@[j as int].0@,
        decreases n - k,
    {
        if snap_entries[k].0 == snap_entries[j].0 {
            assert(snap_entries@[k as int].0@ == snap_entries@[j as int].0@);
            return false;
        }
        k = k + 1;
    }
    true
}

/// The deleted files of one directory in one dataset: `live_names` lists the live
/// directory, and `snap_entries` lists, as `(file name, entry)`, what the directory held
/// in each snapshot. For each file name the last snapshot entry is kept; those whose
/// name is not live are the deleted ones, of which the distinct versions are returned,
/// ordered by modification time.
pub fn get_deleted_per_dataset(
    live_names: &Vec<String>,
    snap_entries: &Vec<(String, PathData)>,
) -> (r: Vec<PathData>)
    ensures
        forall|i: int|
            0 <= i < r@.len() ==> is_deleted_version(live_names@, snap_entries@, #[trigger] r@[i]),
        forall|j: int|
            is_deleted_entry(live_names@, snap_entries@, j) && !(#[trigger] snap_entries@[j]).1.is_phantom
                ==> has_fingerprint(r@, crate::types::fingerprint(snap_entries@[j].1)),
        forall|i: int| 0 <= i < r@.len() ==> !(#[trigger] r@[i]).is_phantom,
        fingerprints_distinct(r@),
        sorted_by_time(r@),
{
    let mut deleted: Vec<PathData> = Vec::new();
    let mut j: usize = 0;
    while j < snap_entries.len()
        invariant
            0 <= j <= snap_entries@.len(),
            forall|i: int|
                0 <= i < deleted@.len() ==> is_deleted_version(
                    live_names@,
                    snap_entries@,
                    #[trigger] deleted@[i],
                ),
            forall|j2: int|
                0 <= j2 < j && is_deleted_entry(live_names@, snap_entries@, j2) ==> deleted@.contains(
                    (#[trigger] snap_entries@[j2]).1,
                ),
        decreases snap_entries.len() - j,
    {
        let ghost before = deleted@;
        if is_last_of_name(snap_entries, j) && is_absent(live_names, &snap_entries[j].0) {
            deleted.push(snap_entries[j].1.duplicate());
            proof {
                assert(deleted@[before.len() as int] == snap_entries@[j as int].1);
                assert forall|i: int| 0 <= i < deleted@.len() implies is_deleted_version(
                    live_names@,
                    snap_entries@,
                    #[trigger] deleted@[i],
                ) by {
                    if i < before.len() {
                        assert(deleted@[i] == before[i]);
                    } else {
                        assert(is_deleted_entry(live_names@, snap_entries@, j as int));
                    }
                }
                assert forall|j2: int|
                    0 <= j2 <= j && is_deleted_entry(live_names@, snap_entries@, j2) implies deleted@.contains(
                    (#[trigger] snap_entries@[j2]).1,
                ) by {
                    if j2 < j {
                        let p = choose|p: int| 0 <= p < before.len() && before[p] == snap_entries@[j2].1;
                        assert(deleted@[p] == before[p]);
                    } else {
                        assert(deleted@[before.len() as int] == snap_entries@[j2].1);
                    }
                }
            }
        }
        j = j + 1;
    }
    let r = unique_versions(&deleted);
    proof {
        assert forall|i: int| 0 <= i < r@.len() implies is_deleted_version(
            live_names@,
            snap_entries@,
            #[trigger] r@[i],
        ) by {
            assert(deleted@.contains(r@[i]));
            let p = choose|p: int| 0 <= p < deleted@.len() && deleted@[p] == r@[i];
            assert(is_deleted_version(live_names@, snap_entries@, deleted@[p]));
        }
        assert forall|j: int|
            is_deleted_entry(live_names@, snap_entries@, j) && !(#[trigger] snap_entries@[j]).1.is_phantom
                implies has_fingerprint(r@, crate::types::fingerprint(snap_entries@[j].1)) by {
            assert(deleted@.contains(snap_entries@[j].1));
            let p = choose|p: int| 0 <= p < deleted@.len() && deleted@[p] == snap_entries@[j].1;
            assert(!deleted@[p].is_phantom);
        }
    }
    r
}

/// The deleted files of a directory over the datasets searched: those found in its own
/// dataset or, when replicas are searched, merged by fingerprint with those found in the
/// replica. A search that failed (its dataset not resolved, or a directory at its top not
/// listed) fails the whole, with its error; the replica's is read only when replicas are
/// searched.
pub fn get_deleted<E>(
    config: &Config,
    immediate_deleted: Result<Vec<PathData>, E>,
    alt_replicated_deleted: Result<Vec<PathData>, E>,
) -> (r: Result<Vec<PathData>, E>)
    ensures
        match immediate_deleted {
            Err(e) => r == Err::<Vec<PathData>, E>(e),
            Ok(imm) => if !config.opt_alt_replicated {
                r is Ok && r->Ok_0@ == imm@
            } else {
                match alt_replicated_deleted {
                    Err(e) => r == Err::<Vec<PathData>, E>(e),
                    Ok(alt) => r is Ok && is_version_list(r->Ok_0@, imm@ + alt@),
                }
            },
        },
{
    let imm = match immediate_deleted {
        Ok(v) => v,
        Err(e) => {
            return Err(e);
        },
    };
    if !config.opt_alt_replicated {
        return Ok(imm);
    }
    match alt_replicated_deleted {
        Ok(alt) => Ok(merge_versions(&imm, &alt)),
        Err(e) => Err(e),
    }
}

} // verus!
