//! From a live path to the place where its snapshot copies live.
use crate::paths::{
    is_path_prefix, join, join_path, parent_dir, parent_of, path_starts_with, strip_path_prefix,
    strip_prefix,
};
use crate::types::{fingerprint, Config, HttmError, PathData, RootHint, SnapPoint};
use crate::versions::{has_fingerprint, is_version_list, merge_versions};
use vstd::prelude::*;

verus! {

/// The length of `s` in bytes, encoded as UTF-8, as `str::len` reports it.
pub open spec fn byte_len(s: Seq<char>) -> usize {
    vstd::utf8::encode_utf8(s).len() as usize
}

/// The mount point of table entry `i`.
pub open spec fn mount_at(table: Seq<(String, String)>, i: int) -> Seq<char> {
    table[i].1@
}

/// The dataset name of table entry `i`.
pub open spec fn name_at(table: Seq<(String, String)>, i: int) -> Seq<char> {
    table[i].0@
}

/// Table entry `i` is a mount point that holds the parent directory of `path`.
pub open spec fn qualifies(table: Seq<(String, String)>, i: int, path: Seq<char>) -> bool {
    0 <= i < table.len() && is_path_prefix(mount_at(table, i), parent_dir(path))
}

/// Some table entry holds the parent directory of `path`.
pub open spec fn has_qualifying_dataset(table: Seq<(String, String)>, path: Seq<char>) -> bool {
    exists|i: int| qualifies(table, i, path)
}

/// Entry `i` is the dataset of `path`: it qualifies, no qualifying mount point is longer,
/// and no earlier qualifying one is as long.
pub open spec fn is_immediate_dataset(table: Seq<(String, String)>, i: int, path: Seq<char>) -> bool {
    &&& qualifies(table, i, path)
    &&& forall|j: int|
        qualifies(table, j, path) ==> byte_len(mount_at(table, j)) <= #[trigger] byte_len(mount_at(table, i))
    &&& forall|j: int|
        0 <= j < i && qualifies(table, j, path) ==> #[trigger] byte_len(mount_at(table, j)) < byte_len(mount_at(table, i))
}

/// The mount point of the dataset that holds `pathdata`: of the table's mount points that
/// are path prefixes of its parent directory, the longest (the first of equal length).
pub fn get_immediate_dataset(pathdata: &PathData, mount_collection: &Vec<(String, String)>) -> (r:
    Result<String, HttmError>)
    ensures
        match r {
            Ok(m) => exists|i: int|
                is_immediate_dataset(mount_collection@, i, pathdata.path_buf@) && m@ == mount_at(
                    mount_collection@,
                    i,
                ),
            Err(e) => e == HttmError::NoQualifyingDataset && !has_qualifying_dataset(
                mount_collection@,
                pathdata.path_buf@,
            ),
        },
{
    let ghost table = mount_collection@;
    let ghost path = pathdata.path_buf@;
    let parent_folder = parent_of(pathdata.path_buf.as_str());
    let mut best: Option<usize> = None;
    let mut i: usize = 0;
    while i < mount_collection.len()
        invariant
            table == mount_collection@,
            parent_folder@ == parent_dir(path),
            0 <= i <= table.len(),
            match best {
                Some(b) => {
                    &&& b < i
                    &&& qualifies(table, b as int, path)
                    &&& forall|j: int|
                        0 <= j < i && qualifies(table, j, path) ==> byte_len(mount_at(table, j))
                            <= #[trigger] byte_len(mount_at(table, b as int))
                    &&& forall|j: int|
                        0 <= j < b && qualifies(table, j, path) ==> #[trigger] byte_len(mount_at(table, j)) < byte_len(mount_at(table, b as int))
                },
                None => forall|j: int| 0 <= j < i ==> !qualifies(table, j, path),
            },
        decreases mount_collection.len() - i,
    {
        let mount = &mount_collection[i].1;
        if path_starts_with(parent_folder.as_str(), mount.as_str()) {
            match best {
                Some(b) => {
                    let len_i = mount.as_str().len();
                    let len_b = mount_collection[b].1.as_str().len();
                    assert(len_i == byte_len(mount_at(table, i as int)));
                    assert(len_b == byte_len(mount_at(table, b as int)));
                    if len_i > len_b {
                        best = Some(i);
                    }
                },
                None => {
                    best = Some(i);
                },
            }
        }
        i = i + 1;
    }
    match best {
        Some(b) => Ok(mount_collection[b].1.clone()),
        None => Err(HttmError::NoQualifyingDataset),
    }
}

/// `s` ends with `t`.
pub open spec fn ends_with(s: Seq<char>, t: Seq<char>) -> bool {
    t.len() <= s.len() && s.subrange(s.len() - t.len(), s.len() as int) == t
}

/// Entry `i` is the one that the reverse index from mount point to dataset name keeps for
/// its mount point: no later entry has the same mount point.
pub open spec fn kept_by_mount(table: Seq<(String, String)>, i: int) -> bool {
    &&& 0 <= i < table.len()
    &&& forall|j: int| i < j < table.len() ==> mount_at(table, j) != mount_at(table, i)
}

/// Entry `i` is kept by the reverse index and names a replica of the dataset `name`.
pub open spec fn is_replica_of(table: Seq<(String, String)>, i: int, name: Seq<char>) -> bool {
    kept_by_mount(table, i) && ends_with(name_at(table, i), name)
}

/// Entry `i` is the chosen replica of `name`: the one with the longest dataset name, the
/// first of equal length.
pub open spec fn is_chosen_replica(table: Seq<(String, String)>, i: int, name: Seq<char>) -> bool {
    &&& is_replica_of(table, i, name)
    &&& forall|j: int|
        is_replica_of(table, j, name) ==> byte_len(name_at(table, j)) <= #[trigger] byte_len(name_at(table, i))
    &&& forall|j: int|
        0 <= j < i && is_replica_of(table, j, name) ==> #[trigger] byte_len(name_at(table, j))
            < byte_len(name_at(table, i))
}

/// The reverse index finds `mount` at entry `k`, and the replica chosen for that entry's
/// dataset is mounted somewhere else, at entry `i`.
pub open spec fn has_alternate_at(
    table: Seq<(String, String)>,
    mount: Seq<char>,
    k: int,
    i: int,
) -> bool {
    &&& kept_by_mount(table, k)
    &&& mount_at(table, k) == mount
    &&& is_chosen_replica(table, i, name_at(table, k))
    &&& mount_at(table, i) != mount
}

/// Whether `s` ends with `t`.
pub fn str_ends_with(s: &str, t: &str) -> (r: bool)
    ensures
        r == ends_with(s@, t@),
{
    let slen = s.unicode_len();
    let tlen = t.unicode_len();
    if tlen > slen {
        return false;
    }
    let off: usize = slen - tlen;
    let mut i: usize = 0;
    while i < tlen
        invariant
            slen == s@.len(),
            tlen == t@.len(),
            off + tlen == slen,
            0 <= i <= tlen,
            forall|j: int| 0 <= j < i ==> s@[off + j] == t@[j],
        decreases tlen - i,
    {
        if s.get_char(off + i) != t.get_char(i) {
            assert(s@.subrange(off as int, slen as int)[i as int] != t@[i as int]);
            return false;
        }
        i = i + 1;
    }
    assert(s@.subrange(off as int, slen as int) =~= t@);
    true
}

/// Whether no entry after `i` has the mount point of entry `i`.
fn is_kept_by_mount(table: &Vec<(String, String)>, i: usize) -> (r: bool)
    requires
        i < table@.len(),
    ensures
        r == kept_by_mount(table@, i as int),
{
    let n = table.len();
    let mut j: usize = i + 1;
    while j < n
        invariant
            n == table@.len(),
            i < j <= table@.len(),
            forall|k: int| i < k < j ==> mount_at(table@, k) != mount_at(table@, i as int),
        decreases n - j,
    {
        if table[j].1 == table[i].1 {
            assert(mount_at(table@, j as int) == mount_at(table@, i as int));
            return false;
        }
        j = j + 1;
    }
    true
}

/// A replica of the dataset mounted at `immediate_dataset_snap_mount`, mounted elsewhere:
/// `(replica mount point, immediate mount point)`.
///
/// The dataset name of the immediate mount point comes from a reverse index of the table
/// (mount point to dataset name, later entries winning). A replica is a dataset whose name
/// ends with that name, such as `tank/rpool` for `rpool`; the longest such name is chosen.
/// The search is one-directional: it finds receiving copies from their source, not the
/// source from a copy. It fails when the mount point is not in the table, or when the
/// chosen replica is the immediate dataset itself.
pub fn get_alt_replicated_dataset(
    immediate_dataset_snap_mount: &String,
    mount_collection: &Vec<(String, String)>,
) -> (r: Result<(String, String), HttmError>)
    ensures
        match r {
            Ok((alt, imm)) => imm@ == immediate_dataset_snap_mount@ && alt@
                != immediate_dataset_snap_mount@ && exists|k: int, i: int|
                has_alternate_at(mount_collection@, immediate_dataset_snap_mount@, k, i)
                    && alt@ == mount_at(mount_collection@, i),
            Err(e) => e == HttmError::NoAlternateReplica && !exists|k: int, i: int|
                has_alternate_at(mount_collection@, immediate_dataset_snap_mount@, k, i),
        },
{
    let ghost table = mount_collection@;
    let ghost mount = immediate_dataset_snap_mount@;
    let n = mount_collection.len();
    let mut found: Option<usize> = None;
    let mut k: usize = 0;
    while k < n
        invariant
            table == mount_collection@,
            n == table.len(),
            mount == immediate_dataset_snap_mount@,
            0 <= k <= n,
            match found {
                Some(f) => f < n && kept_by_mount(table, f as int) && mount_at(table, f as int)
                    == mount,
                None => forall|j: int| 0 <= j < k ==> !(kept_by_mount(table, j) && mount_at(table, j) == mount),
            },
        decreases n - k,
    {
        if found.is_none() && mount_collection[k].1 == *immediate_dataset_snap_mount {
            if is_kept_by_mount(mount_collection, k) {
                assert(mount_at(table, k as int) == mount);
                found = Some(k);
            }
        }
        k = k + 1;
    }
    let k = match found {
        Some(f) => f,
        None => {
            assert forall|k: int, i: int| !has_alternate_at(table, mount, k, i) by {}
            return Err(HttmError::NoAlternateReplica);
        },
    };
    proof {
        assert forall|k2: int| kept_by_mount(table, k2) && mount_at(table, k2) == mount implies k2
            == k by {
            if k2 < k {
                assert(mount_at(table, k as int) != mount_at(table, k2));
            } else if k < k2 {
                assert(mount_at(table, k2) != mount_at(table, k as int));
            }
        }
    }
    let name = &mount_collection[k].0;
    let mut best: Option<usize> = None;
    let mut i: usize = 0;
    while i < n
        invariant
            table == mount_collection@,
            n == table.len(),
            name@ == name_at(table, k as int),
            0 <= i <= n,
            match best {
                Some(b) => {
                    &&& b < i
                    &&& is_replica_of(table, b as int, name@)
                    &&& forall|j: int|
                        0 <= j < i && is_replica_of(table, j, name@) ==> byte_len(name_at(table, j))
                            <= #[trigger] byte_len(name_at(table, b as int))
                    &&& forall|j: int|
                        0 <= j < b && is_replica_of(table, j, name@) ==> #[trigger] byte_len(name_at(table, j)) < byte_len(name_at(table, b as int))
                },
                None => forall|j: int| 0 <= j < i ==> !is_replica_of(table, j, name@),
            },
        decreases n - i,
    {
        if str_ends_with(mount_collection[i].0.as_str(), name.as_str()) && is_kept_by_mount(
            mount_collection,
            i,
        ) {
            match best {
                Some(b) => {
                    let len_i = mount_collection[i].0.as_str().len();
                    let len_b = mount_collection[b].0.as_str().len();
                    assert(len_i == byte_len(name_at(table, i as int)));
                    assert(len_b == byte_len(name_at(table, b as int)));
                    if len_i > len_b {
                        best = Some(i);
                    }
                },
                None => {
                    best = Some(i);
                },
            }
        }
        i = i + 1;
    }
    match best {
        Some(b) => {
            proof {
                assert forall|i2: int| is_chosen_replica(table, i2, name@) implies i2 == b by {
                    if i2 < b {
                        assert(byte_len(name_at(table, i2)) < byte_len(name_at(table, b as int)));
                    } else if b < i2 {
                        assert(byte_len(name_at(table, b as int)) < byte_len(name_at(table, i2)));
                    }
                }
            }
            if mount_collection[b].1 == *immediate_dataset_snap_mount {
                Err(HttmError::NoAlternateReplica)
            } else {
                assert(has_alternate_at(table, mount, k as int, b as int));
                Ok((mount_collection[b].1.clone(), immediate_dataset_snap_mount.clone()))
            }
        },
        None => {
            assert(name_at(table, k as int).subrange(0, name@.len() as int) =~= name@);
            assert(is_replica_of(table, k as int, name@));
            Err(HttmError::NoAlternateReplica)
        },
    }
}

/// The reserved directory under a dataset's mount point that holds one directory per snapshot.
pub open spec fn snapshot_subdir() -> Seq<char> {
    seq!['.', 'z', 'f', 's', '/', 's', 'n', 'a', 'p', 's', 'h', 'o', 't']
}

fn snapshot_subdir_path() -> (r: String)
    ensures
        r@ == snapshot_subdir(),
{
    let r = String::from_str(".zfs/snapshot");
    proof {
        reveal_strlit(".zfs/snapshot");
        assert(".zfs/snapshot"@ =~= snapshot_subdir());
    }
    r
}

/// In mount-table mode the search directories of `path` are `(hidden, rel)`: the path's
/// dataset is entry `i`; the snapshots searched are those of that dataset or, for a replica
/// search, of its replica; `rel` is the path past the immediate dataset's mount point.
pub open spec fn native_search_dirs(
    table: Seq<(String, String)>,
    path: Seq<char>,
    for_alt_replicated: bool,
    hidden: Seq<char>,
    rel: Seq<char>,
) -> bool {
    exists|i: int|
        {
            &&& is_immediate_dataset(table, i, path)
            &&& is_path_prefix(mount_at(table, i), path)
            &&& rel == strip_path_prefix(path, mount_at(table, i))
            &&& if for_alt_replicated {
                exists|k: int, a: int|
                    has_alternate_at(table, mount_at(table, i), k, a) && hidden == join_path(
                        mount_at(table, a),
                        snapshot_subdir(),
                    )
            } else {
                hidden == join_path(mount_at(table, i), snapshot_subdir())
            }
        }
}

/// In mount-table mode the search for `path` fails with `e`.
pub open spec fn native_search_fails(
    table: Seq<(String, String)>,
    path: Seq<char>,
    for_alt_replicated: bool,
    e: HttmError,
) -> bool {
    ||| e == HttmError::NoQualifyingDataset && !has_qualifying_dataset(table, path)
    ||| exists|i: int|
        {
            &&& is_immediate_dataset(table, i, path)
            &&& if for_alt_replicated && !exists|k: int, a: int|
                has_alternate_at(table, mount_at(table, i), k, a) {
                e == HttmError::NoAlternateReplica
            } else {
                &&& !is_path_prefix(mount_at(table, i), path)
                &&& e == HttmError::PathNotUnderSnapshotRoot(RootHint::SnapAndLocalDir)
            }
        }
}

/// The snapshot root to search and the path relative to it, for `file_pathdata`:
/// `(hidden snapshot directory, relative path)`.
pub fn get_search_dirs(config: &Config, file_pathdata: &PathData, for_alt_replicated: bool) -> (r:
    Result<(String, String), HttmError>)
    ensures
        match config.snap_point {
            SnapPoint::UserDefined(dirs) => match r {
                Ok((hidden, rel)) => {
                    &&& hidden@ == join_path(dirs.snap_dir@, snapshot_subdir())
                    &&& is_path_prefix(dirs.local_dir@, file_pathdata.path_buf@)
                    &&& rel@ == strip_path_prefix(file_pathdata.path_buf@, dirs.local_dir@)
                },
                Err(e) => e == HttmError::PathNotUnderSnapshotRoot(RootHint::LocalDir)
                    && !is_path_prefix(dirs.local_dir@, file_pathdata.path_buf@),
            },
            SnapPoint::Native(table) => match r {
                Ok((hidden, rel)) => native_search_dirs(
                    table@,
                    file_pathdata.path_buf@,
                    for_alt_replicated,
                    hidden@,
                    rel@,
                ),
                Err(e) => native_search_fails(
                    table@,
                    file_pathdata.path_buf@,
                    for_alt_replicated,
                    e,
                ),
            },
        },
{
    let file_path = file_pathdata.path_buf.as_str();
    match &config.snap_point {
        SnapPoint::UserDefined(dirs) => {
            let hidden = join(dirs.snap_dir.as_str(), snapshot_subdir_path().as_str());
            match strip_prefix(file_path, dirs.local_dir.as_str()) {
                Some(rel) => Ok((hidden, rel)),
                None => Err(HttmError::PathNotUnderSnapshotRoot(RootHint::LocalDir)),
            }
        },
        SnapPoint::Native(mount_collection) => {
            let immediate = match get_immediate_dataset(file_pathdata, mount_collection) {
                Ok(m) => m,
                Err(e) => {
                    return Err(e);
                },
            };
            let ghost i = choose|i: int|
                is_immediate_dataset(mount_collection@, i, file_pathdata.path_buf@) && immediate@
                    == mount_at(mount_collection@, i);
            let dataset = if for_alt_replicated {
                match get_alt_replicated_dataset(&immediate, mount_collection) {
                    Ok((alt, _)) => alt,
                    Err(e) => {
                        assert(native_search_fails(
                            mount_collection@,
                            file_pathdata.path_buf@,
                            for_alt_replicated,
                            e,
                        ));
                        return Err(e);
                    },
                }
            } else {
                immediate.clone()
            };
            let hidden = join(dataset.as_str(), snapshot_subdir_path().as_str());
            match strip_prefix(file_path, immediate.as_str()) {
                Some(rel) => {
                    assert(native_search_dirs(
                        mount_collection@,
                        file_pathdata.path_buf@,
                        for_alt_replicated,
                        hidden@,
                        rel@,
                    ));
                    Ok((hidden, rel))
                },
                None => {
                    let e = HttmError::PathNotUnderSnapshotRoot(RootHint::SnapAndLocalDir);
                    assert(native_search_fails(
                        mount_collection@,
                        file_pathdata.path_buf@,
                        for_alt_replicated,
                        e,
                    ));
                    Err(e)
                },
            }
        },
    }
}

/// Every entry of `s` is a phantom.
pub open spec fn all_phantom(s: Seq<PathData>) -> bool {
    forall|i: int| 0 <= i < s.len() ==> (#[trigger] s[i]).is_phantom
}

/// The live versions that a lookup reports: the requested paths, unless live versions
/// are switched off.
pub open spec fn reported_live_versions(config: Config, path_data: Seq<PathData>) -> Seq<PathData> {
    if config.opt_no_live_vers {
        Seq::empty()
    } else {
        path_data
    }
}

/// What one search found, or nothing when the path could not be resolved or its
/// snapshot root could not be listed.
pub open spec fn found_or_empty(s: Option<Vec<PathData>>) -> Seq<PathData> {
    match s {
        Some(v) => v@,
        None => Seq::empty(),
    }
}

/// The snapshot entries found for one requested path: those of its own dataset and,
/// when replicas are searched, those of its replica.
pub open spec fn search_candidates(
    config: Config,
    search: (Option<Vec<PathData>>, Option<Vec<PathData>>),
) -> Seq<PathData> {
    found_or_empty(search.0) + if config.opt_alt_replicated {
        found_or_empty(search.1)
    } else {
        Seq::empty()
    }
}

/// The lists of `rs`, one after another.
pub open spec fn concat_all(rs: Seq<Seq<PathData>>) -> Seq<PathData>
    decreases rs.len(),
{
    if rs.len() == 0 {
        Seq::empty()
    } else {
        concat_all(rs.drop_last()) + rs.last()
    }
}

/// `rs` holds, for each requested path, the distinct versions that its searches found.
pub open spec fn is_gathered(
    config: Config,
    searches: Seq<(Option<Vec<PathData>>, Option<Vec<PathData>>)>,
    rs: Seq<Seq<PathData>>,
) -> bool {
    &&& rs.len() == searches.len()
    &&& forall|p: int|
        0 <= p < rs.len() ==> is_version_list(
            #[trigger] rs[p],
            search_candidates(config, searches[p]),
        )
}

/// No search of any requested path found an existing snapshot entry.
pub open spec fn no_snapshot_version(
    config: Config,
    searches: Seq<(Option<Vec<PathData>>, Option<Vec<PathData>>)>,
) -> bool {
    forall|p: int| 0 <= p < searches.len() ==> all_phantom(search_candidates(config, #[trigger] searches[p]))
}

fn copy_found(s: &Option<Vec<PathData>>) -> (r: Vec<PathData>)
    ensures
        r@ == found_or_empty(*s),
{
    let mut r: Vec<PathData> = Vec::new();
    match s {
        Some(v) => {
            let mut i: usize = 0;
            while i < v.len()
                invariant
                    0 <= i <= v@.len(),
                    r@ == v@.subrange(0, i as int),
                decreases v.len() - i,
            {
                r.push(v[i].duplicate());
                i = i + 1;
            }
            assert(r@ =~= v@);
        },
        None => {
            assert(r@ =~= Seq::<PathData>::empty());
        },
    }
    r
}

/// The result of a lookup of `path_data`. `searches` holds, for each requested path,
/// what the search of its own dataset and of its replica found (`None` where the search
/// failed; the replica's is read only when replicas are searched).
///
/// The snapshot versions are, path after path, the distinct versions of that path's
/// findings, merged by fingerprint. The live versions are the requested paths, unless
/// live versions are switched off. The lookup fails with `NoVersionsFound` exactly when
/// no search found an existing entry and every requested path is a phantom.
pub fn lookup_exec(
    config: &Config,
    path_data: &Vec<PathData>,
    searches: &Vec<(Option<Vec<PathData>>, Option<Vec<PathData>>)>,
) -> (r: Result<[Vec<PathData>; 2], HttmError>)
    ensures
        match r {
            Ok(res) => {
                &&& exists|rs: Seq<Seq<PathData>>|
                    is_gathered(*config, searches@, rs) && res[0]@ == concat_all(rs)
                &&& res[1]@ == reported_live_versions(*config, path_data@)
                &&& !(no_snapshot_version(*config, searches@) && all_phantom(path_data@))
            },
            Err(e) => {
                &&& e == HttmError::NoVersionsFound
                &&& no_snapshot_version(*config, searches@)
                &&& all_phantom(path_data@)
            },
        },
{
    let mut snaps: Vec<PathData> = Vec::new();
    let ghost mut rs: Seq<Seq<PathData>> = Seq::empty();
    let mut p: usize = 0;
    while p < searches.len()
        invariant
            0 <= p <= searches@.len(),
            rs.len() == p,
            forall|q: int|
                0 <= q < p ==> is_version_list(
                    #[trigger] rs[q],
                    search_candidates(*config, searches@[q]),
                ),
            snaps@ == concat_all(rs),
            (snaps@.len() == 0) == forall|q: int|
                0 <= q < p ==> all_phantom(search_candidates(*config, #[trigger] searches@[q])),
        decreases searches.len() - p,
    {
        let first = copy_found(&searches[p].0);
        let second = if config.opt_alt_replicated {
            copy_found(&searches[p].1)
        } else {
            Vec::new()
        };
        let ghost cand = search_candidates(*config, searches@[p as int]);
        assert(first@ + second@ =~= cand);
        let merged = merge_versions(&first, &second);
        proof {
            if merged@.len() > 0 {
                assert(cand.contains(merged@[0]));
                assert(!all_phantom(cand));
            }
            if !all_phantom(cand) {
                let j = choose|j: int| 0 <= j < cand.len() && !(#[trigger] cand[j]).is_phantom;
                assert(has_fingerprint(merged@, fingerprint(cand[j])));
            }
        }
        let ghost before = snaps@;
        let mut k: usize = 0;
        while k < merged.len()
            invariant
                0 <= k <= merged@.len(),
                snaps@ == before + merged@.subrange(0, k as int),
            decreases merged.len() - k,
        {
            snaps.push(merged[k].duplicate());
            k = k + 1;
        }
        proof {
            let old_rs = rs;
            rs = rs.push(merged@);
            assert(rs.drop_last() =~= old_rs);
            assert(snaps@ =~= concat_all(rs));
            assert forall|q: int|
                0 <= q <= p implies is_version_list(
                #[trigger] rs[q],
                search_candidates(*config, searches@[q]),
            ) by {
                if q < p {
                    assert(rs[q] == old_rs[q]);
                }
            }
        }
        p = p + 1;
    }
    let mut all_phantom_paths = true;
    let mut i: usize = 0;
    while i < path_data.len()
        invariant
            0 <= i <= path_data@.len(),
            all_phantom_paths == forall|j: int| 0 <= j < i ==> (#[trigger] path_data@[j]).is_phantom,
        decreases path_data.len() - i,
    {
        if !path_data[i].is_phantom {
            all_phantom_paths = false;
        }
        i = i + 1;
    }
    if snaps.len() == 0 && all_phantom_paths {
        return Err(HttmError::NoVersionsFound);
    }
    let live_versions = if config.opt_no_live_vers {
        let v: Vec<PathData> = Vec::new();
        assert(v@ =~= Seq::<PathData>::empty());
        v
    } else {
        let mut v: Vec<PathData> = Vec::new();
        let mut i: usize = 0;
        while i < path_data.len()
            invariant
                0 <= i <= path_data@.len(),
                v@ == path_data@.subrange(0, i as int),
            decreases path_data.len() - i,
        {
            v.push(path_data[i].duplicate());
            i = i + 1;
        }
        assert(v@ =~= path_data@);
        v
    };
    assert(is_gathered(*config, searches@, rs));
    let r = [snaps, live_versions];
    assert(r[0]@ == concat_all(rs));
    Ok(r)
}

} // verus!
