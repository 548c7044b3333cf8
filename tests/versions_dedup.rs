use httm_core::deleted::{get_deleted, get_deleted_per_dataset};
use httm_core::versions::{merge_versions, snapshot_version_paths, unique_versions};
use httm_core::{Config, PathData, SnapPoint};

fn entry(path: &str, time: i128, size: u64) -> PathData {
    PathData::new(path.to_string(), time, size, false)
}

fn fingerprints(v: &[PathData]) -> Vec<(i128, u64)> {
    v.iter().map(|p| (p.system_time, p.size)).collect()
}

#[test]
fn identical_fingerprints_collapse_to_one() {
    let c = vec![
        entry("/.zfs/snapshot/a/f", 10, 5),
        entry("/.zfs/snapshot/b/other_name", 10, 5),
    ];
    let r = unique_versions(&c);
    assert_eq!(r.len(), 1);
    assert_eq!(fingerprints(&r), vec![(10, 5)]);
}

#[test]
fn versions_sorted_and_phantoms_dropped() {
    let c = vec![
        entry("/s/3/f", 30, 1),
        PathData::phantom("/s/0/f".to_string()),
        entry("/s/1/f", 10, 1),
        entry("/s/2/f", 20, 2),
        entry("/s/4/f", 20, 2),
    ];
    let r = unique_versions(&c);
    assert_eq!(fingerprints(&r), vec![(10, 1), (20, 2), (30, 1)]);
    assert!(r.iter().all(|p| !p.is_phantom));
}

#[test]
fn same_time_different_size_are_distinct() {
    let c = vec![entry("/s/1/f", 10, 1), entry("/s/2/f", 10, 2)];
    assert_eq!(unique_versions(&c).len(), 2);
}

#[test]
fn empty_candidates_give_no_version() {
    assert!(unique_versions(&Vec::new()).is_empty());
}

#[test]
fn enumeration_twice_gives_same_versions() {
    let c = vec![entry("/s/b/f", 20, 2), entry("/s/a/f", 10, 1), entry("/s/c/f", 20, 2)];
    let mut a = fingerprints(&unique_versions(&c));
    let mut b = fingerprints(&unique_versions(&c));
    a.sort();
    b.sort();
    assert_eq!(a, b);
}

#[test]
fn merge_deduplicates_across_datasets() {
    let a = vec![entry("/.zfs/snapshot/s1/f", 10, 1), entry("/.zfs/snapshot/s2/f", 20, 1)];
    let b = vec![entry("/tank/.zfs/snapshot/s1/f", 10, 1), entry("/tank/.zfs/snapshot/s3/f", 5, 1)];
    assert_eq!(fingerprints(&merge_versions(&a, &b)), vec![(5, 1), (10, 1), (20, 1)]);
}

#[test]
fn snapshot_paths_join_relative_path() {
    let dirs = vec!["/home/.zfs/snapshot/s1".to_string(), "/home/.zfs/snapshot/s2".to_string()];
    assert_eq!(
        snapshot_version_paths(&dirs, "alice/a.txt"),
        vec![
            "/home/.zfs/snapshot/s1/alice/a.txt".to_string(),
            "/home/.zfs/snapshot/s2/alice/a.txt".to_string()
        ]
    );
}

fn names(v: &[PathData]) -> Vec<String> {
    let mut n: Vec<String> = v.iter().map(|p| p.path_buf.rsplit('/').next().unwrap().to_string()).collect();
    n.sort();
    n
}

#[test]
fn deleted_files_are_snapshot_names_not_live() {
    let live = vec!["a".to_string(), "b".to_string()];
    let snaps = vec![
        ("a".to_string(), entry("/d/.zfs/snapshot/s1/a", 1, 1)),
        ("b".to_string(), entry("/d/.zfs/snapshot/s1/b", 2, 1)),
        ("c".to_string(), entry("/d/.zfs/snapshot/s1/c", 3, 1)),
        ("a".to_string(), entry("/d/.zfs/snapshot/s2/a", 4, 1)),
        ("c".to_string(), entry("/d/.zfs/snapshot/s2/c", 3, 1)),
        ("d".to_string(), entry("/d/.zfs/snapshot/s2/d", 5, 1)),
    ];
    let r = get_deleted_per_dataset(&live, &snaps);
    assert_eq!(names(&r), vec!["c".to_string(), "d".to_string()]);
}

#[test]
fn deleted_empty_when_all_live() {
    let live = vec!["a".to_string()];
    let snaps = vec![("a".to_string(), entry("/d/.zfs/snapshot/s1/a", 1, 1))];
    assert!(get_deleted_per_dataset(&live, &snaps).is_empty());
}

fn config(alt: bool) -> Config {
    Config {
        snap_point: SnapPoint::Native(vec![("rpool".to_string(), "/".to_string())]),
        opt_alt_replicated: alt,
        opt_no_live_vers: false,
        opt_recursive: false,
        requested_dir: entry("/d", 0, 0),
    }
}

#[test]
fn deleted_merged_across_replica() {
    let a = vec![entry("/.zfs/snapshot/s1/d/c", 3, 1)];
    let b = vec![entry("/tank/.zfs/snapshot/s1/d/c", 3, 1), entry("/tank/.zfs/snapshot/s1/d/e", 1, 1)];
    let merged: Result<Vec<PathData>, String> = get_deleted(&config(true), Ok(a.clone()), Ok(b.clone()));
    assert_eq!(fingerprints(&merged.unwrap()), vec![(1, 1), (3, 1)]);
    let own: Result<Vec<PathData>, String> = get_deleted(&config(false), Ok(a), Ok(b));
    assert_eq!(fingerprints(&own.unwrap()), vec![(3, 1)]);
}

#[test]
fn deleted_search_failure_is_reported() {
    let a = vec![entry("/.zfs/snapshot/s1/d/c", 3, 1)];
    let failed: Result<Vec<PathData>, String> =
        get_deleted(&config(false), Err("unreadable".to_string()), Ok(Vec::new()));
    assert_eq!(failed.unwrap_err(), "unreadable");
    let alt_failed: Result<Vec<PathData>, String> =
        get_deleted(&config(true), Ok(a.clone()), Err("no replica".to_string()));
    assert_eq!(alt_failed.unwrap_err(), "no replica");
    let ignored: Result<Vec<PathData>, String> =
        get_deleted(&config(false), Ok(a), Err("no replica".to_string()));
    assert_eq!(fingerprints(&ignored.unwrap()), vec![(3, 1)]);
}
