use httm_core::lookup::{get_alt_replicated_dataset, get_immediate_dataset, get_search_dirs, lookup_exec};
use httm_core::types::RootHint;
use httm_core::{Config, HttmError, PathData, SnapPoint, UserDefinedDirs};

fn table(rows: &[(&str, &str)]) -> Vec<(String, String)> {
    rows.iter().map(|(fs, m)| (fs.to_string(), m.to_string())).collect()
}

fn live(path: &str) -> PathData {
    PathData::new(path.to_string(), 100, 10, false)
}

fn native_config(rows: &[(&str, &str)], alt: bool) -> Config {
    Config {
        snap_point: SnapPoint::Native(table(rows)),
        opt_alt_replicated: alt,
        opt_no_live_vers: false,
        opt_recursive: false,
        requested_dir: live("/"),
    }
}

#[test]
fn immediate_dataset_prefers_longest_mount() {
    let t = table(&[("rpool", "/"), ("rpool/usr", "/usr"), ("rpool/usr/bin", "/usr/bin")]);
    assert_eq!(get_immediate_dataset(&live("/usr/bin/ls"), &t), Ok("/usr/bin".to_string()));
    assert_eq!(get_immediate_dataset(&live("/usr/lib/x"), &t), Ok("/usr".to_string()));
    assert_eq!(get_immediate_dataset(&live("/home/a"), &t), Ok("/".to_string()));
}

#[test]
fn immediate_dataset_ignores_textual_non_component_prefix() {
    let t = table(&[("rpool", "/"), ("rpool/us", "/us")]);
    assert_eq!(get_immediate_dataset(&live("/usr/x"), &t), Ok("/".to_string()));
}

#[test]
fn immediate_dataset_none_qualifies() {
    let t = table(&[("tank", "/tank")]);
    assert_eq!(get_immediate_dataset(&live("/home/a"), &t), Err(HttmError::NoQualifyingDataset));
}

#[test]
fn root_path_resolves_to_root_mount() {
    let t = table(&[("rpool", "/")]);
    assert_eq!(get_immediate_dataset(&live("/"), &t), Ok("/".to_string()));
}

#[test]
fn mount_point_itself_resolves_through_its_parent() {
    let t = table(&[("rpool", "/"), ("rpool/usr", "/usr")]);
    assert_eq!(get_immediate_dataset(&live("/usr"), &t), Ok("/".to_string()));
}

#[test]
fn alternate_replica_found_by_name_suffix() {
    let t = table(&[("rpool", "/"), ("tank/rpool", "/tank/rpool"), ("tank", "/tank")]);
    assert_eq!(
        get_alt_replicated_dataset(&"/".to_string(), &t),
        Ok(("/tank/rpool".to_string(), "/".to_string()))
    );
}

#[test]
fn alternate_replica_prefers_longest_name() {
    let t = table(&[("data", "/data"), ("tank/data", "/tank/data"), ("backup/tank/data", "/backup/data")]);
    assert_eq!(
        get_alt_replicated_dataset(&"/data".to_string(), &t),
        Ok(("/backup/data".to_string(), "/data".to_string()))
    );
}

#[test]
fn alternate_replica_is_never_the_input() {
    let t = table(&[("rpool", "/"), ("tank", "/tank")]);
    assert_eq!(get_alt_replicated_dataset(&"/".to_string(), &t), Err(HttmError::NoAlternateReplica));
}

#[test]
fn alternate_replica_unknown_mount() {
    let t = table(&[("rpool", "/")]);
    assert_eq!(get_alt_replicated_dataset(&"/mnt".to_string(), &t), Err(HttmError::NoAlternateReplica));
}

#[test]
fn search_dirs_native() {
    let c = native_config(&[("rpool", "/"), ("rpool/home", "/home")], false);
    assert_eq!(
        get_search_dirs(&c, &live("/home/alice/notes.txt"), false),
        Ok(("/home/.zfs/snapshot".to_string(), "alice/notes.txt".to_string()))
    );
}

#[test]
fn search_dirs_alternate_keeps_immediate_relative_path() {
    let c = native_config(&[("rpool/home", "/home"), ("tank/rpool/home", "/tank/home")], true);
    assert_eq!(
        get_search_dirs(&c, &live("/home/alice/notes.txt"), true),
        Ok(("/tank/home/.zfs/snapshot".to_string(), "alice/notes.txt".to_string()))
    );
}

#[test]
fn search_dirs_round_trip() {
    let c = native_config(&[("rpool", "/"), ("rpool/home", "/home")], false);
    let (_, rel) = get_search_dirs(&c, &live("/home/alice/notes.txt"), false).unwrap();
    assert_eq!(httm_core::paths::join("/home", &rel), "/home/alice/notes.txt");
}

#[test]
fn search_dirs_user_defined() {
    let c = Config {
        snap_point: SnapPoint::UserDefined(UserDefinedDirs {
            snap_dir: "/mnt/backup".to_string(),
            local_dir: "/home".to_string(),
        }),
        opt_alt_replicated: false,
        opt_no_live_vers: false,
        opt_recursive: false,
        requested_dir: live("/"),
    };
    assert_eq!(
        get_search_dirs(&c, &live("/home/alice/a.txt"), false),
        Ok(("/mnt/backup/.zfs/snapshot".to_string(), "alice/a.txt".to_string()))
    );
    assert_eq!(
        get_search_dirs(&c, &live("/etc/hosts"), false),
        Err(HttmError::PathNotUnderSnapshotRoot(RootHint::LocalDir))
    );
}

#[test]
fn search_dirs_native_errors() {
    let c = native_config(&[("tank", "/tank")], false);
    assert_eq!(get_search_dirs(&c, &live("/home/a"), false), Err(HttmError::NoQualifyingDataset));
    let c = native_config(&[("rpool", "/")], true);
    assert_eq!(get_search_dirs(&c, &live("/home/a"), true), Err(HttmError::NoAlternateReplica));
}

type Search = (Option<Vec<PathData>>, Option<Vec<PathData>>);

fn snap(path: &str, time: i128, size: u64) -> PathData {
    PathData::new(path.to_string(), time, size, false)
}

#[test]
fn lookup_fails_when_nothing_exists() {
    let c = native_config(&[("rpool", "/")], false);
    let paths = vec![PathData::phantom("/home/typo".to_string())];
    let searches: Vec<Search> = vec![(Some(Vec::new()), None)];
    assert_eq!(lookup_exec(&c, &paths, &searches).unwrap_err(), HttmError::NoVersionsFound);
    let failed: Vec<Search> = vec![(None, None)];
    assert_eq!(lookup_exec(&c, &paths, &failed).unwrap_err(), HttmError::NoVersionsFound);
}

#[test]
fn lookup_reports_snapshots_and_live() {
    let c = native_config(&[("rpool", "/")], false);
    let paths = vec![live("/home/a")];
    let searches: Vec<Search> = vec![(Some(vec![snap("/.zfs/snapshot/s1/home/a", 50, 9)]), None)];
    let [s, l] = lookup_exec(&c, &paths, &searches).unwrap();
    assert_eq!(s.len(), 1);
    assert_eq!(s[0].path_buf, "/.zfs/snapshot/s1/home/a");
    assert_eq!(l.len(), 1);
    assert_eq!(l[0].path_buf, "/home/a");
}

#[test]
fn lookup_without_live_versions() {
    let mut c = native_config(&[("rpool", "/")], false);
    c.opt_no_live_vers = true;
    let paths = vec![live("/home/a")];
    let none: Vec<Search> = vec![(Some(Vec::new()), None)];
    let [s, l] = lookup_exec(&c, &paths, &none).unwrap();
    assert!(s.is_empty());
    assert!(l.is_empty());
    let searches: Vec<Search> = vec![(Some(vec![snap("/.zfs/snapshot/s1/home/a", 50, 9)]), None)];
    let [s, l] = lookup_exec(&c, &paths, &searches).unwrap();
    assert_eq!(s.len(), 1);
    assert!(l.is_empty());
}

#[test]
fn phantom_live_with_snapshot_is_found() {
    let c = native_config(&[("rpool", "/")], false);
    let paths = vec![PathData::phantom("/home/gone".to_string())];
    let searches: Vec<Search> = vec![(Some(vec![snap("/.zfs/snapshot/s1/home/gone", 50, 9)]), None)];
    assert!(lookup_exec(&c, &paths, &searches).is_ok());
}

#[test]
fn lookup_failed_search_does_not_abort_others() {
    let c = native_config(&[("rpool", "/")], false);
    let paths = vec![live("/nowhere/p"), live("/home/q")];
    let searches: Vec<Search> = vec![
        (None, None),
        (Some(vec![snap("/.zfs/snapshot/s1/home/q", 20, 1), snap("/.zfs/snapshot/s2/home/q", 30, 1)]), None),
    ];
    let [s, _] = lookup_exec(&c, &paths, &searches).unwrap();
    let fps: Vec<(i128, u64)> = s.iter().map(|p| (p.system_time, p.size)).collect();
    assert_eq!(fps, vec![(20, 1), (30, 1)]);
}

#[test]
fn lookup_merges_replica_versions_by_fingerprint() {
    let c = native_config(&[("rpool", "/")], true);
    let paths = vec![live("/home/q")];
    let searches: Vec<Search> = vec![(
        Some(vec![snap("/.zfs/snapshot/s1/home/q", 20, 1), snap("/.zfs/snapshot/s2/home/q", 30, 1)]),
        Some(vec![snap("/tank/.zfs/snapshot/s1/home/q", 20, 1), snap("/tank/.zfs/snapshot/s0/home/q", 10, 1)]),
    )];
    let [s, _] = lookup_exec(&c, &paths, &searches).unwrap();
    let fps: Vec<(i128, u64)> = s.iter().map(|p| (p.system_time, p.size)).collect();
    assert_eq!(fps, vec![(10, 1), (20, 1), (30, 1)]);
}

#[test]
fn lookup_ignores_replica_findings_when_not_asked() {
    let c = native_config(&[("rpool", "/")], false);
    let paths = vec![live("/home/q")];
    let searches: Vec<Search> = vec![(Some(Vec::new()), Some(vec![snap("/tank/.zfs/snapshot/s0/home/q", 10, 1)]))];
    let [s, _] = lookup_exec(&c, &paths, &searches).unwrap();
    assert!(s.is_empty());
}

#[test]
fn error_messages_distinguish_hints() {
    assert_ne!(
        HttmError::PathNotUnderSnapshotRoot(RootHint::LocalDir).message(),
        HttmError::PathNotUnderSnapshotRoot(RootHint::SnapAndLocalDir).message()
    );
}

#[test]
fn replica_names_compared_by_byte_length() {
    // "é/d" and "ab/d" are both four bytes long, so the earlier row is chosen.
    let t = table(&[("d", "/d"), ("é/d", "/e"), ("ab/d", "/ab")]);
    assert_eq!(
        get_alt_replicated_dataset(&"/d".to_string(), &t),
        Ok(("/e".to_string(), "/d".to_string()))
    );
}
