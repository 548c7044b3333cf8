use vstd::prelude::*;

verus! {

/// One observed filesystem entry, live or inside a snapshot.
///
/// `system_time` is the modification time in nanoseconds relative to the Unix epoch.
#[derive(Clone, Debug)]
pub struct PathData {
    pub path_buf: String,
    pub system_time: i128,
    pub size: u64,
    pub is_phantom: bool,
}

/// The version fingerprint of an entry: its modification time and its size.
/// Two entries are the same version exactly when their fingerprints agree.
pub open spec fn fingerprint(p: PathData) -> (i128, u64) {
    (p.system_time, p.size)
}

impl PathData {
    pub fn new(path_buf: String, system_time: i128, size: u64, is_phantom: bool) -> (r: PathData)
        ensures
            r.path_buf@ == path_buf@,
            r.system_time == system_time,
            r.size == size,
            r.is_phantom == is_phantom,
    {
        PathData { path_buf, system_time, size, is_phantom }
    }

    /// An entry for a path that did not resolve to anything on disk.
    pub fn phantom(path_buf: String) -> (r: PathData)
        ensures
            r.path_buf@ == path_buf@,
            r.system_time == 0,
            r.size == 0,
            r.is_phantom,
    {
        PathData { path_buf, system_time: 0, size: 0, is_phantom: true }
    }

    /// A field-by-field copy.
    pub fn duplicate(&self) -> (r: PathData)
        ensures
            r == *self,
    {
        PathData {
            path_buf: self.path_buf.clone(),
            system_time: self.system_time,
            size: self.size,
            is_phantom: self.is_phantom,
        }
    }

    /// Whether two entries are the same version.
    pub fn same_version(&self, other: &PathData) -> (r: bool)
        ensures
            r == (fingerprint(*self) == fingerprint(*other)),
    {
        self.system_time == other.system_time && self.size == other.size
    }
}

/// Snapshot and live roots given explicitly.
#[derive(Clone, Debug)]
pub struct UserDefinedDirs {
    pub snap_dir: String,
    pub local_dir: String,
}

/// How the snapshot location of a path is found.
#[derive(Clone, Debug)]
pub enum SnapPoint {
    /// Infer the dataset from a mount table of `(dataset name, mount point)` pairs.
    Native(Vec<(String, String)>),
    /// Use the given snapshot root and live root.
    UserDefined(UserDefinedDirs),
}

/// The options that a lookup reads.
#[derive(Clone, Debug)]
pub struct Config {
    pub snap_point: SnapPoint,
    pub opt_alt_replicated: bool,
    pub opt_no_live_vers: bool,
    pub opt_recursive: bool,
    pub requested_dir: PathData,
}

/// Which of the two explicit roots was probably misconfigured.
#[derive(Clone, Copy, Debug, PartialEq, Eq, Structural)]
pub enum RootHint {
    /// The mount-table mode could not place the path under its dataset.
    SnapAndLocalDir,
    /// The explicit mode could not place the path under the live root.
    LocalDir,
}

/// The ways a search fails.
#[derive(Clone, Copy, Debug, PartialEq, Eq, Structural)]
pub enum HttmError {
    NoQualifyingDataset,
    NoAlternateReplica,
    PathNotUnderSnapshotRoot(RootHint),
    NoVersionsFound,
}

impl HttmError {
    /// A human-readable explanation of the error.
    pub fn message(&self) -> (r: &'static str) {
        match self {
            HttmError::NoQualifyingDataset => "Could not identify any qualifying dataset.  Maybe consider specifying manually at SNAP_POINT?",
            HttmError::NoAlternateReplica => "Unable to detect an alternate replicated mount point.  Perhaps the replicated filesystem is not mounted?",
            HttmError::PathNotUnderSnapshotRoot(RootHint::SnapAndLocalDir) => "Are you sure you're in the correct working directory?  Perhaps you need to set the SNAP_DIR and LOCAL_DIR values.",
            HttmError::PathNotUnderSnapshotRoot(RootHint::LocalDir) => "Are you sure you're in the correct working directory?  Perhaps you need to set the LOCAL_DIR value.",
            HttmError::NoVersionsFound => "Neither a live copy, nor a snapshot copy of such a file appears to exist.  Please try another file.",
        }
    }
}

} // verus!
