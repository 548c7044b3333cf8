//! Resolution of live paths to the versions kept in filesystem snapshots,
//! and detection of files that exist only in snapshots.

mod index;
pub mod deleted;
pub mod laws;
pub mod lookup;
pub mod paths;
pub mod types;
pub mod versions;

pub use types::{Config, HttmError, PathData, SnapPoint, UserDefinedDirs};
