//! The fixed names of the directory layout.

use vstd::prelude::*;

verus! {

/// The directory under a save directory that holds the snapshots.
pub const BACKUP_DIR_NAME: &'static str = ".backups";

/// The file in a snapshot folder that holds the digest of its main save file.
pub const HASH_FILE_NAME: &'static str = ".hash";

/// The file under `.backups` that holds the index.
pub const INDEX_FILE_NAME: &'static str = "index.json";

/// The empty file in a snapshot folder that keeps it from automatic deletion.
pub const LOCKED_FILE_NAME: &'static str = ".locked";

} // verus!
