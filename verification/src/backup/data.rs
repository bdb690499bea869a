//! What a snapshot looks like from outside, and the save files of a slot.

use vstd::prelude::*;
use crate::backup::tree::SaveFile;
use crate::filename_utils::bak_file_name;
use crate::filename_utils::bak_filename;
use crate::filename_utils::main_file_name;
use crate::filename_utils::main_filename;
use crate::paths::join;
use crate::paths::path_join;
use crate::timestamp::LocalDateTime;

verus! {

/// What is known of one snapshot.
#[derive(Debug)]
pub struct BackupInfo {
    /// The path of the snapshot folder.
    pub path: String,
    /// The name of the snapshot folder.
    pub filename: String,
    /// The name of the save file it was taken of.
    pub original_filename: String,
    /// The path of that save file in the save directory.
    pub original_path: String,
    /// The size of the copied save file in bytes.
    pub size: u64,
    /// The moment in the folder name.
    pub modified: LocalDateTime,
    /// The zero-based slot number.
    pub game_number: u32,
    /// Whether the snapshot is kept from automatic deletion.
    pub locked: bool,
    /// The recorded digest of the main save file; empty where it was not
    /// asked for or is not recorded.
    pub hash: String,
    /// The note a user gave the snapshot.
    pub note: Option<String>,
}

/// What is known of one snapshot, as plain values.
pub struct BackupInfoView {
    pub path: Seq<char>,
    pub filename: Seq<char>,
    pub original_filename: Seq<char>,
    pub original_path: Seq<char>,
    pub size: u64,
    pub modified: LocalDateTime,
    pub game_number: u32,
    pub locked: bool,
    pub hash: Seq<char>,
    pub note: Option<Seq<char>>,
}

impl View for BackupInfo {
    type V = BackupInfoView;

    open spec fn view(&self) -> BackupInfoView {
        BackupInfoView {
            path: self.path@,
            filename: self.filename@,
            original_filename: self.original_filename@,
            original_path: self.original_path@,
            size: self.size,
            modified: self.modified,
            game_number: self.game_number,
            locked: self.locked,
            hash: self.hash@,
            note: match self.note {
                Some(n) => Some(n@),
                None => None,
            },
        }
    }
}

impl Clone for BackupInfo {
    fn clone(&self) -> (r: Self)
        ensures
            r@ == self@,
    {
        BackupInfo {
            path: self.path.clone(),
            filename: self.filename.clone(),
            original_filename: self.original_filename.clone(),
            original_path: self.original_path.clone(),
            size: self.size,
            modified: self.modified,
            game_number: self.game_number,
            locked: self.locked,
            hash: self.hash.clone(),
            note: match &self.note {
                Some(n) => Some(n.clone()),
                None => None,
            },
        }
    }
}

/// The snapshots of a list as plain values.
pub open spec fn infos_view(v: Seq<BackupInfo>) -> Seq<BackupInfoView> {
    Seq::new(v.len(), |i: int| v[i]@)
}

/// The names and paths of the two save files of a slot.
#[derive(Debug)]
pub struct SavePaths {
    pub main_filename: String,
    pub main_path: String,
    pub bak_filename: String,
    pub bak_path: String,
}

/// Builds the names and paths of the save files of `game_number` in
/// `save_dir`: `gamesave_{n}.sav` and `gamesave_{n}.sav.bak`.
pub fn build_save_paths(save_dir: &str, game_number: u32) -> (r: SavePaths)
    ensures
        r.main_filename@ == main_filename(game_number),
        r.main_path@ == path_join(save_dir@, main_filename(game_number)),
        r.bak_filename@ == bak_filename(game_number),
        r.bak_path@ == path_join(save_dir@, bak_filename(game_number)),
{
    let main_filename = main_file_name(game_number);
    let bak_filename = bak_file_name(game_number);
    SavePaths {
        main_path: join(save_dir, main_filename.as_str()),
        bak_path: join(save_dir, bak_filename.as_str()),
        main_filename,
        bak_filename,
    }
}

/// What deduplication and naming need to know of the main save file.
#[derive(Debug, Clone, Copy)]
pub struct SourceMetadata {
    /// The size in bytes.
    pub size: u64,
    /// The modification time in nanoseconds since the epoch.
    pub modified_nanos: u128,
    /// The same moment on the local calendar and clock.
    pub modified_dt: LocalDateTime,
}

/// Reads size and modification time of a save file.
pub fn read_source_metadata(file: &SaveFile) -> (r: SourceMetadata)
    ensures
        r.size == file@.data.len(),
        r.modified_nanos == file@.modified_nanos,
        r.modified_dt == file@.modified,
{
    SourceMetadata {
        size: file.data.len() as u64,
        modified_nanos: file.modified_nanos,
        modified_dt: file.modified,
    }
}

} // verus!
