//! Timestamped, deduplicated snapshots of per-slot save files.
//!
//! A save directory holds, for each slot `n`, the main save file
//! `gamesave_{n}.sav` and perhaps its sibling `gamesave_{n}.sav.bak`. Under
//! `.backups` it holds the index and one folder for each snapshot, named
//! `Game {n + 1} - {moment}`. The library decides when a snapshot is made, which
//! snapshots go when the limit is reached, what a restore brings back, and when
//! a burst of file events is over. It works on a picture of the directory in
//! memory, [`backup::tree::SaveDir`]; reading that picture from disk and
//! writing it back is the caller's part.
//!
//! Every function states what it returns and changes as a function on plain
//! values, and the laws that hold between the functions are proved beside
//! them: backing up twice makes one snapshot, a locked snapshot is never
//! deleted to make room, the limit holds after every backup, and a restore
//! brings back what was backed up.

pub mod backup;
pub mod commands;
pub mod config;
pub mod filename_utils;
pub mod game_manager;
pub mod lookup;
pub mod paths;
pub mod save_paths;
pub mod text;
pub mod timestamp;
pub mod tray;
pub mod watcher;
pub mod wrapper_launch;
