//! The settings of the application, and where they are kept.

use vstd::prelude::*;
use crate::paths::file_stem;
use crate::paths::has_extension;
use crate::paths::join;
use crate::paths::parent;
use crate::paths::path_file_stem;
use crate::paths::path_has_extension;
use crate::paths::path_join;
use crate::paths::path_parent;

verus! {

/// The settings of the application.
#[derive(Debug)]
pub struct AppConfig {
    /// The path of the save directory or of a save file, as the user gave it.
    pub save_path: Option<String>,
    /// Whether the game is launched when the application starts.
    pub auto_launch_game: bool,
    /// Whether the application closes when the game exits.
    pub auto_close: bool,
    /// How many unlocked snapshots are kept for each slot; 0 for no limit.
    pub max_backups_per_game: usize,
}

/// The number of snapshots kept for each slot unless the user says otherwise.
pub fn default_max_backups() -> (r: usize)
    ensures
        r == 100,
{
    100
}

impl Default for AppConfig {
    fn default() -> (r: Self)
        ensures
            r.save_path is None,
            !r.auto_launch_game,
            !r.auto_close,
            r.max_backups_per_game == 100,
    {
        AppConfig {
            save_path: None,
            auto_launch_game: false,
            auto_close: false,
            max_backups_per_game: default_max_backups(),
        }
    }
}

impl Clone for AppConfig {
    fn clone(&self) -> (r: Self)
        ensures
            crate::text::text_of(r.save_path) == crate::text::text_of(self.save_path),
            r.auto_launch_game == self.auto_launch_game,
            r.auto_close == self.auto_close,
            r.max_backups_per_game == self.max_backups_per_game,
    {
        AppConfig {
            save_path: match &self.save_path {
                Some(p) => Some(p.clone()),
                None => None,
            },
            auto_launch_game: self.auto_launch_game,
            auto_close: self.auto_close,
            max_backups_per_game: self.max_backups_per_game,
        }
    }
}

/// The name of the settings file for an executable with the file stem
/// `stem`: the stem with `.config.json`, or `config.json` without a stem.
pub open spec fn config_name(stem: Option<Seq<char>>) -> Seq<char> {
    match stem {
        Some(stem) => stem + ".config.json"@,
        None => "config.json"@,
    }
}

/// The directory of the settings file for an executable in `parent`: that
/// directory, or `.` where the executable's path has no parent.
pub open spec fn config_dir(parent: Option<Seq<char>>) -> Seq<char> {
    match parent {
        Some(dir) => dir,
        None => "."@,
    }
}

/// The path of the settings file that belongs to the executable at
/// `exe_path`: beside the executable, named after it with `.config.json` in
/// place of the extension.
pub open spec fn config_path(exe_path: Seq<char>) -> Seq<char> {
    path_join(config_dir(path_parent(exe_path)), config_name(path_file_stem(exe_path)))
}

/// Names the settings file for an executable with the file stem `stem`.
pub fn config_file_name(stem: Option<String>) -> (r: String)
    ensures
        r@ == config_name(crate::text::text_of(stem)),
{
    match stem {
        Some(stem) => {
            let mut name = stem;
            name.append(".config.json");
            name
        },
        None => String::from_str("config.json"),
    }
}

/// Names the directory of the settings file for an executable in `parent`.
pub fn config_directory(parent: Option<String>) -> (r: String)
    ensures
        r@ == config_dir(crate::text::text_of(parent)),
{
    match parent {
        Some(dir) => dir,
        None => String::from_str("."),
    }
}

/// Derives the path of the settings file from the path of the executable.
pub fn config_path_for_exe(exe_path: &str) -> (r: String)
    ensures
        r@ == config_path(exe_path@),
{
    let config_name = config_file_name(file_stem(exe_path));
    let dir = config_directory(parent(exe_path));
    join(dir.as_str(), config_name.as_str())
}

/// Whether a path can be taken as a save path, given what is known of it:
/// it exists, or it looks like a file, having an extension, in a parent
/// directory that exists.
pub open spec fn acceptable_path(
    path_exists: bool,
    has_parent: bool,
    parent_exists: bool,
    has_extension: bool,
) -> bool {
    path_exists || (has_parent && parent_exists && has_extension)
}

/// Whether `path` can be taken as a save path, with parent and extension as
/// the platform's path rules give them.
pub open spec fn valid_path(path: Seq<char>, path_exists: bool, parent_exists: bool) -> bool {
    acceptable_path(
        path_exists,
        path_parent(path) is Some,
        parent_exists,
        path_has_extension(path),
    )
}

/// Decides whether a path can be taken as a save path from what is known
/// of it.
pub fn is_acceptable_path(
    path_exists: bool,
    has_parent: bool,
    parent_exists: bool,
    has_extension: bool,
) -> (r: bool)
    ensures
        r == acceptable_path(path_exists, has_parent, parent_exists, has_extension),
{
    path_exists || (has_parent && parent_exists && has_extension)
}

/// Decides whether `path` can be taken as a save path. `path_exists` says
/// whether the path exists, `parent_exists` whether its parent does.
pub fn is_valid_path(path: &str, path_exists: bool, parent_exists: bool) -> (r: bool)
    ensures
        r == valid_path(path@, path_exists, parent_exists),
{
    is_acceptable_path(path_exists, parent(path).is_some(), parent_exists, has_extension(path))
}

/// Completes the settings at start-up: where no save path is set and one
/// was detected, the detected path is taken. Returns the settings and whether
/// they changed and have to be saved.
pub fn bootstrap_config(config: AppConfig, detected: Option<String>) -> (r: (AppConfig, bool))
    ensures
        r.1 == (config.save_path is None && detected is Some),
        crate::text::text_of(r.0.save_path) == if r.1 {
            crate::text::text_of(detected)
        } else {
            crate::text::text_of(config.save_path)
        },
        r.0.auto_launch_game == config.auto_launch_game,
        r.0.auto_close == config.auto_close,
        r.0.max_backups_per_game == config.max_backups_per_game,
{
    if config.save_path.is_none() && detected.is_some() {
        (
            AppConfig {
                save_path: detected,
                auto_launch_game: config.auto_launch_game,
                auto_close: config.auto_close,
                max_backups_per_game: config.max_backups_per_game,
            },
            true,
        )
    } else {
        (config, false)
    }
}

} // verus!
