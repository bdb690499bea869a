//! Checks on what the user interface asks for.

use vstd::prelude::*;
use crate::paths::path_starts_with;
use crate::paths::starts_with;

verus! {

/// What the check of a snapshot path gives, once it is known whether its
/// canonical form `target` lies under the canonical form of `.backups`: the
/// canonical form, or the refusal.
pub open spec fn checked_backup_path(target: Seq<char>, under_root: bool) -> Result<
    Seq<char>,
    Seq<char>,
> {
    if under_root {
        Ok(target)
    } else {
        Err("Security violation: Path is outside the backup directory"@)
    }
}

/// What the check of a snapshot path gives. `target` and `root` are the
/// canonical forms of the path and of the `.backups` directory, `None` where
/// there is none because the path does not exist. The path passes, and its
/// canonical form is returned, where it lies under `.backups`.
pub open spec fn verified_backup_path(target: Option<Seq<char>>, root: Option<Seq<char>>) -> Result<
    Seq<char>,
    Seq<char>,
> {
    match target {
        None => Err("Invalid backup path"@),
        Some(t) => match root {
            None => Err("Backup directory not found"@),
            Some(r) => checked_backup_path(t, path_starts_with(t, r)),
        },
    }
}

/// Passes or refuses a snapshot path whose canonical form is `target`,
/// given whether it lies under `.backups`.
pub fn check_backup_path(target: String, under_root: bool) -> (r: Result<String, String>)
    ensures
        crate::text::result_text(r) == checked_backup_path(target@, under_root),
{
    if under_root {
        Ok(target)
    } else {
        Err(String::from_str("Security violation: Path is outside the backup directory"))
    }
}

/// Checks that a snapshot path lies under the `.backups` directory, going
/// by the canonical forms of both.
pub fn verify_backup_path(canonical_target: Option<String>, canonical_root: Option<String>) -> (r:
    Result<String, String>)
    ensures
        crate::text::result_text(r) == verified_backup_path(
            crate::text::text_of(canonical_target),
            crate::text::text_of(canonical_root),
        ),
{
    let target = match canonical_target {
        Some(t) => t,
        None => {
            return Err(String::from_str("Invalid backup path"));
        },
    };
    let root = match canonical_root {
        Some(r) => r,
        None => {
            return Err(String::from_str("Backup directory not found"));
        },
    };
    let under_root = starts_with(target.as_str(), root.as_str());
    check_backup_path(target, under_root)
}

} // verus!
