//! Telling a save directory in Steam's cloud storage from others.

use vstd::prelude::*;
use crate::paths::components;
use crate::paths::path_components;
use crate::text::chars_of;
use crate::text::lowered;
use crate::text::lowered_chars;
use crate::text::texts_of;

verus! {

/// The identifier of the game in Steam.
pub const STEAM_APP_ID: &'static str = "2239710";

/// Whether the components `parts` are those of a directory in Steam's
/// cloud storage for the game: one of them is the game's identifier, and one
/// is `userdata` in capital or small letters.
pub open spec fn steam_cloud_parts(parts: Seq<Seq<char>>) -> bool {
    &&& exists|i: int| 0 <= i < parts.len() && parts[i] == STEAM_APP_ID@
    &&& exists|j: int| 0 <= j < parts.len() && lowered(parts[j]) == lowered("userdata"@)
}

/// Whether `path` looks like a directory in Steam's cloud storage for the
/// game, going by its components under the platform's path rules.
pub open spec fn steam_cloud_path(path: Seq<char>) -> bool {
    steam_cloud_parts(path_components(path))
}

/// Tells whether the components of a path are those of a directory in
/// Steam's cloud storage for the game.
pub fn is_steam_cloud_parts(parts: &Vec<String>) -> (r: bool)
    ensures
        r == steam_cloud_parts(texts_of(parts@)),
{
    let wanted = lowered_chars("userdata");
    let app_id = chars_of(STEAM_APP_ID);
    let mut has_app_id = false;
    let mut has_userdata = false;
    let mut i: usize = 0;
    while i < parts.len()
        invariant
            i <= parts.len(),
            wanted@ == lowered("userdata"@),
            app_id@ == STEAM_APP_ID@,
            has_app_id == exists|k: int| 0 <= k < i && texts_of(parts@)[k] == STEAM_APP_ID@,
            has_userdata == exists|k: int|
                0 <= k < i && lowered(texts_of(parts@)[k]) == lowered("userdata"@),
        decreases parts.len() - i,
    {
        let part = chars_of(parts[i].as_str());
        let lowered_part = lowered_chars(parts[i].as_str());
        let is_app_id = same_chars(&part, &app_id);
        let is_userdata = same_chars(&lowered_part, &wanted);
        assert(texts_of(parts@)[i as int] == parts@[i as int]@);
        has_app_id = has_app_id || is_app_id;
        has_userdata = has_userdata || is_userdata;
        i += 1;
    }
    has_app_id && has_userdata
}

/// Tells whether `path` looks like a directory in Steam's cloud storage for
/// the game.
pub fn is_steam_cloud_path(path: &str) -> (r: bool)
    ensures
        r == steam_cloud_path(path@),
{
    let parts = components(path);
    is_steam_cloud_parts(&parts)
}

/// Tells whether two lists of characters are the same.
fn same_chars(a: &Vec<char>, b: &Vec<char>) -> (r: bool)
    ensures
        r == (a@ == b@),
{
    if a.len() != b.len() {
        return false;
    }
    let mut i: usize = 0;
    while i < a.len()
        invariant
            i <= a.len(),
            a.len() == b.len(),
            forall|j: int| 0 <= j < i ==> a@[j] == b@[j],
        decreases a.len() - i,
    {
        if a[i] != b[i] {
            return false;
        }
        i += 1;
    }
    assert(a@ =~= b@);
    true
}

/// Adds `path` to `paths` where it is a directory.
pub fn push_if_dir(paths: &mut Vec<String>, path: String, is_dir: bool)
    ensures
        final(paths)@ == if is_dir {
            old(paths)@.push(path)
        } else {
            old(paths)@
        },
{
    if is_dir {
        paths.push(path);
    }
}

} // verus!
