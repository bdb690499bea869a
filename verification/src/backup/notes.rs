//! Locks and notes on snapshots. A lock is a marker in the snapshot folder; a
//! note lives in the index alone, under the folder's name.

use vstd::prelude::*;
use crate::backup::create::snapshot_exists;
use crate::backup::index::BackupIndexView;
use crate::backup::index::BackupStore;
use crate::backup::index::loaded_index;
use crate::backup::index::with_backup_root;
use crate::backup::index::with_saved_index;
use crate::backup::tree::BackupFolderView;
use crate::backup::tree::SaveDir;
use crate::backup::tree::SaveDirView;
use crate::backup::tree::find_folder;
use crate::backup::tree::folder_names;
use crate::lookup::index_of;
use crate::text::text_of;
use crate::text::trim;
use crate::text::trimmed;
use crate::text::unit_result_text;

verus! {

/// `folders` with the lock marker of the folder `name` set or taken away.
pub open spec fn with_lock(folders: Seq<BackupFolderView>, name: Seq<char>, locked: bool) -> Seq<
    BackupFolderView,
> {
    match index_of(folder_names(folders), name) {
        Some(i) => folders.update(i, BackupFolderView { locked, ..folders[i] }),
        None => folders,
    }
}

/// What setting a lock does: an error where the save directory has no
/// snapshot folder of that name, and otherwise the folder with its marker as
/// asked.
pub open spec fn after_lock(dir: SaveDirView, name: Seq<char>, locked: bool) -> (
    SaveDirView,
    Result<(), Seq<char>>,
) {
    if snapshot_exists(dir, name) {
        (SaveDirView { folders: with_lock(dir.folders, name, locked), ..dir }, Ok(()))
    } else {
        (dir, Err("Backup folder does not exist"@))
    }
}

/// Locks or unlocks the snapshot folder `folder_name`. A locked snapshot is
/// never deleted to make room.
pub fn set_backup_lock(save_dir: &mut SaveDir, folder_name: &str, locked: bool) -> (r: Result<
    (),
    String,
>)
    requires
        old(save_dir)@.wf(),
    ensures
        (final(save_dir)@, unit_result_text(r)) == after_lock(
            old(save_dir)@,
            folder_name@,
            locked,
        ),
        final(save_dir)@.wf(),
{
    if !save_dir.has_backup_root {
        return Err(String::from_str("Backup folder does not exist"));
    }
    match find_folder(&save_dir.folders, folder_name) {
        Some(i) => {
            let ghost before = save_dir@.folders;
            save_dir.folders[i].locked = locked;
            assert(save_dir@.folders =~= before.update(
                i as int,
                BackupFolderView { locked, ..before[i as int] },
            ));
            assert(folder_names(save_dir@.folders) =~= folder_names(before));
            Ok(())
        },
        None => Err(String::from_str("Backup folder does not exist")),
    }
}

/// Setting a lock that is set already, or taking away one that is not there,
/// changes nothing; and setting it twice is setting it once.
pub proof fn lemma_lock_idempotent(dir: SaveDirView, name: Seq<char>, locked: bool)
    ensures
        after_lock(after_lock(dir, name, locked).0, name, locked) == after_lock(dir, name, locked),
        snapshot_exists(dir, name) && dir.folders[index_of(
            folder_names(dir.folders),
            name,
        ).unwrap()].locked == locked ==> after_lock(dir, name, locked).0 == dir,
{
    crate::lookup::lemma_index_of(folder_names(dir.folders), name);
    let once = after_lock(dir, name, locked).0;
    if snapshot_exists(dir, name) {
        let i = index_of(folder_names(dir.folders), name).unwrap();
        assert(folder_names(once.folders) =~= folder_names(dir.folders));
        assert(with_lock(once.folders, name, locked) =~= once.folders);
        if dir.folders[i].locked == locked {
            assert(once.folders =~= dir.folders);
        }
    }
}

/// The notes after the note of `folder` was set to `note`: a note that is
/// `None`, empty or white space alone takes the entry away; any other is
/// kept without the white space around it.
pub open spec fn noted(
    notes: Map<Seq<char>, Seq<char>>,
    folder: Seq<char>,
    note: Option<Seq<char>>,
) -> Map<Seq<char>, Seq<char>> {
    match note {
        Some(text) => if trim(text).len() == 0 {
            notes.remove(folder)
        } else {
            notes.insert(folder, trim(text))
        },
        None => notes.remove(folder),
    }
}

/// The save directory after a note was set: `.backups` is made where it was
/// missing, and the index on disk is the one that was loaded, with the note
/// changed.
pub open spec fn after_note(
    dir: SaveDirView,
    folder: Seq<char>,
    note: Option<Seq<char>>,
) -> SaveDirView {
    let rooted = with_backup_root(dir);
    let index = loaded_index(rooted);
    with_saved_index(rooted, BackupIndexView { notes: noted(index.notes, folder, note), ..index })
}

/// Sets, changes or removes the note of the snapshot folder `folder_name`.
pub fn set_backup_note(save_dir: &mut SaveDir, folder_name: &str, note: Option<String>)
    ensures
        final(save_dir)@ == after_note(old(save_dir)@, folder_name@, text_of(note)),
        old(save_dir)@.wf() ==> final(save_dir)@.wf(),
{
    let mut store = BackupStore::new(save_dir);
    match note {
        Some(n) => {
            let text = trimmed(n.as_str());
            if text.as_str().unicode_len() == 0 {
                store.index.remove_note(folder_name);
            } else {
                store.index.set_note(String::from_str(folder_name), text);
            }
        },
        None => {
            store.index.remove_note(folder_name);
        },
    }
    store.save(save_dir);
}

} // verus!
