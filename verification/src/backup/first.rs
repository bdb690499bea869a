//! The first backups in a save directory: what a batch makes where no
//! snapshot was ever made.

use vstd::prelude::*;
use crate::backup::cleanup::expired;
use crate::backup::cleanup::filenames;
use crate::backup::cleanup::lemma_without_nothing;
use crate::backup::create::backed_up;
use crate::backup::create::metadata_of;
use crate::backup::create::new_folder;
use crate::backup::create::resolved_hash;
use crate::backup::create::same_content;
use crate::backup::create::source_entry;
use crate::backup::create::with_room_made;
use crate::backup::create::BackupOutcome;
use crate::backup::data::BackupInfoView;
use crate::backup::hashing::sha256_hex;
use crate::backup::index::backup_root_path;
use crate::backup::index::loaded_index;
use crate::backup::index::BackupIndexView;
use crate::backup::index::IndexEntryView;
use crate::backup::listing::catalog;
use crate::backup::listing::folder_info;
use crate::backup::listing::listed;
use crate::backup::tree::file_named;
use crate::backup::tree::folder_names;
use crate::backup::tree::BackupFolderView;
use crate::backup::tree::SaveDirView;
use crate::backup::tree::SaveFileView;
use crate::filename_utils::folder_name;
use crate::filename_utils::lemma_folder_name_slot;
use crate::filename_utils::lemma_folder_names_differ;
use crate::filename_utils::main_filename;
use crate::lookup::lemma_index_of_none;
use crate::paths::path_join;

verus! {

/// The snapshot folder that the first backup of `slot` makes: named by the
/// slot and the modification time of the main save file, holding that file
/// and, where there is one, the `.bak` sibling, with the digest of the main
/// save file in the hash marker, and unlocked.
pub open spec fn fresh_folder(files: Seq<SaveFileView>, slot: u32) -> BackupFolderView {
    new_folder(files, slot, sha256_hex(file_named(files, main_filename(slot)).unwrap().data))
}

/// The index entry that the first backup of `slot` writes.
pub open spec fn fresh_entry(files: Seq<SaveFileView>, slot: u32) -> IndexEntryView {
    let main = file_named(files, main_filename(slot)).unwrap();
    source_entry(sha256_hex(main.data), metadata_of(main), folder_name(slot, main.modified))
}

/// The folders that the first backups of `games` make, one after the other:
/// one for each slot that has a main save file.
pub open spec fn fresh_folders(files: Seq<SaveFileView>, games: Seq<u32>) -> Seq<BackupFolderView>
    decreases games.len(),
{
    if games.len() == 0 {
        Seq::empty()
    } else if file_named(files, main_filename(games.last())) is Some {
        fresh_folders(files, games.drop_last()).push(fresh_folder(files, games.last()))
    } else {
        fresh_folders(files, games.drop_last())
    }
}

/// The index entries that the first backups of `games` write: one for each
/// slot that has a main save file.
pub open spec fn fresh_entries(files: Seq<SaveFileView>, games: Seq<u32>) -> Map<
    u32,
    IndexEntryView,
>
    decreases games.len(),
{
    if games.len() == 0 {
        Map::empty()
    } else if file_named(files, main_filename(games.last())) is Some {
        fresh_entries(files, games.drop_last()).insert(
            games.last(),
            fresh_entry(files, games.last()),
        )
    } else {
        fresh_entries(files, games.drop_last())
    }
}

/// Each of the fresh folders is the fresh folder of one of the slots.
proof fn lemma_fresh_folder_at(files: Seq<SaveFileView>, games: Seq<u32>, i: int) -> (k: int)
    requires
        0 <= i < fresh_folders(files, games).len(),
    ensures
        0 <= k < games.len(),
        file_named(files, main_filename(games[k])) is Some,
        fresh_folders(files, games)[i] == fresh_folder(files, games[k]),
    decreases games.len(),
{
    let front = games.drop_last();
    if file_named(files, main_filename(games.last())) is Some && i == fresh_folders(
        files,
        front,
    ).len() {
        games.len() - 1
    } else {
        lemma_fresh_folder_at(files, front, i)
    }
}

/// Only the slots of the batch have fresh entries.
proof fn lemma_fresh_entry_slot(files: Seq<SaveFileView>, games: Seq<u32>, slot: u32)
    requires
        fresh_entries(files, games).contains_key(slot),
    ensures
        games.contains(slot),
    decreases games.len(),
{
    let front = games.drop_last();
    if fresh_entries(files, front).contains_key(slot) {
        lemma_fresh_entry_slot(files, front, slot);
        let k = choose|k: int| 0 <= k < front.len() && front[k] == slot;
        assert(games[k] == slot);
    } else {
        assert(games[games.len() - 1] == slot);
    }
}

/// A listing for one slot is empty where no folder is a snapshot of that
/// slot.
proof fn lemma_listed_none(
    path: Seq<char>,
    notes: Map<Seq<char>, Seq<char>>,
    folders: Seq<BackupFolderView>,
    slot: u32,
)
    requires
        forall|i: int|
            0 <= i < folders.len() ==> (folder_info(path, #[trigger] folders[i], true) matches Some(
                info,
            ) ==> info.game_number != slot),
    ensures
        listed(path, notes, folders, true, Some(slot)) == Seq::<BackupInfoView>::empty(),
    decreases folders.len(),
{
    if folders.len() > 0 {
        assert forall|i: int| 0 <= i < folders.drop_last().len() implies (folder_info(
            path,
            #[trigger] folders.drop_last()[i],
            true,
        ) matches Some(info) ==> info.game_number != slot) by {
            assert(folders.drop_last()[i] == folders[i]);
        }
        lemma_listed_none(path, notes, folders.drop_last(), slot);
        assert(folders.last() == folders[folders.len() - 1]);
    }
}

/// The first backup of a slot: where the slot has a main save file, the
/// index knows nothing of the slot, no folder is a snapshot of the slot, and
/// no folder has the name that the new folder gets, the backup adds the fresh
/// folder of the slot, writes its index entry, and touches nothing else.
pub proof fn lemma_first_backup(dir: SaveDirView, index: BackupIndexView, slot: u32, limit: nat)
    requires
        dir.exists,
        dir.has_backup_root,
        file_named(dir.files, main_filename(slot)) is Some,
        !index.games.contains_key(slot),
        forall|i: int|
            0 <= i < dir.folders.len() ==> (folder_info(dir.path, #[trigger] dir.folders[i], true)
                matches Some(info) ==> info.game_number != slot),
        forall|i: int|
            0 <= i < dir.folders.len() ==> (#[trigger] dir.folders[i]).name != fresh_folder(
                dir.files,
                slot,
            ).name,
    ensures
        backed_up(dir, index, slot, limit) == (BackupOutcome {
            dir: SaveDirView {
                folders: dir.folders.push(fresh_folder(dir.files, slot)),
                ..dir
            },
            index: BackupIndexView {
                games: index.games.insert(slot, fresh_entry(dir.files, slot)),
                ..index
            },
            created: Some(
                path_join(backup_root_path(dir.path), fresh_folder(dir.files, slot).name),
            ),
        }),
{
    let main = file_named(dir.files, main_filename(slot)).unwrap();
    let source = metadata_of(main);
    let hash = sha256_hex(main.data);
    let folders = dir.folders;
    let name = folder_name(slot, main.modified);
    assert(resolved_hash(index, slot, source, main.data) == (hash, true));
    lemma_listed_none(dir.path, loaded_index(dir).notes, folders, slot);
    let backups = catalog(dir, true, Some(slot));
    assert(backups =~= Seq::empty());
    assert(same_content(backups, slot, hash) is None);
    assert(expired(backups, slot, limit) =~= Seq::empty());
    assert(filenames(expired(backups, slot, limit)) =~= Seq::empty());
    lemma_without_nothing(folders);
    let room = with_room_made(dir, slot, limit);
    assert(room == dir);
    assert forall|j: int| 0 <= j < folders.len() implies folder_names(folders)[j] != name by {
        assert(folders[j].name != name);
    }
    lemma_index_of_none(folder_names(folders), name);
}

/// The first backups of different slots in a save directory without any
/// snapshot make one folder for each slot that has a main save file, and
/// write one index entry for each; no backup disturbs what the others made.
pub proof fn lemma_first_backups(dir: SaveDirView, games: Seq<u32>, limit: nat)
    requires
        dir.exists,
        dir.has_backup_root,
        dir.folders.len() == 0,
        games.no_duplicates(),
    ensures
        crate::watcher::batch_backed_up(dir, BackupIndexView::empty(), games, limit) == (
        crate::watcher::BatchOutcome {
            dir: SaveDirView { folders: fresh_folders(dir.files, games), ..dir },
            index: BackupIndexView { games: fresh_entries(dir.files, games), notes: Map::empty() },
            created: fresh_folders(dir.files, games).len() > 0,
        }),
    decreases games.len(),
{
    let empty = BackupIndexView::empty();
    if games.len() == 0 {
        assert(dir.folders =~= Seq::empty());
    } else {
        let front = games.drop_last();
        let slot = games.last();
        assert forall|i: int, j: int|
            0 <= i < front.len() && 0 <= j < front.len() && i != j implies front[i] != front[j] by {
            assert(games[i] != games[j]);
        }
        lemma_first_backups(dir, front, limit);
        let before = crate::watcher::batch_backed_up(dir, empty, front, limit);
        let folders = before.dir.folders;
        assert(!front.contains(slot)) by {
            if front.contains(slot) {
                let k = choose|k: int| 0 <= k < front.len() && front[k] == slot;
                assert(games[k] == games[games.len() - 1]);
            }
        }
        if file_named(dir.files, main_filename(slot)) is Some {
            let main = file_named(dir.files, main_filename(slot)).unwrap();
            if before.index.games.contains_key(slot) {
                lemma_fresh_entry_slot(dir.files, front, slot);
            }
            assert forall|i: int| 0 <= i < folders.len() implies (folder_info(
                dir.path,
                #[trigger] folders[i],
                true,
            ) matches Some(info) ==> info.game_number != slot) && folders[i].name != fresh_folder(
                dir.files,
                slot,
            ).name by {
                let k = lemma_fresh_folder_at(dir.files, front, i);
                let other = front[k];
                assert(front.contains(other));
                let its = file_named(dir.files, main_filename(other)).unwrap();
                lemma_folder_name_slot(other, its.modified);
                lemma_folder_names_differ(other, its.modified, slot, main.modified);
            }
            lemma_first_backup(before.dir, before.index, slot, limit);
        }
    }
}

} // verus!
