//! Putting a snapshot back into a save directory, and telling the index so
//! that the restored file is not taken for new content.

use vstd::prelude::*;
use crate::backup::create::metadata_of;
use crate::backup::create::source_entry;
use crate::backup::data::build_save_paths;
use crate::backup::data::read_source_metadata;
use crate::backup::hashing::calculate_hash;
use crate::backup::hashing::sha256_hex;
use crate::backup::index::BackupIndexView;
use crate::backup::index::BackupStore;
use crate::backup::index::IndexEntry;
use crate::backup::index::loaded_index;
use crate::backup::index::with_backup_root;
use crate::backup::index::with_saved_index;
use crate::backup::tree::BackupFolder;
use crate::backup::tree::BackupFolderView;
use crate::backup::tree::SaveDir;
use crate::backup::tree::SaveDirView;
use crate::backup::tree::SaveFile;
use crate::backup::tree::SaveFileView;
use crate::backup::tree::copy_bytes;
use crate::backup::tree::file_named;
use crate::backup::tree::files_view;
use crate::backup::tree::find_file;
use crate::backup::tree::lemma_with_file_found;
use crate::backup::tree::lemma_with_file_others;
use crate::backup::tree::with_file;
use crate::filename_utils::main_filename;
use crate::filename_utils::parse_backup_folder_name;
use crate::filename_utils::parse_filename;
use crate::filename_utils::parsed_filename;
use crate::filename_utils::parsed_folder_name;
use crate::text::trim;
use crate::text::trimmed;
use crate::text::unit_result_text;
use crate::timestamp::LocalDateTime;

verus! {

/// `file` as it is after being copied at the moment `now`.
pub open spec fn copied_at(
    file: SaveFileView,
    now_nanos: u128,
    now: LocalDateTime,
) -> SaveFileView {
    SaveFileView { modified_nanos: now_nanos, modified: now, ..file }
}

/// `files` after every file of `from` that carries the name of a save file,
/// main or `.bak`, was copied over them in turn at the moment `now`.
pub open spec fn restored(
    files: Seq<SaveFileView>,
    from: Seq<SaveFileView>,
    now_nanos: u128,
    now: LocalDateTime,
) -> Seq<SaveFileView>
    decreases from.len(),
{
    if from.len() == 0 {
        files
    } else {
        let rest = restored(files, from.drop_last(), now_nanos, now);
        if parsed_filename(from.last().name) is Some {
            with_file(rest, copied_at(from.last(), now_nanos, now))
        } else {
            rest
        }
    }
}

/// Whether any file of `from` carries the name of a save file.
pub open spec fn restores_any(from: Seq<SaveFileView>) -> bool
    decreases from.len(),
{
    from.len() > 0 && (restores_any(from.drop_last()) || parsed_filename(from.last().name) is Some)
}

/// The digest to record for a restored snapshot: the one in its hash marker
/// without white space around it, or, where the marker is missing or empty,
/// the digest of the restored main save file.
pub open spec fn restored_hash(folder: BackupFolderView, main: SaveFileView) -> Seq<char> {
    match folder.hash {
        Some(h) => if trim(h).len() == 0 {
            sha256_hex(main.data)
        } else {
            trim(h)
        },
        None => sha256_hex(main.data),
    }
}

/// What telling the index of a restore does. The index entry of the
/// snapshot's slot is pointed at the folder that was restored from, with the
/// metadata of the main save file as it now is. Nothing is changed, and an
/// error says why, where the folder name is not that of a snapshot or its
/// moment does not exist on the local clock, the folder is not under the
/// target's `.backups`, or the target lacks the main save file of the slot.
pub open spec fn reconciled(target: SaveDirView, folder: BackupFolderView, under_target: bool) -> (
    SaveDirView,
    Result<(), Seq<char>>,
) {
    match parsed_folder_name(folder.name) {
        None => (target, Err("Backup folder name did not match expected format"@)),
        Some(info) => if !folder.moment_exists {
            (target, Err("Backup folder name did not match expected format"@))
        } else if !under_target {
            (target, Err("Backup folder is not under the target .backups directory"@))
        } else {
            match file_named(target.files, main_filename(info.game_number)) {
                None => (target, Err("Restored main save file was not found after restore"@)),
                Some(main) => {
                    let rooted = with_backup_root(target);
                    let index = loaded_index(rooted);
                    let entry = source_entry(
                        restored_hash(folder, main),
                        metadata_of(main),
                        folder.name,
                    );
                    (
                        with_saved_index(
                            rooted,
                            BackupIndexView {
                                games: index.games.insert(info.game_number, entry),
                                ..index
                            },
                        ),
                        Ok(()),
                    )
                },
            }
        },
    }
}

/// Points the index of `target` at the snapshot folder that was just
/// restored. `under_target` says whether that folder lies under the target's
/// own `.backups`.
pub fn update_index_after_restore(
    backup_folder: &BackupFolder,
    under_target: bool,
    target: &mut SaveDir,
) -> (r: Result<(), String>)
    ensures
        (final(target)@, unit_result_text(r)) == reconciled(
            old(target)@,
            backup_folder@,
            under_target,
        ),
{
    let info = match parse_backup_folder_name(backup_folder.name.as_str()) {
        Some(info) => info,
        None => {
            return Err(String::from_str("Backup folder name did not match expected format"));
        },
    };
    if !backup_folder.moment_exists {
        return Err(String::from_str("Backup folder name did not match expected format"));
    }
    if !under_target {
        return Err(
            String::from_str("Backup folder is not under the target .backups directory"),
        );
    }
    let paths = build_save_paths(target.path.as_str(), info.game_number);
    let at = match find_file(&target.files, paths.main_filename.as_str()) {
        Some(i) => i,
        None => {
            return Err(
                String::from_str("Restored main save file was not found after restore"),
            );
        },
    };
    let source = read_source_metadata(&target.files[at]);
    let recorded = match &backup_folder.hash {
        Some(h) => trimmed(h.as_str()),
        None => String::new(),
    };
    let hash = if recorded.as_str().unicode_len() == 0 {
        calculate_hash(target.files[at].data.as_slice())
    } else {
        recorded
    };
    let mut store = BackupStore::new(target);
    store.index.set_game(
        info.game_number,
        IndexEntry {
            last_hash: hash,
            last_source_size: source.size,
            last_source_modified: source.modified_nanos,
            last_backup_path: backup_folder.name.clone(),
        },
    );
    store.save(target);
    Ok(())
}

/// What a restore does. It fails, and changes nothing, where the target
/// directory does not exist or the folder holds no file with the name of a
/// save file. Otherwise those files are copied over the target's, and the
/// index is told where it can be; that the index could not be told does not
/// fail the restore.
pub open spec fn after_restore(
    target: SaveDirView,
    folder: BackupFolderView,
    under_target: bool,
    now_nanos: u128,
    now: LocalDateTime,
) -> (SaveDirView, Result<(), Seq<char>>) {
    if !target.exists {
        (target, Err("Target save directory does not exist"@))
    } else if !restores_any(folder.files) {
        (target, Err("No valid save files found in backup folder to restore"@))
    } else {
        (
            reconciled(
                SaveDirView {
                    files: restored(target.files, folder.files, now_nanos, now),
                    ..target
                },
                folder,
                under_target,
            ).0,
            Ok(()),
        )
    }
}

/// Restores the snapshot `backup_folder` into the save directory `target`.
/// `under_target` says whether the folder lies under the target's own
/// `.backups`; `now_nanos` and `now` are the moment of the copy, which the
/// restored files carry as their modification time.
pub fn restore_backup(
    backup_folder: &BackupFolder,
    under_target: bool,
    target: &mut SaveDir,
    now_nanos: u128,
    now: LocalDateTime,
) -> (r: Result<(), String>)
    requires
        old(target)@.wf(),
        now.is_valid(),
    ensures
        (final(target)@, unit_result_text(r)) == after_restore(
            old(target)@,
            backup_folder@,
            under_target,
            now_nanos,
            now,
        ),
        final(target)@.wf(),
{
    if !target.exists {
        return Err(String::from_str("Target save directory does not exist"));
    }
    let ghost from = backup_folder@.files;
    let ghost before = target@.files;
    let mut restored_any = false;
    let mut i: usize = 0;
    assert(from.take(0) =~= Seq::empty());
    while i < backup_folder.files.len()
        invariant
            i <= backup_folder.files.len(),
            from == files_view(backup_folder.files@),
            now.is_valid(),
            target@ == (SaveDirView {
                files: restored(before, from.take(i as int), now_nanos, now),
                ..old(target)@
            }),
            target@.wf(),
            restored_any == restores_any(from.take(i as int)),
        decreases backup_folder.files.len() - i,
    {
        assert(from.take(i + 1).drop_last() =~= from.take(i as int));
        assert(from.take(i + 1).last() == from[i as int]);
        let file = &backup_folder.files[i];
        if parse_filename(file.name.as_str()).is_some() {
            let copy = SaveFile {
                name: file.name.clone(),
                data: copy_bytes(&file.data),
                modified_nanos: now_nanos,
                modified: now,
            };
            assert(copy@ == copied_at(from[i as int], now_nanos, now));
            target.write_file(copy);
            restored_any = true;
        }
        i += 1;
    }
    assert(from.take(i as int) =~= from);
    if restored_any {
        let _ = update_index_after_restore(backup_folder, under_target, target);
        Ok(())
    } else {
        proof {
            lemma_nothing_restored(before, from, now_nanos, now);
        }
        Err(String::from_str("No valid save files found in backup folder to restore"))
    }
}

/// Where no file of the snapshot carries the name of a save file, a restore
/// copies nothing.
pub proof fn lemma_nothing_restored(
    files: Seq<SaveFileView>,
    from: Seq<SaveFileView>,
    now_nanos: u128,
    now: LocalDateTime,
)
    requires
        !restores_any(from),
    ensures
        restored(files, from, now_nanos, now) == files,
    decreases from.len(),
{
    if from.len() > 0 {
        lemma_nothing_restored(files, from.drop_last(), now_nanos, now);
    }
}

/// After a restore, a save file of the snapshot is in the target under its
/// name, with the bytes it has in the snapshot. (Of several files of one name
/// in the folder, the last is the one that stays.)
pub proof fn lemma_restored_file(
    files: Seq<SaveFileView>,
    from: Seq<SaveFileView>,
    now_nanos: u128,
    now: LocalDateTime,
    i: int,
)
    requires
        0 <= i < from.len(),
        parsed_filename(from[i].name) is Some,
        forall|j: int| i < j < from.len() ==> from[j].name != from[i].name,
    ensures
        file_named(restored(files, from, now_nanos, now), from[i].name) == Some(
            copied_at(from[i], now_nanos, now),
        ),
        restores_any(from),
    decreases from.len(),
{
    let rest = restored(files, from.drop_last(), now_nanos, now);
    if i == from.len() - 1 {
        lemma_with_file_found(rest, copied_at(from[i], now_nanos, now));
    } else {
        lemma_restored_file(files, from.drop_last(), now_nanos, now, i);
        if parsed_filename(from.last().name) is Some {
            lemma_with_file_others(rest, copied_at(from.last(), now_nanos, now), from[i].name);
        }
    }
}

/// A restore leaves alone every file of the target whose name no save file
/// of the snapshot carries.
pub proof fn lemma_restored_others(
    files: Seq<SaveFileView>,
    from: Seq<SaveFileView>,
    now_nanos: u128,
    now: LocalDateTime,
    name: Seq<char>,
)
    requires
        forall|j: int| 0 <= j < from.len() ==> from[j].name != name,
    ensures
        file_named(restored(files, from, now_nanos, now), name) == file_named(files, name),
    decreases from.len(),
{
    if from.len() > 0 {
        let rest = restored(files, from.drop_last(), now_nanos, now);
        assert forall|j: int| 0 <= j < from.drop_last().len() implies from.drop_last()[j].name
            != name by {
            assert(from[j].name != name);
        }
        lemma_restored_others(files, from.drop_last(), now_nanos, now, name);
        if parsed_filename(from.last().name) is Some {
            assert(from[from.len() - 1].name != name);
            lemma_with_file_others(rest, copied_at(from.last(), now_nanos, now), name);
        }
    }
}

/// A restore into a directory that exists brings back every save file of
/// the snapshot: afterwards the target holds, under the file's name, the bytes
/// that the snapshot holds. (Of several files of one name in the folder, the
/// last is the one that stays.)
pub proof fn lemma_restore_brings_back(
    target: SaveDirView,
    folder: BackupFolderView,
    under_target: bool,
    now_nanos: u128,
    now: LocalDateTime,
    i: int,
)
    requires
        target.exists,
        0 <= i < folder.files.len(),
        parsed_filename(folder.files[i].name) is Some,
        forall|j: int| i < j < folder.files.len() ==> folder.files[j].name != folder.files[i].name,
    ensures
        after_restore(target, folder, under_target, now_nanos, now).1 is Ok,
        file_named(
            after_restore(target, folder, under_target, now_nanos, now).0.files,
            folder.files[i].name,
        ) == Some(copied_at(folder.files[i], now_nanos, now)),
{
    lemma_restored_file(target.files, folder.files, now_nanos, now, i);
}

/// Restoring a snapshot brings back what was backed up. After the backup of
/// a slot has made a snapshot, restoring that snapshot's folder into a save
/// directory, whatever its save files have become in the meantime, leaves
/// there the main save file with the bytes it had when the snapshot was made,
/// and likewise the `.bak` sibling where there was one.
pub proof fn lemma_backup_then_restore(
    dir: SaveDirView,
    slot: u32,
    limit: nat,
    later: SaveDirView,
    under_target: bool,
    now_nanos: u128,
    now: LocalDateTime,
)
    requires
        dir.wf(),
        crate::backup::create::after_backup(dir, slot, limit).1 matches Ok(Some(_)),
        later.exists,
    ensures
        ({
            let snapshotted = crate::backup::create::after_backup(dir, slot, limit).0;
            let main = file_named(dir.files, main_filename(slot));
            let bak = file_named(dir.files, crate::filename_utils::bak_filename(slot));
            let folder = crate::backup::tree::folder_named(
                snapshotted.folders,
                crate::filename_utils::folder_name(slot, main.unwrap().modified),
            );
            &&& main is Some
            &&& folder is Some
            &&& after_restore(later, folder.unwrap(), under_target, now_nanos, now).1 is Ok
            &&& file_named(
                after_restore(later, folder.unwrap(), under_target, now_nanos, now).0.files,
                main_filename(slot),
            ) == Some(copied_at(main.unwrap(), now_nanos, now))
            &&& bak is Some ==> file_named(
                after_restore(later, folder.unwrap(), under_target, now_nanos, now).0.files,
                crate::filename_utils::bak_filename(slot),
            ) == Some(copied_at(bak.unwrap(), now_nanos, now))
        }),
{
    let rooted = with_backup_root(dir);
    let loaded = loaded_index(rooted);
    let main = file_named(dir.files, main_filename(slot)).unwrap();
    let source = metadata_of(main);
    let hash = crate::backup::create::resolved_hash(loaded, slot, source, main.data).0;
    let room = crate::backup::create::with_room_made(rooted, slot, limit);
    let made = crate::backup::create::new_folder(dir.files, slot, hash);
    let name = crate::filename_utils::folder_name(slot, main.modified);
    let snapshotted = crate::backup::create::after_backup(dir, slot, limit).0;
    assert(snapshotted.folders == room.folders.push(made));
    crate::lookup::lemma_index_of(crate::backup::tree::folder_names(room.folders), name);
    assert forall|m: int| 0 <= m < room.folders.len() implies crate::backup::tree::folder_names(
        snapshotted.folders,
    )[m] != name by {
        assert(crate::backup::tree::folder_names(room.folders)[m] != name);
    }
    crate::lookup::lemma_index_of_is(
        crate::backup::tree::folder_names(snapshotted.folders),
        name,
        room.folders.len() as int,
    );
    assert(crate::backup::tree::folder_named(snapshotted.folders, name) == Some(made));
    crate::filename_utils::lemma_filenames_parse(slot);
    crate::lookup::lemma_index_of(
        crate::backup::tree::file_names(dir.files),
        main_filename(slot),
    );
    crate::lookup::lemma_index_of(
        crate::backup::tree::file_names(dir.files),
        crate::filename_utils::bak_filename(slot),
    );
    assert(made.files[0] == main);
    lemma_restore_brings_back(later, made, under_target, now_nanos, now, 0);
    if file_named(dir.files, crate::filename_utils::bak_filename(slot)) is Some {
        lemma_restore_brings_back(later, made, under_target, now_nanos, now, 1);
    }
}

/// Whether a folder is a snapshot of `slot` that can be restored: its name
/// is that of a snapshot of the slot, the moment in it exists, and it holds
/// the main save file of the slot.
pub open spec fn is_snapshot_of(folder: BackupFolderView, slot: u32) -> bool {
    &&& parsed_folder_name(folder.name) matches Some(info) && info.game_number == slot
    &&& folder.moment_exists
    &&& file_named(folder.files, main_filename(slot)) is Some
}

/// Restoring a snapshot of the save directory and then backing up its slot
/// makes no new snapshot. The restore succeeds and touches no folder; the
/// index then points at the folder that was restored from; and the backup
/// that follows makes nothing and changes nothing, so that the snapshot
/// folders are exactly those that were there before the restore, each holding
/// what it held.
pub proof fn lemma_backup_after_restore(
    target: SaveDirView,
    folder: BackupFolderView,
    slot: u32,
    now_nanos: u128,
    now: LocalDateTime,
    limit: nat,
)
    requires
        target.wf(),
        target.exists,
        target.has_backup_root,
        target.folders.contains(folder),
        is_snapshot_of(folder, slot),
    ensures
        ({
            let (after, restored) = after_restore(target, folder, true, now_nanos, now);
            &&& restored is Ok
            &&& after.folders == target.folders
            &&& loaded_index(after).games.contains_key(slot)
            &&& loaded_index(after).games[slot].last_backup_path == folder.name
            &&& crate::backup::create::after_backup(after, slot, limit) == (
                after,
                Ok::<Option<Seq<char>>, Seq<char>>(None),
            )
        }),
{
    let names = crate::backup::tree::file_names(folder.files);
    crate::lookup::lemma_index_of(names, main_filename(slot));
    let i = crate::lookup::index_of(names, main_filename(slot)).unwrap();
    let at = choose|at: int| 0 <= at < target.folders.len() && target.folders[at] == folder;
    assert(crate::backup::tree::file_names(target.folders[at].files).no_duplicates());
    assert forall|j: int| i < j < folder.files.len() implies folder.files[j].name
        != folder.files[i].name by {
        assert(names[j] != names[i]);
    }
    crate::filename_utils::lemma_filenames_parse(slot);
    lemma_restore_brings_back(target, folder, true, now_nanos, now, i);
    let copied = SaveDirView {
        files: restored(target.files, folder.files, now_nanos, now),
        ..target
    };
    lemma_restored_file(target.files, folder.files, now_nanos, now, i);
    assert(reconciled(copied, folder, true).1 is Ok);
    let after = after_restore(target, folder, true, now_nanos, now).0;
    let main = file_named(after.files, main_filename(slot)).unwrap();
    let index = loaded_index(after);
    assert(with_backup_root(after) == after);
    assert(index.games[slot] == source_entry(
        restored_hash(folder, main),
        metadata_of(main),
        folder.name,
    ));
    crate::backup::cleanup::lemma_has_folder(target.folders, folder.name);
    assert(crate::backup::create::snapshot_exists(after, folder.name));
}

/// A restore between backups makes no third snapshot. Where the limit has
/// room for two more snapshots of the slot, a backup makes the snapshot `a`
/// of the save files; the save files change to `changed`, and a second backup
/// makes the snapshot `b` of those. Restoring `a` into the save directory
/// succeeds and touches no folder, and the backup that follows makes nothing
/// and changes nothing: the snapshot folders are those from before the first
/// backup, then `a`, then `b`, each holding the files it was made from.
pub proof fn lemma_restore_between_backups(
    dir: SaveDirView,
    slot: u32,
    limit: nat,
    changed: Seq<SaveFileView>,
    now_nanos: u128,
    now: LocalDateTime,
)
    requires
        dir.wf(),
        slot < u32::MAX,
        limit == 0 || crate::backup::retention::unlocked_count(dir.folders, slot) + 2 <= limit,
        crate::backup::create::after_backup(dir, slot, limit).1 matches Ok(Some(_)),
        crate::timestamp::reads_back(file_named(dir.files, main_filename(slot)).unwrap().modified),
        ({
            let first = crate::backup::create::after_backup(dir, slot, limit).0;
            let edited = SaveDirView { files: changed, ..first };
            &&& edited.wf()
            &&& crate::backup::create::after_backup(edited, slot, limit).1 matches Ok(Some(_))
        }),
    ensures
        ({
            let first = crate::backup::create::after_backup(dir, slot, limit).0;
            let edited = SaveDirView { files: changed, ..first };
            let second = crate::backup::create::after_backup(edited, slot, limit).0;
            let a = first.folders.last();
            let b = second.folders.last();
            let (third, restored) = after_restore(second, a, true, now_nanos, now);
            &&& a.hash is Some
            &&& a == crate::backup::create::new_folder(dir.files, slot, a.hash.unwrap())
            &&& b.hash is Some
            &&& b == crate::backup::create::new_folder(changed, slot, b.hash.unwrap())
            &&& first.folders == dir.folders.push(a)
            &&& second.folders == dir.folders.push(a).push(b)
            &&& restored is Ok
            &&& third.folders == second.folders
            &&& crate::backup::create::after_backup(third, slot, limit) == (
                third,
                Ok::<Option<Seq<char>>, Seq<char>>(None),
            )
        }),
{
    let rooted = with_backup_root(dir);
    let loaded = loaded_index(rooted);
    assert(rooted.wf());
    crate::backup::retention::lemma_room_enough(rooted, slot, limit);
    crate::backup::create::lemma_backup_keeps_wf(rooted, loaded, slot, limit);
    let main = file_named(dir.files, main_filename(slot)).unwrap();
    let hash = crate::backup::create::resolved_hash(loaded, slot, metadata_of(main), main.data).0;
    let a = crate::backup::create::new_folder(dir.files, slot, hash);
    let first = crate::backup::create::after_backup(dir, slot, limit).0;
    assert(first.folders == dir.folders.push(a));
    assert(first.folders.last() == a);

    let edited = SaveDirView { files: changed, ..first };
    assert(with_backup_root(edited) == edited);
    let loaded_again = loaded_index(edited);
    crate::backup::retention::lemma_count_push(dir.folders, a, slot);
    crate::backup::retention::lemma_room_enough(edited, slot, limit);
    crate::backup::create::lemma_backup_keeps_wf(edited, loaded_again, slot, limit);
    let main_again = file_named(changed, main_filename(slot)).unwrap();
    let hash_again = crate::backup::create::resolved_hash(
        loaded_again,
        slot,
        metadata_of(main_again),
        main_again.data,
    ).0;
    let b = crate::backup::create::new_folder(changed, slot, hash_again);
    let second = crate::backup::create::after_backup(edited, slot, limit).0;
    assert(second.folders == first.folders.push(b));
    assert(second.folders.last() == b);
    assert(second.folders[dir.folders.len() as int] == a);
    assert(second.folders.contains(a));
    assert(second.wf());

    crate::backup::retention::lemma_new_folder_is_snapshot(dir.files, slot, hash);
    lemma_backup_after_restore(second, a, slot, now_nanos, now, limit);
}

} // verus!
