//! Deleting snapshots: one folder, a batch, and the oldest ones that the
//! retention limit no longer has room for.

use vstd::prelude::*;
use crate::backup::create::snapshot_exists;
use crate::backup::data::BackupInfo;
use crate::backup::data::BackupInfoView;
use crate::backup::data::infos_view;
use crate::backup::listing::catalog;
use crate::backup::listing::get_backups;
use crate::backup::tree::BackupFolder;
use crate::backup::tree::BackupFolderView;
use crate::backup::tree::SaveDir;
use crate::backup::tree::SaveDirView;
use crate::backup::tree::find_folder;
use crate::backup::tree::folder_names;
use crate::backup::tree::folders_view;
use crate::backup::tree::has_folder;
use crate::lookup::index_of;
use crate::lookup::lemma_index_of;
use crate::text::texts_of;
use crate::text::unit_result_text;

verus! {

/// Whether `name` is among `names`.
pub fn contains_text(names: &Vec<String>, name: &String) -> (b: bool)
    ensures
        b == texts_of(names@).contains(name@),
{
    let mut i: usize = 0;
    while i < names.len()
        invariant
            i <= names.len(),
            forall|j: int| 0 <= j < i ==> texts_of(names@)[j] != name@,
        decreases names.len() - i,
    {
        if names[i] == *name {
            assert(texts_of(names@)[i as int] == name@);
            return true;
        }
        i += 1;
    }
    false
}

/// `folders` without those whose name is among `doomed`.
pub open spec fn without_folders(folders: Seq<BackupFolderView>, doomed: Seq<Seq<char>>) -> Seq<
    BackupFolderView,
>
    decreases folders.len(),
{
    if folders.len() == 0 {
        Seq::empty()
    } else {
        let rest = without_folders(folders.drop_last(), doomed);
        if doomed.contains(folders.last().name) {
            rest
        } else {
            rest.push(folders.last())
        }
    }
}

/// `without_folders` leaves exactly the folders whose name is not doomed.
pub proof fn lemma_without_folders_member(
    folders: Seq<BackupFolderView>,
    doomed: Seq<Seq<char>>,
    f: BackupFolderView,
)
    ensures
        without_folders(folders, doomed).contains(f) <==> (folders.contains(f) && !doomed.contains(
            f.name,
        )),
    decreases folders.len(),
{
    let kept = without_folders(folders, doomed);
    if folders.len() > 0 {
        let front = folders.drop_last();
        let last = folders.last();
        let rest = without_folders(front, doomed);
        lemma_without_folders_member(front, doomed, f);
        if kept.contains(f) {
            let i = choose|i: int| 0 <= i < kept.len() && kept[i] == f;
            if i < rest.len() {
                assert(rest[i] == f);
                assert(rest.contains(f));
                assert(front.contains(f));
                let j = choose|j: int| 0 <= j < front.len() && front[j] == f;
                assert(folders[j] == f);
            } else {
                assert(f == last);
                assert(folders[folders.len() - 1] == f);
            }
        }
        if folders.contains(f) && !doomed.contains(f.name) {
            let j = choose|j: int| 0 <= j < folders.len() && folders[j] == f;
            if j < front.len() {
                assert(front[j] == f);
                assert(front.contains(f));
                assert(rest.contains(f));
                let i = choose|i: int| 0 <= i < rest.len() && rest[i] == f;
                assert(kept[i] == f);
            } else {
                assert(kept[kept.len() - 1] == f);
            }
        }
    }
}

/// After `without_folders` a name has a folder exactly when it had one and
/// is not doomed.
pub proof fn lemma_without_folders_has(
    folders: Seq<BackupFolderView>,
    doomed: Seq<Seq<char>>,
    name: Seq<char>,
)
    ensures
        has_folder(without_folders(folders, doomed), name) <==> (has_folder(folders, name)
            && !doomed.contains(name)),
{
    let kept = without_folders(folders, doomed);
    lemma_has_folder(kept, name);
    lemma_has_folder(folders, name);
    if has_folder(kept, name) {
        let f = choose|f: BackupFolderView| kept.contains(f) && f.name == name;
        lemma_without_folders_member(folders, doomed, f);
    }
    if has_folder(folders, name) && !doomed.contains(name) {
        let f = choose|f: BackupFolderView| folders.contains(f) && f.name == name;
        lemma_without_folders_member(folders, doomed, f);
    }
}

/// Folder names that were distinct are distinct after `without_folders`.
pub proof fn lemma_without_folders_distinct(folders: Seq<BackupFolderView>, doomed: Seq<Seq<char>>)
    requires
        folder_names(folders).no_duplicates(),
    ensures
        folder_names(without_folders(folders, doomed)).no_duplicates(),
    decreases folders.len(),
{
    let kept = without_folders(folders, doomed);
    if folders.len() > 0 {
        let front = folders.drop_last();
        let last = folders.last();
        let rest = without_folders(front, doomed);
        assert forall|i: int, j: int|
            0 <= i < front.len() && 0 <= j < front.len() && i != j implies folder_names(front)[i]
            != folder_names(front)[j] by {
            assert(folder_names(folders)[i] != folder_names(folders)[j]);
        }
        lemma_without_folders_distinct(front, doomed);
        if !doomed.contains(last.name) {
            assert forall|i: int, j: int|
                0 <= i < kept.len() && 0 <= j < kept.len() && i != j implies folder_names(kept)[i]
                != folder_names(kept)[j] by {
                if i < rest.len() && j < rest.len() {
                    assert(folder_names(rest)[i] != folder_names(rest)[j]);
                } else {
                    let inner = if i < rest.len() {
                        i
                    } else {
                        j
                    };
                    assert(rest.contains(rest[inner]));
                    lemma_without_folders_member(front, doomed, rest[inner]);
                    let m = choose|m: int| 0 <= m < front.len() && front[m] == rest[inner];
                    assert(folder_names(folders)[m] != folder_names(folders)[folders.len() - 1]);
                }
            }
        }
    }
}

/// Taking folders away leaves a well-formed save directory well-formed.
pub proof fn lemma_without_folders_wf(dir: SaveDirView, doomed: Seq<Seq<char>>)
    requires
        dir.wf(),
    ensures
        (SaveDirView { folders: without_folders(dir.folders, doomed), ..dir }).wf(),
{
    let kept = without_folders(dir.folders, doomed);
    lemma_without_folders_distinct(dir.folders, doomed);
    assert forall|i: int| 0 <= i < kept.len() implies crate::backup::tree::file_names(
        (#[trigger] kept[i]).files,
    ).no_duplicates() by {
        assert(kept.contains(kept[i]));
        lemma_without_folders_member(dir.folders, doomed, kept[i]);
        let j = choose|j: int| 0 <= j < dir.folders.len() && dir.folders[j] == kept[i];
        assert(crate::backup::tree::file_names(dir.folders[j].files).no_duplicates());
    }
    if !dir.has_backup_root {
        assert(kept.len() == 0);
    }
}

/// A folder list has a folder of a name exactly when one of its folders
/// carries that name.
pub proof fn lemma_has_folder(folders: Seq<BackupFolderView>, name: Seq<char>)
    ensures
        has_folder(folders, name) <==> exists|f: BackupFolderView|
            folders.contains(f) && f.name == name,
{
    lemma_index_of(folder_names(folders), name);
    if has_folder(folders, name) {
        let i = index_of(folder_names(folders), name).unwrap();
        assert(folders.contains(folders[i]) && folders[i].name == name);
    }
    if exists|f: BackupFolderView| folders.contains(f) && f.name == name {
        let f = choose|f: BackupFolderView| folders.contains(f) && f.name == name;
        let j = choose|j: int| 0 <= j < folders.len() && folders[j] == f;
        assert(folder_names(folders)[j] == name);
    }
}

/// Takes out of `folders` those whose name is among `doomed`.
pub fn remove_folders(folders: &mut Vec<BackupFolder>, doomed: &Vec<String>)
    ensures
        folders_view(final(folders)@) == without_folders(
            folders_view(old(folders)@),
            texts_of(doomed@),
        ),
{
    let ghost orig = folders_view(folders@);
    let ghost names = texts_of(doomed@);
    let ghost mut k: int = 0;
    let mut i: usize = 0;
    assert(orig.take(0) =~= Seq::empty());
    assert(folders_view(folders@).take(0) =~= Seq::empty());
    assert(folders_view(folders@).skip(0) =~= orig.skip(0));
    while i < folders.len()
        invariant
            i <= folders.len(),
            0 <= k <= orig.len(),
            folders.len() - i == orig.len() - k,
            names == texts_of(doomed@),
            folders_view(folders@).take(i as int) == without_folders(orig.take(k), names),
            folders_view(folders@).skip(i as int) == orig.skip(k),
        decreases folders.len() - i,
    {
        let ghost cur = folders_view(folders@);
        assert(cur[i as int] == cur.skip(i as int)[0]);
        assert(orig[k] == orig.skip(k)[0]);
        assert(orig.take(k + 1).drop_last() =~= orig.take(k));
        assert(orig.take(k + 1).last() == orig[k]);
        if contains_text(doomed, &folders[i].name) {
            folders.remove(i);
            assert(folders_view(folders@) =~= cur.remove(i as int));
            assert(cur.remove(i as int).take(i as int) =~= cur.take(i as int));
            assert(cur.remove(i as int).skip(i as int) =~= cur.skip(i as int).skip(1));
            assert(orig.skip(k).skip(1) =~= orig.skip(k + 1));
        } else {
            assert(cur.take(i + 1) =~= cur.take(i as int).push(cur[i as int]));
            assert(cur.skip(i + 1) =~= cur.skip(i as int).skip(1));
            assert(orig.skip(k).skip(1) =~= orig.skip(k + 1));
            i += 1;
        }
        proof {
            k = k + 1;
        }
    }
    assert(orig.take(k) =~= orig);
    assert(folders_view(folders@).take(i as int) =~= folders_view(folders@));
}

/// The snapshots of `slot` in `backups` that are not locked, in their order.
pub open spec fn unlocked_of(backups: Seq<BackupInfoView>, slot: u32) -> Seq<BackupInfoView>
    decreases backups.len(),
{
    if backups.len() == 0 {
        Seq::empty()
    } else {
        let rest = unlocked_of(backups.drop_last(), slot);
        if backups.last().game_number == slot && !backups.last().locked {
            rest.push(backups.last())
        } else {
            rest
        }
    }
}

/// The folder names of a list of snapshots, in order.
pub open spec fn filenames(backups: Seq<BackupInfoView>) -> Seq<Seq<char>> {
    Seq::new(backups.len(), |i: int| backups[i].filename)
}

/// The snapshots that must go before a new one of `slot` is made. With the
/// limit `limit` (0 for none) and `backups` newest first, these are the
/// unlocked snapshots of the slot from position `limit - 1` on, so that
/// `limit - 1` of them stay.
pub open spec fn expired(backups: Seq<BackupInfoView>, slot: u32, limit: nat) -> Seq<
    BackupInfoView,
> {
    let unlocked = unlocked_of(backups, slot);
    if limit > 0 && unlocked.len() >= limit {
        unlocked.skip(limit - 1)
    } else {
        Seq::empty()
    }
}

/// Names the snapshots that must go before a new one of `game_number` is
/// made under the limit. `all_backups` is the catalog, newest first.
pub fn expired_folders(game_number: u32, limit: usize, all_backups: &Vec<BackupInfo>) -> (doomed:
    Vec<String>)
    ensures
        texts_of(doomed@) == filenames(
            expired(infos_view(all_backups@), game_number, limit as nat),
        ),
{
    let ghost backups = infos_view(all_backups@);
    let mut doomed: Vec<String> = Vec::new();
    if limit == 0 {
        assert(texts_of(doomed@) =~= filenames(Seq::empty()));
        return doomed;
    }
    let keep_count = limit - 1;
    let mut seen: usize = 0;
    let mut i: usize = 0;
    assert(backups.take(0) =~= Seq::empty());
    assert(texts_of(doomed@) =~= filenames(Seq::empty()));
    while i < all_backups.len()
        invariant
            i <= all_backups.len(),
            keep_count == limit - 1,
            backups == infos_view(all_backups@),
            seen == unlocked_of(backups.take(i as int), game_number).len(),
            seen <= i,
            texts_of(doomed@) == filenames(
                if seen > keep_count {
                    unlocked_of(backups.take(i as int), game_number).skip(keep_count as int)
                } else {
                    Seq::empty()
                },
            ),
        decreases all_backups.len() - i,
    {
        let ghost before = unlocked_of(backups.take(i as int), game_number);
        assert(backups.take(i + 1).drop_last() =~= backups.take(i as int));
        assert(backups.take(i + 1).last() == backups[i as int]);
        let backup = &all_backups[i];
        if backup.game_number == game_number && !backup.locked {
            let ghost after = before.push(backups[i as int]);
            if seen >= keep_count {
                let ghost names = texts_of(doomed@);
                doomed.push(backup.filename.clone());
                assert(texts_of(doomed@) =~= names.push(backups[i as int].filename));
                assert(after.skip(keep_count as int) =~= (if seen > keep_count {
                    before.skip(keep_count as int)
                } else {
                    Seq::empty()
                }).push(backups[i as int]));
                assert(texts_of(doomed@) =~= filenames(after.skip(keep_count as int)));
            }
            seen += 1;
        }
        i += 1;
    }
    assert(backups.take(i as int) =~= backups);
    doomed
}

/// Deletes the oldest unlocked snapshots of `game_number` that the limit has
/// no room for, counting the one about to be made. `all_backups` is the
/// catalog, newest first. Locked snapshots are neither counted nor deleted.
pub fn enforce_backup_limit(
    save_dir: &mut SaveDir,
    game_number: u32,
    limit: usize,
    all_backups: &Vec<BackupInfo>,
)
    ensures
        final(save_dir)@ == (SaveDirView {
            folders: without_folders(
                old(save_dir)@.folders,
                filenames(expired(infos_view(all_backups@), game_number, limit as nat)),
            ),
            ..old(save_dir)@
        }),
{
    let doomed = expired_folders(game_number, limit, all_backups);
    remove_folders(&mut save_dir.folders, &doomed);
}

/// Deleting no folder leaves all of them.
pub proof fn lemma_without_nothing(folders: Seq<BackupFolderView>)
    ensures
        without_folders(folders, Seq::empty()) == folders,
    decreases folders.len(),
{
    if folders.len() > 0 {
        lemma_without_nothing(folders.drop_last());
        assert(folders.drop_last().push(folders.last()) =~= folders);
    }
}

/// What deleting one snapshot folder does: an error where the save
/// directory has no snapshot folder of that name, and otherwise the folder is
/// gone with all it holds.
pub open spec fn after_delete(dir: SaveDirView, name: Seq<char>) -> (
    SaveDirView,
    Result<(), Seq<char>>,
) {
    if snapshot_exists(dir, name) {
        (SaveDirView { folders: without_folders(dir.folders, seq![name]), ..dir }, Ok(()))
    } else {
        (dir, Err("Backup folder does not exist"@))
    }
}

/// Deletes the snapshot folder `folder_name`.
pub fn delete_backup_folder(save_dir: &mut SaveDir, folder_name: &str) -> (r: Result<(), String>)
    requires
        old(save_dir)@.wf(),
    ensures
        (final(save_dir)@, unit_result_text(r)) == after_delete(old(save_dir)@, folder_name@),
        final(save_dir)@.wf(),
{
    if !save_dir.has_backup_root {
        return Err(String::from_str("Backup folder does not exist"));
    }
    match find_folder(&save_dir.folders, folder_name) {
        Some(_) => {
            let mut doomed: Vec<String> = Vec::new();
            doomed.push(String::from_str(folder_name));
            assert(texts_of(doomed@) =~= seq![folder_name@]);
            proof {
                lemma_without_folders_wf(save_dir@, seq![folder_name@]);
            }
            remove_folders(&mut save_dir.folders, &doomed);
            Ok(())
        },
        None => Err(String::from_str("Backup folder does not exist")),
    }
}

/// Whether the snapshot at position `i` of `backups`, which are newest
/// first, is the newest of its slot.
pub open spec fn is_newest_of_slot(backups: Seq<BackupInfoView>, i: int) -> bool {
    forall|j: int| 0 <= j < i ==> backups[j].game_number != backups[i].game_number
}

/// Whether a batch deletion takes the snapshot at position `i`: its slot is
/// among `games`; it is not the newest of its slot where `keep_latest` is
/// set; and it is not locked unless `delete_locked` is set.
pub open spec fn is_batch_target(
    backups: Seq<BackupInfoView>,
    i: int,
    games: Seq<u32>,
    keep_latest: bool,
    delete_locked: bool,
) -> bool {
    &&& games.contains(backups[i].game_number)
    &&& !(keep_latest && is_newest_of_slot(backups, i))
    &&& (delete_locked || !backups[i].locked)
}

/// The folder names of the snapshots among the first `upto` of `backups`
/// that a batch deletion takes.
pub open spec fn batch_targets(
    backups: Seq<BackupInfoView>,
    upto: int,
    games: Seq<u32>,
    keep_latest: bool,
    delete_locked: bool,
) -> Seq<Seq<char>>
    decreases upto,
{
    if upto <= 0 {
        Seq::empty()
    } else {
        let rest = batch_targets(backups, upto - 1, games, keep_latest, delete_locked);
        if is_batch_target(backups, upto - 1, games, keep_latest, delete_locked) {
            rest.push(backups[upto - 1].filename)
        } else {
            rest
        }
    }
}

/// Tells whether `slot` is among `games`.
fn slot_listed(games: &[u32], slot: u32) -> (r: bool)
    ensures
        r == games@.contains(slot),
{
    let mut g: usize = 0;
    while g < games.len()
        invariant
            g <= games.len(),
            forall|w: int| 0 <= w < g ==> games@[w] != slot,
        decreases games.len() - g,
    {
        if games[g] == slot {
            return true;
        }
        g += 1;
    }
    false
}

/// Tells whether the snapshot at position `i` is the newest of its slot.
fn newest_of_slot(backups: &Vec<BackupInfo>, i: usize) -> (r: bool)
    requires
        i < backups.len(),
    ensures
        r == is_newest_of_slot(infos_view(backups@), i as int),
{
    let mut j: usize = 0;
    while j < i
        invariant
            j <= i < backups.len(),
            forall|m: int|
                0 <= m < j ==> infos_view(backups@)[m].game_number != infos_view(backups@)[i
                    as int].game_number,
        decreases i - j,
    {
        if backups[j].game_number == backups[i].game_number {
            assert(infos_view(backups@)[j as int].game_number == infos_view(backups@)[i
                as int].game_number);
            return false;
        }
        j += 1;
    }
    true
}

/// What a batch deletion does: the snapshots it takes are gone, and their
/// number is returned.
pub open spec fn after_batch_delete(
    dir: SaveDirView,
    games: Seq<u32>,
    keep_latest: bool,
    delete_locked: bool,
) -> (SaveDirView, nat) {
    let backups = catalog(dir, false, None);
    let targets = batch_targets(backups, backups.len() as int, games, keep_latest, delete_locked);
    (SaveDirView { folders: without_folders(dir.folders, targets), ..dir }, targets.len())
}

/// Deletes snapshots of the slots in `target_games`: all of them, or all but
/// the newest of each slot where `keep_latest` is set; locked snapshots only
/// where `delete_locked` is set. Returns how many were deleted.
pub fn delete_backups_batch(
    save_dir: &mut SaveDir,
    target_games: &[u32],
    keep_latest: bool,
    delete_locked: bool,
) -> (deleted: usize)
    requires
        old(save_dir)@.wf(),
    ensures
        (final(save_dir)@, deleted as nat) == after_batch_delete(
            old(save_dir)@,
            target_games@,
            keep_latest,
            delete_locked,
        ),
        final(save_dir)@.wf(),
{
    let backups = get_backups(save_dir, false, None);
    let ghost all = infos_view(backups@);
    let mut doomed: Vec<String> = Vec::new();
    let mut i: usize = 0;
    while i < backups.len()
        invariant
            i <= backups.len(),
            all == infos_view(backups@),
            doomed.len() <= i,
            texts_of(doomed@) == batch_targets(
                all,
                i as int,
                target_games@,
                keep_latest,
                delete_locked,
            ),
        decreases backups.len() - i,
    {
        let backup = &backups[i];
        let wanted = slot_listed(target_games, backup.game_number);
        let newest = newest_of_slot(&backups, i);
        if wanted && !(keep_latest && newest) && (delete_locked || !backup.locked) {
            let ghost names = texts_of(doomed@);
            doomed.push(backup.filename.clone());
            assert(texts_of(doomed@) =~= names.push(all[i as int].filename));
        }
        i += 1;
    }
    proof {
        lemma_without_folders_wf(save_dir@, texts_of(doomed@));
    }
    remove_folders(&mut save_dir.folders, &doomed);
    doomed.len()
}

/// What `unlocked_of` keeps is a snapshot of the list, of the slot, and
/// not locked.
pub proof fn lemma_unlocked_of_contains(backups: Seq<BackupInfoView>, slot: u32, e: BackupInfoView)
    ensures
        unlocked_of(backups, slot).contains(e) <==> (backups.contains(e) && e.game_number == slot
            && !e.locked),
    decreases backups.len(),
{
    let kept = unlocked_of(backups, slot);
    if backups.len() > 0 {
        let front = backups.drop_last();
        let rest = unlocked_of(front, slot);
        lemma_unlocked_of_contains(front, slot, e);
        if kept.contains(e) {
            let i = choose|i: int| 0 <= i < kept.len() && kept[i] == e;
            if i < rest.len() {
                assert(rest[i] == e);
                assert(rest.contains(e));
                let j = choose|j: int| 0 <= j < front.len() && front[j] == e;
                assert(backups[j] == e);
            } else {
                assert(backups[backups.len() - 1] == e);
            }
        }
        if backups.contains(e) && e.game_number == slot && !e.locked {
            let j = choose|j: int| 0 <= j < backups.len() && backups[j] == e;
            if j < front.len() {
                assert(front[j] == e);
                assert(front.contains(e));
                assert(rest.contains(e));
                let i = choose|i: int| 0 <= i < rest.len() && rest[i] == e;
                assert(kept[i] == e);
            } else {
                assert(kept[kept.len() - 1] == e);
            }
        }
    }
}

/// Making room under the limit never deletes a locked snapshot.
pub proof fn lemma_expired_are_unlocked(
    dir: SaveDirView,
    include_hash: bool,
    filter: Option<u32>,
    slot: u32,
    limit: nat,
    f: BackupFolderView,
)
    requires
        dir.wf(),
        dir.folders.contains(f),
        f.locked,
    ensures
        !filenames(expired(catalog(dir, include_hash, filter), slot, limit)).contains(f.name),
        without_folders(
            dir.folders,
            filenames(expired(catalog(dir, include_hash, filter), slot, limit)),
        ).contains(f),
{
    let backups = catalog(dir, include_hash, filter);
    let gone = expired(backups, slot, limit);
    let names = filenames(gone);
    if names.contains(f.name) {
        let k = choose|k: int| 0 <= k < names.len() && names[k] == f.name;
        let e = gone[k];
        let unlocked = unlocked_of(backups, slot);
        assert(unlocked[limit - 1 + k] == e);
        assert(unlocked.contains(e));
        lemma_unlocked_of_contains(backups, slot, e);
        crate::backup::listing::lemma_catalog_contains(dir, include_hash, filter, e);
        let g = choose|g: BackupFolderView|
            dir.folders.contains(g) && crate::backup::listing::folder_entry(dir, g, include_hash)
                == Some(e);
        let a = choose|a: int| 0 <= a < dir.folders.len() && dir.folders[a] == f;
        let b = choose|b: int| 0 <= b < dir.folders.len() && dir.folders[b] == g;
        assert(folder_names(dir.folders)[a] == folder_names(dir.folders)[b]);
        assert(a == b);
        assert(false);
    }
    lemma_without_folders_member(dir.folders, names, f);
}

/// A name that a batch deletion takes is the folder name of a snapshot
/// that it takes.
pub proof fn lemma_batch_targets(
    backups: Seq<BackupInfoView>,
    upto: int,
    games: Seq<u32>,
    keep_latest: bool,
    delete_locked: bool,
    name: Seq<char>,
)
    requires
        upto <= backups.len(),
    ensures
        batch_targets(backups, upto, games, keep_latest, delete_locked).contains(name)
            <==> exists|i: int|
            0 <= i < upto && is_batch_target(backups, i, games, keep_latest, delete_locked)
                && backups[i].filename == name,
    decreases upto,
{
    let all = batch_targets(backups, upto, games, keep_latest, delete_locked);
    if upto > 0 {
        let rest = batch_targets(backups, upto - 1, games, keep_latest, delete_locked);
        lemma_batch_targets(backups, upto - 1, games, keep_latest, delete_locked, name);
        if all.contains(name) {
            let k = choose|k: int| 0 <= k < all.len() && all[k] == name;
            if k < rest.len() {
                assert(rest[k] == name);
                assert(rest.contains(name));
            } else {
                assert(is_batch_target(backups, upto - 1, games, keep_latest, delete_locked)
                    && backups[upto - 1].filename == name);
            }
        }
        if exists|i: int|
            0 <= i < upto && is_batch_target(backups, i, games, keep_latest, delete_locked)
                && backups[i].filename == name {
            let i = choose|i: int|
                0 <= i < upto && is_batch_target(backups, i, games, keep_latest, delete_locked)
                    && backups[i].filename == name;
            if i < upto - 1 {
                assert(rest.contains(name));
                let k = choose|k: int| 0 <= k < rest.len() && rest[k] == name;
                assert(all[k] == name);
            } else {
                assert(all[all.len() - 1] == name);
            }
        }
    }
}

/// A batch deletion that is not told to delete locked snapshots leaves
/// every locked folder where it is.
pub proof fn lemma_batch_keeps_locked(
    dir: SaveDirView,
    games: Seq<u32>,
    keep_latest: bool,
    f: BackupFolderView,
)
    requires
        dir.wf(),
        dir.folders.contains(f),
        f.locked,
    ensures
        after_batch_delete(dir, games, keep_latest, false).0.folders.contains(f),
{
    let backups = catalog(dir, false, None);
    let targets = batch_targets(backups, backups.len() as int, games, keep_latest, false);
    lemma_batch_targets(backups, backups.len() as int, games, keep_latest, false, f.name);
    if targets.contains(f.name) {
        let i = choose|i: int|
            0 <= i < backups.len() && is_batch_target(backups, i, games, keep_latest, false)
                && backups[i].filename == f.name;
        let e = backups[i];
        assert(backups.contains(e));
        crate::backup::listing::lemma_catalog_contains(dir, false, None, e);
        let g = choose|g: BackupFolderView|
            dir.folders.contains(g) && crate::backup::listing::folder_entry(dir, g, false)
                == Some(e);
        let a = choose|a: int| 0 <= a < dir.folders.len() && dir.folders[a] == f;
        let b = choose|b: int| 0 <= b < dir.folders.len() && dir.folders[b] == g;
        assert(folder_names(dir.folders)[a] == folder_names(dir.folders)[b]);
        assert(false);
    }
    lemma_without_folders_member(dir.folders, targets, f);
}

/// A batch deletion that is told to keep the newest leaves the newest
/// snapshot of every slot: the folder of the first snapshot of a slot in the
/// catalog is there afterwards.
pub proof fn lemma_batch_keeps_newest(
    dir: SaveDirView,
    games: Seq<u32>,
    delete_locked: bool,
    i: int,
)
    requires
        dir.wf(),
        0 <= i < catalog(dir, false, None).len(),
        is_newest_of_slot(catalog(dir, false, None), i),
    ensures
        has_folder(
            after_batch_delete(dir, games, true, delete_locked).0.folders,
            catalog(dir, false, None)[i].filename,
        ),
{
    let backups = catalog(dir, false, None);
    let e = backups[i];
    let targets = batch_targets(backups, backups.len() as int, games, true, delete_locked);
    lemma_batch_targets(backups, backups.len() as int, games, true, delete_locked, e.filename);
    crate::backup::retention::lemma_catalog_distinct(dir, false, None);
    if targets.contains(e.filename) {
        let j = choose|j: int|
            0 <= j < backups.len() && is_batch_target(backups, j, games, true, delete_locked)
                && backups[j].filename == e.filename;
        assert(j == i);
        assert(false);
    }
    assert(backups.contains(e));
    crate::backup::listing::lemma_catalog_contains(dir, false, None, e);
    let g = choose|g: BackupFolderView|
        dir.folders.contains(g) && crate::backup::listing::folder_entry(dir, g, false) == Some(e);
    lemma_has_folder(dir.folders, e.filename);
    lemma_without_folders_has(dir.folders, targets, e.filename);
}

} // verus!
