//! Why the retention limit holds: after a backup that made a snapshot, the
//! catalog shows at most as many unlocked snapshots of the slot as the limit
//! allows, and exactly as many where it showed that many before. Making room
//! deletes the oldest unlocked snapshots of the slot and never a locked one.

use vstd::prelude::*;
use crate::backup::cleanup::expired;
use crate::backup::cleanup::filenames;
use crate::backup::cleanup::lemma_unlocked_of_contains;
use crate::backup::cleanup::lemma_without_folders_distinct;
use crate::backup::cleanup::lemma_without_folders_member;
use crate::backup::cleanup::lemma_without_nothing;
use crate::backup::cleanup::unlocked_of;
use crate::backup::cleanup::without_folders;
use crate::backup::create::backed_up;
use crate::backup::create::metadata_of;
use crate::backup::create::resolved_hash;
use crate::backup::create::with_room_made;
use crate::backup::data::BackupInfoView;
use crate::backup::index::BackupIndexView;
use crate::backup::index::loaded_index;
use crate::backup::listing::catalog;
use crate::backup::listing::folder_entry;
use crate::backup::listing::lemma_catalog_contains;
use crate::backup::listing::lemma_listed_contains;
use crate::backup::listing::lemma_newest_first_contains;
use crate::backup::listing::lemma_placed_contains;
use crate::backup::listing::listed;
use crate::backup::listing::newest_first;
use crate::backup::listing::passes;
use crate::backup::listing::placed;
use crate::backup::tree::BackupFolderView;
use crate::backup::tree::SaveDirView;
use crate::backup::tree::file_named;
use crate::backup::tree::folder_names;
use crate::filename_utils::folder_name;
use crate::filename_utils::main_filename;
use crate::filename_utils::parsed_folder_name;
use crate::lookup::lemma_index_of;

verus! {

/// Whether a folder is an unlocked snapshot of `slot`.
pub open spec fn counts(folder: BackupFolderView, slot: u32) -> bool {
    match parsed_folder_name(folder.name) {
        Some(info) => folder.moment_exists && info.game_number == slot && !folder.locked
            && file_named(folder.files, main_filename(info.game_number)) is Some,
        None => false,
    }
}

/// How many of `folders` are unlocked snapshots of `slot`.
pub open spec fn unlocked_count(folders: Seq<BackupFolderView>, slot: u32) -> nat
    decreases folders.len(),
{
    if folders.len() == 0 {
        0
    } else {
        unlocked_count(folders.drop_last(), slot) + if counts(folders.last(), slot) {
            1nat
        } else {
            0nat
        }
    }
}

/// A listing shows each unlocked snapshot of the slot once, where the
/// filter lets the slot pass.
proof fn lemma_listed_unlocked_len(
    path: Seq<char>,
    notes: Map<Seq<char>, Seq<char>>,
    folders: Seq<BackupFolderView>,
    include_hash: bool,
    filter: Option<u32>,
    slot: u32,
)
    ensures
        unlocked_of(listed(path, notes, folders, include_hash, filter), slot).len() == if passes(
            filter,
            slot,
        ) {
            unlocked_count(folders, slot)
        } else {
            0
        },
    decreases folders.len(),
{
    if folders.len() > 0 {
        let rest = listed(path, notes, folders.drop_last(), include_hash, filter);
        lemma_listed_unlocked_len(path, notes, folders.drop_last(), include_hash, filter, slot);
        let all = listed(path, notes, folders, include_hash, filter);
        if all != rest {
            assert(all.drop_last() =~= rest);
        }
    }
}

/// Putting a snapshot into a list adds one to the unlocked snapshots of
/// its slot, if it is unlocked.
proof fn lemma_placed_unlocked_len(sorted: Seq<BackupInfoView>, x: BackupInfoView, slot: u32)
    ensures
        unlocked_of(placed(sorted, x), slot).len() == unlocked_of(sorted, slot).len()
            + if x.game_number == slot && !x.locked {
            1nat
        } else {
            0nat
        },
    decreases sorted.len(),
{
    if sorted.len() > 0 && sorted.last().modified.before(x.modified) {
        lemma_placed_unlocked_len(sorted.drop_last(), x, slot);
        let inner = placed(sorted.drop_last(), x);
        assert(inner.push(sorted.last()).drop_last() =~= inner);
    } else {
        assert(sorted.push(x).drop_last() =~= sorted);
    }
}

/// Sorting does not change how many unlocked snapshots a slot has.
proof fn lemma_newest_first_unlocked_len(infos: Seq<BackupInfoView>, slot: u32)
    ensures
        unlocked_of(newest_first(infos), slot).len() == unlocked_of(infos, slot).len(),
    decreases infos.len(),
{
    if infos.len() > 0 {
        lemma_newest_first_unlocked_len(infos.drop_last(), slot);
        lemma_placed_unlocked_len(newest_first(infos.drop_last()), infos.last(), slot);
    }
}

/// The catalog shows as many unlocked snapshots of a slot as there are
/// folders that are such snapshots, where the filter lets the slot pass.
pub proof fn lemma_catalog_unlocked_len(
    dir: SaveDirView,
    include_hash: bool,
    filter: Option<u32>,
    slot: u32,
)
    ensures
        unlocked_of(catalog(dir, include_hash, filter), slot).len() == if dir.has_backup_root
            && passes(filter, slot) {
            unlocked_count(dir.folders, slot)
        } else {
            0
        },
{
    if dir.has_backup_root {
        let all = listed(dir.path, loaded_index(dir).notes, dir.folders, include_hash, filter);
        lemma_newest_first_unlocked_len(all, slot);
        lemma_listed_unlocked_len(
            dir.path,
            loaded_index(dir).notes,
            dir.folders,
            include_hash,
            filter,
            slot,
        );
    }
}

/// Whether no two snapshots of `infos` have one folder name.
pub open spec fn distinct_filenames(infos: Seq<BackupInfoView>) -> bool {
    forall|i: int, j: int|
        0 <= i < infos.len() && 0 <= j < infos.len() && i != j ==> infos[i].filename
            != infos[j].filename
}

/// A listing of folders with distinct names shows distinct folder names.
pub proof fn lemma_listed_distinct(
    dir: SaveDirView,
    folders: Seq<BackupFolderView>,
    include_hash: bool,
    filter: Option<u32>,
)
    requires
        folder_names(folders).no_duplicates(),
    ensures
        distinct_filenames(
            listed(dir.path, loaded_index(dir).notes, folders, include_hash, filter),
        ),
    decreases folders.len(),
{
    let all = listed(dir.path, loaded_index(dir).notes, folders, include_hash, filter);
    if folders.len() > 0 {
        let front = folders.drop_last();
        let last = folders.last();
        let rest = listed(dir.path, loaded_index(dir).notes, front, include_hash, filter);
        assert forall|i: int, j: int|
            0 <= i < front.len() && 0 <= j < front.len() && i != j implies folder_names(front)[i]
            != folder_names(front)[j] by {
            assert(folder_names(folders)[i] != folder_names(folders)[j]);
        }
        lemma_listed_distinct(dir, front, include_hash, filter);
        if all != rest {
            assert forall|i: int, j: int|
                0 <= i < all.len() && 0 <= j < all.len() && i != j implies all[i].filename
                != all[j].filename by {
                if i < rest.len() && j < rest.len() {
                    assert(rest[i].filename != rest[j].filename);
                } else {
                    let inner = if i < rest.len() {
                        i
                    } else {
                        j
                    };
                    assert(rest.contains(rest[inner]));
                    lemma_listed_contains(dir, front, include_hash, filter, rest[inner]);
                    let f = choose|f: BackupFolderView|
                        front.contains(f) && folder_entry(dir, f, include_hash) == Some(
                            rest[inner],
                        );
                    let m = choose|m: int| 0 <= m < front.len() && front[m] == f;
                    assert(folder_names(folders)[m] != folder_names(folders)[folders.len() - 1]);
                }
            }
        }
    }
}

/// Putting in a snapshot whose folder name is new keeps the folder names
/// distinct.
proof fn lemma_placed_distinct(sorted: Seq<BackupInfoView>, x: BackupInfoView)
    requires
        distinct_filenames(sorted),
        forall|i: int| 0 <= i < sorted.len() ==> sorted[i].filename != x.filename,
    ensures
        distinct_filenames(placed(sorted, x)),
    decreases sorted.len(),
{
    let after = placed(sorted, x);
    if sorted.len() > 0 && sorted.last().modified.before(x.modified) {
        let front = sorted.drop_last();
        let inner = placed(front, x);
        assert(distinct_filenames(front)) by {
            assert forall|i: int, j: int|
                0 <= i < front.len() && 0 <= j < front.len() && i != j implies front[i].filename
                != front[j].filename by {
                assert(sorted[i].filename != sorted[j].filename);
            }
        }
        assert forall|i: int| 0 <= i < front.len() implies front[i].filename != x.filename by {
            assert(sorted[i].filename != x.filename);
        }
        lemma_placed_distinct(front, x);
        assert forall|i: int, j: int|
            0 <= i < after.len() && 0 <= j < after.len() && i != j implies after[i].filename
            != after[j].filename by {
            if i < inner.len() && j < inner.len() {
                assert(inner[i].filename != inner[j].filename);
            } else {
                let k = if i < inner.len() {
                    i
                } else {
                    j
                };
                assert(inner.contains(inner[k]));
                lemma_placed_contains(front, x, inner[k]);
                if inner[k] != x {
                    let m = choose|m: int| 0 <= m < front.len() && front[m] == inner[k];
                    assert(sorted[m].filename != sorted[sorted.len() - 1].filename);
                } else {
                    assert(sorted[sorted.len() - 1].filename != x.filename);
                }
            }
        }
    } else {
        assert forall|i: int, j: int|
            0 <= i < after.len() && 0 <= j < after.len() && i != j implies after[i].filename
            != after[j].filename by {
            if i < sorted.len() && j < sorted.len() {
                assert(sorted[i].filename != sorted[j].filename);
            } else if i < sorted.len() {
                assert(sorted[i].filename != x.filename);
            } else {
                assert(sorted[j].filename != x.filename);
            }
        }
    }
}

/// Sorting keeps the folder names distinct.
pub proof fn lemma_newest_first_distinct(infos: Seq<BackupInfoView>)
    requires
        distinct_filenames(infos),
    ensures
        distinct_filenames(newest_first(infos)),
    decreases infos.len(),
{
    if infos.len() > 0 {
        let front = infos.drop_last();
        assert(distinct_filenames(front)) by {
            assert forall|i: int, j: int|
                0 <= i < front.len() && 0 <= j < front.len() && i != j implies front[i].filename
                != front[j].filename by {
                assert(infos[i].filename != infos[j].filename);
            }
        }
        lemma_newest_first_distinct(front);
        let sorted = newest_first(front);
        assert forall|i: int| 0 <= i < sorted.len() implies sorted[i].filename
            != infos.last().filename by {
            assert(sorted.contains(sorted[i]));
            lemma_newest_first_contains(front, sorted[i]);
            let m = choose|m: int| 0 <= m < front.len() && front[m] == sorted[i];
            assert(infos[m].filename != infos[infos.len() - 1].filename);
        }
        lemma_placed_distinct(sorted, infos.last());
    }
}

/// The unlocked snapshots of a slot have distinct folder names where all
/// snapshots have.
proof fn lemma_unlocked_of_distinct(backups: Seq<BackupInfoView>, slot: u32)
    requires
        distinct_filenames(backups),
    ensures
        distinct_filenames(unlocked_of(backups, slot)),
    decreases backups.len(),
{
    let kept = unlocked_of(backups, slot);
    if backups.len() > 0 {
        let front = backups.drop_last();
        let rest = unlocked_of(front, slot);
        assert(distinct_filenames(front)) by {
            assert forall|i: int, j: int|
                0 <= i < front.len() && 0 <= j < front.len() && i != j implies front[i].filename
                != front[j].filename by {
                assert(backups[i].filename != backups[j].filename);
            }
        }
        lemma_unlocked_of_distinct(front, slot);
        if kept != rest {
            assert forall|i: int, j: int|
                0 <= i < kept.len() && 0 <= j < kept.len() && i != j implies kept[i].filename
                != kept[j].filename by {
                if i < rest.len() && j < rest.len() {
                    assert(rest[i].filename != rest[j].filename);
                } else {
                    let k = if i < rest.len() {
                        i
                    } else {
                        j
                    };
                    assert(rest.contains(rest[k]));
                    lemma_unlocked_of_contains(front, slot, rest[k]);
                    let m = choose|m: int| 0 <= m < front.len() && front[m] == rest[k];
                    assert(backups[m].filename != backups[backups.len() - 1].filename);
                }
            }
        }
    }
}

/// Where no folder carries a doomed name, none is taken away.
proof fn lemma_without_untouched(folders: Seq<BackupFolderView>, doomed: Seq<Seq<char>>)
    requires
        forall|i: int| 0 <= i < folders.len() ==> !doomed.contains(folders[i].name),
    ensures
        without_folders(folders, doomed) == folders,
    decreases folders.len(),
{
    if folders.len() > 0 {
        assert forall|i: int| 0 <= i < folders.drop_last().len() implies !doomed.contains(
            folders.drop_last()[i].name,
        ) by {
            assert(!doomed.contains(folders[i].name));
        }
        lemma_without_untouched(folders.drop_last(), doomed);
        assert(!doomed.contains(folders[folders.len() - 1].name));
        assert(folders.drop_last().push(folders.last()) =~= folders);
    }
}

/// Taking away the one unlocked snapshot of the slot that carries `name`
/// leaves one less.
proof fn lemma_remove_one(folders: Seq<BackupFolderView>, slot: u32, name: Seq<char>, at: int)
    requires
        folder_names(folders).no_duplicates(),
        0 <= at < folders.len(),
        folders[at].name == name,
        counts(folders[at], slot),
    ensures
        unlocked_count(without_folders(folders, seq![name]), slot) + 1 == unlocked_count(
            folders,
            slot,
        ),
    decreases folders.len(),
{
    let front = folders.drop_last();
    let last = folders.last();
    let doomed = seq![name];
    assert(doomed[0] == name);
    if at == folders.len() - 1 {
        assert forall|i: int| 0 <= i < front.len() implies !doomed.contains(front[i].name) by {
            assert(folder_names(folders)[i] != folder_names(folders)[at]);
        }
        lemma_without_untouched(front, doomed);
        assert(doomed.contains(last.name));
    } else {
        assert forall|i: int, j: int|
            0 <= i < front.len() && 0 <= j < front.len() && i != j implies folder_names(front)[i]
            != folder_names(front)[j] by {
            assert(folder_names(folders)[i] != folder_names(folders)[j]);
        }
        assert(front[at] == folders[at]);
        lemma_remove_one(front, slot, name, at);
        assert(folder_names(folders)[at] != folder_names(folders)[folders.len() - 1]);
        assert(!doomed.contains(last.name));
        let kept = without_folders(folders, doomed);
        assert(kept.drop_last() =~= without_folders(front, doomed));
    }
}

/// Taking away the folders of some names and then those of one more name
/// is taking away the folders of all these names.
proof fn lemma_without_in_steps(
    folders: Seq<BackupFolderView>,
    doomed: Seq<Seq<char>>,
    name: Seq<char>,
)
    ensures
        without_folders(folders, doomed.push(name)) == without_folders(
            without_folders(folders, doomed),
            seq![name],
        ),
    decreases folders.len(),
{
    let all = doomed.push(name);
    let one = seq![name];
    assert(one[0] == name);
    assert(all.last() == name);
    if folders.len() > 0 {
        let front = folders.drop_last();
        let last = folders.last();
        lemma_without_in_steps(front, doomed, name);
        if doomed.contains(last.name) {
            let k = choose|k: int| 0 <= k < doomed.len() && doomed[k] == last.name;
            assert(all[k] == last.name);
        } else if last.name == name {
            assert(all[all.len() - 1] == last.name);
            assert(one.contains(last.name));
            let kept = without_folders(front, doomed).push(last);
            assert(kept.drop_last() =~= without_folders(front, doomed));
        } else {
            assert(!one.contains(last.name));
            assert(!all.contains(last.name)) by {
                if all.contains(last.name) {
                    let k = choose|k: int| 0 <= k < all.len() && all[k] == last.name;
                    if k < doomed.len() {
                        assert(doomed[k] == last.name);
                    }
                }
            }
            let kept = without_folders(front, doomed).push(last);
            assert(kept.drop_last() =~= without_folders(front, doomed));
        }
    }
}

/// Whether each of `names` is the name of a folder that is an unlocked
/// snapshot of `slot`.
pub open spec fn name_unlocked_snapshots(
    folders: Seq<BackupFolderView>,
    slot: u32,
    names: Seq<Seq<char>>,
) -> bool {
    forall|k: int|
        0 <= k < names.len() ==> exists|i: int|
            0 <= i < folders.len() && folders[i].name == #[trigger] names[k] && counts(
                folders[i],
                slot,
            )
}

/// Taking away unlocked snapshots of the slot by their names, each name
/// once, leaves that many less.
proof fn lemma_remove_counted(folders: Seq<BackupFolderView>, slot: u32, doomed: Seq<Seq<char>>)
    requires
        folder_names(folders).no_duplicates(),
        doomed.no_duplicates(),
        name_unlocked_snapshots(folders, slot, doomed),
    ensures
        unlocked_count(without_folders(folders, doomed), slot) + doomed.len() == unlocked_count(
            folders,
            slot,
        ),
    decreases doomed.len(),
{
    if doomed.len() == 0 {
        assert(doomed =~= Seq::empty());
        lemma_without_nothing(folders);
    } else {
        let before = doomed.drop_last();
        let name = doomed.last();
        assert(before.push(name) =~= doomed);
        assert(name_unlocked_snapshots(folders, slot, before)) by {
            assert forall|k: int| 0 <= k < before.len() implies exists|i: int|
                0 <= i < folders.len() && folders[i].name == #[trigger] before[k] && counts(
                    folders[i],
                    slot,
                ) by {
                assert(before[k] == doomed[k]);
            }
        }
        lemma_remove_counted(folders, slot, before);
        let left = without_folders(folders, before);
        lemma_without_folders_distinct(folders, before);
        lemma_without_in_steps(folders, before, name);
        assert(doomed[doomed.len() - 1] == name);
        let i = choose|i: int|
            0 <= i < folders.len() && folders[i].name == doomed[doomed.len() - 1] && counts(
                folders[i],
                slot,
            );
        assert(!before.contains(name)) by {
            if before.contains(name) {
                let k = choose|k: int| 0 <= k < before.len() && before[k] == name;
                assert(doomed[k] == doomed[doomed.len() - 1]);
            }
        }
        assert(folders.contains(folders[i]));
        lemma_without_folders_member(folders, before, folders[i]);
        let at = choose|at: int| 0 <= at < left.len() && left[at] == folders[i];
        lemma_remove_one(left, slot, name, at);
    }
}

/// Two lists of folders that differ in one folder at most differ by one at
/// most in their unlocked snapshots of a slot.
proof fn lemma_one_change(a: Seq<BackupFolderView>, b: Seq<BackupFolderView>, at: int, slot: u32)
    requires
        a.len() == b.len(),
        forall|j: int| 0 <= j < a.len() && j != at ==> a[j] == b[j],
    ensures
        unlocked_count(b, slot) <= unlocked_count(a, slot) + 1,
        at < 0 || at >= a.len() ==> unlocked_count(b, slot) == unlocked_count(a, slot),
    decreases a.len(),
{
    if a.len() > 0 {
        let last = a.len() - 1;
        if at == last {
            lemma_one_change(a.drop_last(), b.drop_last(), -1, slot);
        } else {
            lemma_one_change(a.drop_last(), b.drop_last(), at, slot);
            assert(a[last] == b[last]);
        }
    }
}

/// Adding a folder adds one to the unlocked snapshots of a slot where the
/// folder is one, and nothing otherwise.
pub proof fn lemma_count_push(folders: Seq<BackupFolderView>, f: BackupFolderView, slot: u32)
    ensures
        unlocked_count(folders.push(f), slot) == unlocked_count(folders, slot) + if counts(f, slot) {
            1nat
        } else {
            0nat
        },
{
    assert(folders.push(f).drop_last() =~= folders);
}

/// The snapshots that go when room is made have distinct folder names, and
/// each is a folder that is an unlocked snapshot of the slot.
proof fn lemma_expired_names(dir: SaveDirView, slot: u32, limit: nat)
    requires
        dir.wf(),
    ensures
        filenames(expired(catalog(dir, true, Some(slot)), slot, limit)).no_duplicates(),
        name_unlocked_snapshots(
            dir.folders,
            slot,
            filenames(expired(catalog(dir, true, Some(slot)), slot, limit)),
        ),
{
    let backups = catalog(dir, true, Some(slot));
    let unlocked = unlocked_of(backups, slot);
    let gone = expired(backups, slot, limit);
    let names = filenames(gone);
    if dir.has_backup_root {
        lemma_listed_distinct(dir, dir.folders, true, Some(slot));
        lemma_newest_first_distinct(
            listed(dir.path, loaded_index(dir).notes, dir.folders, true, Some(slot)),
        );
    }
    lemma_unlocked_of_distinct(backups, slot);
    if limit > 0 && unlocked.len() >= limit {
        assert forall|a: int, b: int|
            0 <= a < names.len() && 0 <= b < names.len() && a != b implies names[a] != names[b] by {
            assert(unlocked[limit - 1 + a].filename != unlocked[limit - 1 + b].filename);
        }
        assert forall|k: int| 0 <= k < names.len() implies exists|i: int|
            0 <= i < dir.folders.len() && dir.folders[i].name == #[trigger] names[k] && counts(
                dir.folders[i],
                slot,
            ) by {
            let e = unlocked[limit - 1 + k];
            assert(unlocked.contains(e));
            lemma_unlocked_of_contains(backups, slot, e);
            lemma_catalog_contains(dir, true, Some(slot), e);
            let f = choose|f: BackupFolderView|
                dir.folders.contains(f) && folder_entry(dir, f, true) == Some(e);
            let i = choose|i: int| 0 <= i < dir.folders.len() && dir.folders[i] == f;
            assert(dir.folders[i].name == names[k] && counts(dir.folders[i], slot));
        }
    }
}

/// How many unlocked snapshots of the slot stay when room is made under
/// the limit: all of them where they are fewer than the limit, and one less
/// than the limit otherwise.
pub open spec fn room_left(before: nat, limit: nat) -> nat {
    if limit > 0 && before >= limit {
        (limit - 1) as nat
    } else {
        before
    }
}

/// Making room leaves exactly the unlocked snapshots that the limit allows
/// beside the one to be made.
pub proof fn lemma_room_count(dir: SaveDirView, slot: u32, limit: nat)
    requires
        dir.wf(),
    ensures
        unlocked_count(with_room_made(dir, slot, limit).folders, slot) == room_left(
            unlocked_count(dir.folders, slot),
            limit,
        ),
{
    let backups = catalog(dir, true, Some(slot));
    let names = filenames(expired(backups, slot, limit));
    lemma_catalog_unlocked_len(dir, true, Some(slot), slot);
    lemma_expired_names(dir, slot, limit);
    lemma_remove_counted(dir.folders, slot, names);
    if !dir.has_backup_root {
        assert(unlocked_count(dir.folders, slot) == 0);
    }
}

/// After a backup that made a snapshot under the limit `limit`, at most
/// `limit` folders are unlocked snapshots of the slot.
pub proof fn lemma_backup_leaves_limit(
    dir: SaveDirView,
    index: BackupIndexView,
    slot: u32,
    limit: nat,
)
    requires
        dir.wf(),
        limit > 0,
        backed_up(dir, index, slot, limit).created is Some,
    ensures
        unlocked_count(backed_up(dir, index, slot, limit).dir.folders, slot) <= limit,
{
    let main = file_named(dir.files, main_filename(slot)).unwrap();
    let hash = resolved_hash(index, slot, metadata_of(main), main.data).0;
    let room = with_room_made(dir, slot, limit);
    lemma_room_count(dir, slot, limit);
    lemma_count_push(room.folders, crate::backup::create::new_folder(dir.files, slot, hash), slot);
}

/// The folder that a backup makes is an unlocked snapshot of its slot,
/// where chrono reads its name back.
pub proof fn lemma_new_folder_counts(files: Seq<crate::backup::tree::SaveFileView>, slot: u32, hash: Seq<char>)
    requires
        slot < u32::MAX,
        file_named(files, main_filename(slot)) matches Some(main) && crate::timestamp::reads_back(
            main.modified,
        ),
    ensures
        counts(crate::backup::create::new_folder(files, slot, hash), slot),
{
    let main = file_named(files, main_filename(slot)).unwrap();
    let made = crate::backup::create::new_folder(files, slot, hash);
    crate::filename_utils::lemma_folder_name_round_trip(slot, main.modified);
    lemma_index_of(crate::backup::tree::file_names(files), main_filename(slot));
    assert(made.files[0] == main);
    assert(crate::backup::tree::file_names(made.files)[0] == main_filename(slot));
    crate::lookup::lemma_index_of_is(
        crate::backup::tree::file_names(made.files),
        main_filename(slot),
        0,
    );
}

/// The count after a backup that made a snapshot: the unlocked snapshots of
/// the slot that stayed, and the new one. Where there were as many as the
/// limit or more, there are exactly as many as the limit afterwards.
pub proof fn lemma_backup_count(dir: SaveDirView, index: BackupIndexView, slot: u32, limit: nat)
    requires
        dir.wf(),
        slot < u32::MAX,
        backed_up(dir, index, slot, limit).created is Some,
        crate::timestamp::reads_back(file_named(dir.files, main_filename(slot)).unwrap().modified),
    ensures
        unlocked_count(backed_up(dir, index, slot, limit).dir.folders, slot) == room_left(
            unlocked_count(dir.folders, slot),
            limit,
        ) + 1,
        counts(
            crate::backup::create::new_folder(
                dir.files,
                slot,
                resolved_hash(
                    index,
                    slot,
                    metadata_of(file_named(dir.files, main_filename(slot)).unwrap()),
                    file_named(dir.files, main_filename(slot)).unwrap().data,
                ).0,
            ),
            slot,
        ),
{
    let main = file_named(dir.files, main_filename(slot)).unwrap();
    let hash = resolved_hash(index, slot, metadata_of(main), main.data).0;
    let room = with_room_made(dir, slot, limit);
    let made = crate::backup::create::new_folder(dir.files, slot, hash);
    lemma_room_count(dir, slot, limit);
    lemma_new_folder_counts(dir.files, slot, hash);
    lemma_count_push(room.folders, made, slot);
}

/// After a backup that made a snapshot under the limit `limit`, the
/// catalog shows at most `limit` unlocked snapshots of the slot, whatever it
/// showed before and however many locked snapshots there are.
pub proof fn lemma_backup_respects_limit(
    dir: SaveDirView,
    index: BackupIndexView,
    slot: u32,
    limit: nat,
    include_hash: bool,
    filter: Option<u32>,
)
    requires
        dir.wf(),
        limit > 0,
        backed_up(dir, index, slot, limit).created is Some,
    ensures
        unlocked_of(
            catalog(backed_up(dir, index, slot, limit).dir, include_hash, filter),
            slot,
        ).len() <= limit,
{
    lemma_backup_leaves_limit(dir, index, slot, limit);
    lemma_catalog_unlocked_len(backed_up(dir, index, slot, limit).dir, include_hash, filter, slot);
}

/// After the backup of a slot has made a snapshot under the limit `limit`,
/// the catalog of the save directory shows at most `limit` unlocked snapshots
/// of the slot.
pub proof fn lemma_perform_backup_respects_limit(
    dir: SaveDirView,
    slot: u32,
    limit: nat,
    include_hash: bool,
    filter: Option<u32>,
)
    requires
        dir.wf(),
        limit > 0,
        crate::backup::create::after_backup(dir, slot, limit).1 matches Ok(Some(_)),
    ensures
        unlocked_of(
            catalog(crate::backup::create::after_backup(dir, slot, limit).0, include_hash, filter),
            slot,
        ).len() <= limit,
{
    let rooted = crate::backup::index::with_backup_root(dir);
    let loaded = loaded_index(rooted);
    assert(rooted.wf());
    lemma_backup_leaves_limit(rooted, loaded, slot, limit);
    lemma_catalog_unlocked_len(
        crate::backup::create::after_backup(dir, slot, limit).0,
        include_hash,
        filter,
        slot,
    );
}

/// The backup of a slot never deletes a locked snapshot, whatever the
/// limit: a folder that is locked before is there afterwards, exactly as it
/// was.
pub proof fn lemma_perform_backup_keeps_locked(
    dir: SaveDirView,
    slot: u32,
    limit: nat,
    f: BackupFolderView,
)
    requires
        dir.wf(),
        dir.folders.contains(f),
        f.locked,
    ensures
        crate::backup::create::after_backup(dir, slot, limit).0.folders.contains(f),
{
    if dir.exists && file_named(dir.files, main_filename(slot)) is Some {
        let rooted = crate::backup::index::with_backup_root(dir);
        let loaded = loaded_index(rooted);
        assert(rooted.wf());
        crate::backup::create::lemma_backup_keeps_locked(rooted, loaded, slot, limit, f);
    }
}

/// No two snapshots in the catalog of a well-formed save directory have one
/// folder name.
pub proof fn lemma_catalog_distinct(dir: SaveDirView, include_hash: bool, filter: Option<u32>)
    requires
        dir.wf(),
    ensures
        distinct_filenames(catalog(dir, include_hash, filter)),
{
    if dir.has_backup_root {
        lemma_listed_distinct(dir, dir.folders, include_hash, filter);
        lemma_newest_first_distinct(
            listed(dir.path, loaded_index(dir).notes, dir.folders, include_hash, filter),
        );
    }
}

/// The folder that a backup makes is shown in the catalog, where chrono
/// reads its name back: the catalog of the save directory afterwards has a
/// snapshot of the slot under the new folder's name.
pub proof fn lemma_new_snapshot_is_listed(
    dir: SaveDirView,
    index: BackupIndexView,
    slot: u32,
    limit: nat,
    include_hash: bool,
)
    requires
        slot < u32::MAX,
        backed_up(dir, index, slot, limit).created is Some,
        crate::timestamp::reads_back(file_named(dir.files, main_filename(slot)).unwrap().modified),
    ensures
        exists|e: BackupInfoView|
            catalog(backed_up(dir, index, slot, limit).dir, include_hash, None).contains(e)
                && e.game_number == slot && e.filename == folder_name(
                slot,
                file_named(dir.files, main_filename(slot)).unwrap().modified,
            ) && !e.locked,
{
    let after = backed_up(dir, index, slot, limit).dir;
    let main = file_named(dir.files, main_filename(slot)).unwrap();
    let hash = resolved_hash(index, slot, metadata_of(main), main.data).0;
    let made = crate::backup::create::new_folder(dir.files, slot, hash);
    lemma_new_folder_counts(dir.files, slot, hash);
    let room = with_room_made(dir, slot, limit);
    assert(after.folders[room.folders.len() as int] == made);
    assert(after.folders.contains(made));
    let e = folder_entry(after, made, include_hash).unwrap();
    lemma_catalog_contains(after, include_hash, None, e);
}

/// The count of the catalog after the backup of a slot has made a snapshot:
/// the catalog shows the unlocked snapshots of the slot that stayed when room
/// was made, and the new one. Where it showed as many as the limit before, or
/// more, it shows exactly as many as the limit afterwards.
pub proof fn lemma_perform_backup_count(dir: SaveDirView, slot: u32, limit: nat, include_hash: bool)
    requires
        dir.wf(),
        slot < u32::MAX,
        crate::backup::create::after_backup(dir, slot, limit).1 matches Ok(Some(_)),
        crate::timestamp::reads_back(file_named(dir.files, main_filename(slot)).unwrap().modified),
    ensures
        unlocked_of(
            catalog(crate::backup::create::after_backup(dir, slot, limit).0, include_hash, None),
            slot,
        ).len() == room_left(unlocked_of(catalog(dir, include_hash, None), slot).len(), limit) + 1,
{
    let rooted = crate::backup::index::with_backup_root(dir);
    let loaded = loaded_index(rooted);
    assert(rooted.wf());
    lemma_backup_count(rooted, loaded, slot, limit);
    lemma_catalog_unlocked_len(
        crate::backup::create::after_backup(dir, slot, limit).0,
        include_hash,
        None,
        slot,
    );
    lemma_catalog_unlocked_len(dir, include_hash, None, slot);
    if !dir.has_backup_root {
        assert(unlocked_count(dir.folders, slot) == 0);
    }
}

/// The unlocked snapshots of a slot run from the newest to the oldest where
/// all snapshots do.
pub proof fn lemma_unlocked_of_sorted(backups: Seq<BackupInfoView>, slot: u32)
    requires
        crate::backup::listing::is_newest_first(backups),
    ensures
        crate::backup::listing::is_newest_first(unlocked_of(backups, slot)),
    decreases backups.len(),
{
    let kept = unlocked_of(backups, slot);
    if backups.len() > 0 {
        let front = backups.drop_last();
        let rest = unlocked_of(front, slot);
        assert(crate::backup::listing::is_newest_first(front)) by {
            assert forall|i: int, j: int| 0 <= i < j < front.len() implies !front[i].modified.before(
                front[j].modified,
            ) by {
                assert(!backups[i].modified.before(backups[j].modified));
            }
        }
        lemma_unlocked_of_sorted(front, slot);
        if kept != rest {
            assert forall|i: int, j: int| 0 <= i < j < kept.len() implies !kept[i].modified.before(
                kept[j].modified,
            ) by {
                if j < rest.len() {
                    assert(!rest[i].modified.before(rest[j].modified));
                } else {
                    assert(rest.contains(rest[i]));
                    lemma_unlocked_of_contains(front, slot, rest[i]);
                    let m = choose|m: int| 0 <= m < front.len() && front[m] == rest[i];
                    assert(!backups[m].modified.before(backups[backups.len() - 1].modified));
                }
            }
        }
    }
}

/// The oldest go first: none of the snapshots that are deleted to make room
/// is newer than an unlocked snapshot of the slot that stays.
pub proof fn lemma_oldest_go(dir: SaveDirView, slot: u32, limit: nat, stays: int, goes: int)
    requires
        limit > 0,
        0 <= stays < limit - 1,
        0 <= goes < expired(catalog(dir, true, Some(slot)), slot, limit).len(),
    ensures
        ({
            let unlocked = unlocked_of(catalog(dir, true, Some(slot)), slot);
            let gone = expired(catalog(dir, true, Some(slot)), slot, limit);
            &&& stays < unlocked.len()
            &&& gone[goes] == unlocked[limit - 1 + goes]
            &&& !unlocked[stays].modified.before(gone[goes].modified)
        }),
{
    crate::backup::listing::lemma_catalog_newest_first(dir, true, Some(slot));
    lemma_unlocked_of_sorted(catalog(dir, true, Some(slot)), slot);
}

/// The folder that a backup makes can be restored, where chrono reads its
/// name back: it is a snapshot of its slot.
pub proof fn lemma_new_folder_is_snapshot(
    files: Seq<crate::backup::tree::SaveFileView>,
    slot: u32,
    hash: Seq<char>,
)
    requires
        slot < u32::MAX,
        file_named(files, main_filename(slot)) matches Some(main) && crate::timestamp::reads_back(
            main.modified,
        ),
    ensures
        crate::backup::restore::is_snapshot_of(
            crate::backup::create::new_folder(files, slot, hash),
            slot,
        ),
{
    lemma_new_folder_counts(files, slot, hash);
}

/// Under the limit nothing has to go: where there is no limit, or the
/// unlocked snapshots of the slot are fewer than the limit, making room
/// deletes no folder.
pub proof fn lemma_room_enough(dir: SaveDirView, slot: u32, limit: nat)
    requires
        limit == 0 || unlocked_count(dir.folders, slot) < limit,
    ensures
        with_room_made(dir, slot, limit) == dir,
{
    lemma_catalog_unlocked_len(dir, true, Some(slot), slot);
    let gone = expired(catalog(dir, true, Some(slot)), slot, limit);
    assert(gone.len() == 0);
    assert(filenames(gone) =~= Seq::empty());
    crate::backup::cleanup::lemma_without_nothing(dir.folders);
}

/// The moment in the name of a snapshot folder.
pub open spec fn moment_of(folder: BackupFolderView) -> crate::timestamp::LocalDateTime {
    parsed_folder_name(folder.name).unwrap().timestamp
}

/// Whether `f` is an unlocked snapshot of `slot` among `folders` that is
/// newer than every other one.
pub open spec fn is_newest_unlocked(
    folders: Seq<BackupFolderView>,
    slot: u32,
    f: BackupFolderView,
) -> bool {
    &&& folders.contains(f)
    &&& counts(f, slot)
    &&& forall|g: BackupFolderView|
        #![trigger folders.contains(g)]
        folders.contains(g) && counts(g, slot) && g != f ==> moment_of(g).before(moment_of(f))
}

/// Whether `f` is an unlocked snapshot of `slot` among `folders` that is
/// older than every other one.
pub open spec fn is_oldest_unlocked(
    folders: Seq<BackupFolderView>,
    slot: u32,
    f: BackupFolderView,
) -> bool {
    &&& folders.contains(f)
    &&& counts(f, slot)
    &&& forall|g: BackupFolderView|
        #![trigger folders.contains(g)]
        folders.contains(g) && counts(g, slot) && g != f ==> moment_of(f).before(moment_of(g))
}

/// The folder behind an unlocked snapshot of the catalog: it is one of the
/// folders, carries the snapshot's name and moment, and is an unlocked
/// snapshot of the slot.
proof fn lemma_folder_behind(dir: SaveDirView, slot: u32, e: BackupInfoView) -> (f:
    BackupFolderView)
    requires
        unlocked_of(catalog(dir, true, Some(slot)), slot).contains(e),
    ensures
        dir.folders.contains(f),
        counts(f, slot),
        f.name == e.filename,
        moment_of(f) == e.modified,
{
    lemma_unlocked_of_contains(catalog(dir, true, Some(slot)), slot, e);
    lemma_catalog_contains(dir, true, Some(slot), e);
    choose|f: BackupFolderView| dir.folders.contains(f) && folder_entry(dir, f, true) == Some(e)
}

/// The snapshot of the catalog behind a folder that is an unlocked snapshot
/// of the slot: it is among the unlocked snapshots of the slot, under the
/// folder's name and moment.
proof fn lemma_entry_behind(dir: SaveDirView, slot: u32, f: BackupFolderView) -> (e:
    BackupInfoView)
    requires
        dir.wf(),
        dir.folders.contains(f),
        counts(f, slot),
    ensures
        unlocked_of(catalog(dir, true, Some(slot)), slot).contains(e),
        e.filename == f.name,
        e.modified == moment_of(f),
{
    let e = folder_entry(dir, f, true).unwrap();
    if !dir.has_backup_root {
        assert(dir.folders.len() == 0);
    }
    lemma_catalog_contains(dir, true, Some(slot), e);
    lemma_unlocked_of_contains(catalog(dir, true, Some(slot)), slot, e);
    e
}

/// Two folders of a well-formed save directory with one name are one
/// folder.
proof fn lemma_one_name_one_folder(dir: SaveDirView, f: BackupFolderView, g: BackupFolderView)
    requires
        dir.wf(),
        dir.folders.contains(f),
        dir.folders.contains(g),
        f.name == g.name,
    ensures
        f == g,
{
    let a = choose|a: int| 0 <= a < dir.folders.len() && dir.folders[a] == f;
    let b = choose|b: int| 0 <= b < dir.folders.len() && dir.folders[b] == g;
    assert(folder_names(dir.folders)[a] == folder_names(dir.folders)[b]);
}

/// The newest stays: where the limit is not one, making room does not
/// delete the unlocked snapshot of the slot that is newer than every other.
pub proof fn lemma_newest_stays(dir: SaveDirView, slot: u32, limit: nat, f: BackupFolderView)
    requires
        dir.wf(),
        limit != 1,
        is_newest_unlocked(dir.folders, slot, f),
    ensures
        with_room_made(dir, slot, limit).folders.contains(f),
{
    let backups = catalog(dir, true, Some(slot));
    let unlocked = unlocked_of(backups, slot);
    let gone = expired(backups, slot, limit);
    let names = filenames(gone);
    if names.contains(f.name) {
        let k = choose|k: int| 0 <= k < names.len() && names[k] == f.name;
        let e = gone[k];
        assert(e == unlocked[limit - 1 + k]);
        let top = unlocked[0];
        crate::backup::listing::lemma_catalog_newest_first(dir, true, Some(slot));
        lemma_unlocked_of_sorted(backups, slot);
        assert(!top.modified.before(e.modified));
        lemma_catalog_distinct(dir, true, Some(slot));
        lemma_unlocked_of_distinct(backups, slot);
        assert(top.filename != e.filename);
        assert(unlocked.contains(e));
        assert(unlocked.contains(top));
        let fe = lemma_folder_behind(dir, slot, e);
        let ft = lemma_folder_behind(dir, slot, top);
        lemma_one_name_one_folder(dir, fe, f);
        assert(moment_of(ft).before(moment_of(f)));
        assert(false);
    }
    lemma_without_folders_member(dir.folders, names, f);
}

/// The oldest goes: where the unlocked snapshots of the slot are as many as
/// the limit or more, making room deletes the one that is older than every
/// other.
pub proof fn lemma_oldest_goes(dir: SaveDirView, slot: u32, limit: nat, f: BackupFolderView)
    requires
        dir.wf(),
        limit > 0,
        unlocked_count(dir.folders, slot) >= limit,
        is_oldest_unlocked(dir.folders, slot, f),
    ensures
        !with_room_made(dir, slot, limit).folders.contains(f),
{
    let backups = catalog(dir, true, Some(slot));
    let unlocked = unlocked_of(backups, slot);
    let gone = expired(backups, slot, limit);
    let names = filenames(gone);
    lemma_catalog_unlocked_len(dir, true, Some(slot), slot);
    if !dir.has_backup_root {
        assert(dir.folders.len() == 0);
    }
    let e = lemma_entry_behind(dir, slot, f);
    let at = choose|at: int| 0 <= at < unlocked.len() && unlocked[at] == e;
    let end = unlocked.len() - 1;
    if at < end {
        let last = unlocked[end];
        crate::backup::listing::lemma_catalog_newest_first(dir, true, Some(slot));
        lemma_unlocked_of_sorted(backups, slot);
        assert(!e.modified.before(last.modified));
        lemma_catalog_distinct(dir, true, Some(slot));
        lemma_unlocked_of_distinct(backups, slot);
        assert(last.filename != e.filename);
        assert(unlocked.contains(last));
        let fl = lemma_folder_behind(dir, slot, last);
        assert(moment_of(f).before(moment_of(fl)));
        assert(false);
    }
    assert(gone[at - (limit - 1)] == e);
    assert(names[at - (limit - 1)] == f.name);
    lemma_without_folders_member(dir.folders, names, f);
}

/// After the backup of a slot at most as many folders as the limit are
/// unlocked snapshots of the slot, where there were no more before: whether
/// the backup made a snapshot or not.
pub proof fn lemma_perform_backup_within_limit(dir: SaveDirView, slot: u32, limit: nat)
    requires
        dir.wf(),
        limit > 0,
        unlocked_count(dir.folders, slot) <= limit,
    ensures
        unlocked_count(crate::backup::create::after_backup(dir, slot, limit).0.folders, slot)
            <= limit,
{
    if crate::backup::create::after_backup(dir, slot, limit).1 matches Ok(Some(_)) {
        let rooted = crate::backup::index::with_backup_root(dir);
        assert(rooted.wf());
        lemma_backup_leaves_limit(rooted, loaded_index(rooted), slot, limit);
    }
}

/// Retention beside a lock, over two backups. A save directory holds a
/// locked snapshot `kept` and one unlocked snapshot less of the slot than the
/// limit allows, `aged` the oldest of them. A backup makes the snapshot `a` of
/// save files that are newer than all of these; the save files change to
/// `changed`, newer again, and a second backup makes the snapshot `b`. Then the
/// first backup deletes nothing, the second deletes `aged`, and `kept` is there
/// after each as it was: at the end the folders hold `kept`, `a` and `b`, not
/// `aged`, and as many unlocked snapshots of the slot as the limit.
pub proof fn lemma_two_backups_beside_a_lock(
    dir: SaveDirView,
    slot: u32,
    limit: nat,
    kept: BackupFolderView,
    aged: BackupFolderView,
    changed: Seq<crate::backup::tree::SaveFileView>,
)
    requires
        dir.wf(),
        slot < u32::MAX,
        limit >= 2,
        unlocked_count(dir.folders, slot) + 1 == limit,
        dir.folders.contains(kept),
        kept.locked,
        is_oldest_unlocked(dir.folders, slot, aged),
        crate::backup::create::after_backup(dir, slot, limit).1 matches Ok(Some(_)),
        ({
            let moment = file_named(dir.files, main_filename(slot)).unwrap().modified;
            let first = crate::backup::create::after_backup(dir, slot, limit).0;
            let edited = SaveDirView { files: changed, ..first };
            let later = file_named(changed, main_filename(slot)).unwrap().modified;
            &&& crate::timestamp::reads_back(moment)
            &&& forall|g: BackupFolderView|
                #![trigger dir.folders.contains(g)]
                dir.folders.contains(g) && counts(g, slot) ==> moment_of(g).before(moment)
            &&& edited.wf()
            &&& crate::backup::create::after_backup(edited, slot, limit).1 matches Ok(Some(_))
            &&& crate::timestamp::reads_back(later)
            &&& moment.before(later)
        }),
    ensures
        ({
            let first = crate::backup::create::after_backup(dir, slot, limit).0;
            let edited = SaveDirView { files: changed, ..first };
            let second = crate::backup::create::after_backup(edited, slot, limit).0;
            let a = first.folders.last();
            let b = second.folders.last();
            &&& a.hash is Some
            &&& a == crate::backup::create::new_folder(dir.files, slot, a.hash.unwrap())
            &&& b.hash is Some
            &&& b == crate::backup::create::new_folder(changed, slot, b.hash.unwrap())
            &&& first.folders == dir.folders.push(a)
            &&& second.folders.contains(kept)
            &&& second.folders.contains(a)
            &&& !second.folders.contains(aged)
            &&& unlocked_count(second.folders, slot) == limit
        }),
{
    let rooted = crate::backup::index::with_backup_root(dir);
    let loaded = loaded_index(rooted);
    assert(rooted.wf());
    lemma_room_enough(rooted, slot, limit);
    crate::backup::create::lemma_backup_keeps_wf(rooted, loaded, slot, limit);
    let main = file_named(dir.files, main_filename(slot)).unwrap();
    let hash = resolved_hash(loaded, slot, metadata_of(main), main.data).0;
    let a = crate::backup::create::new_folder(dir.files, slot, hash);
    let first = crate::backup::create::after_backup(dir, slot, limit).0;
    assert(first.folders == dir.folders.push(a));
    assert(first.folders.last() == a);
    lemma_new_folder_counts(dir.files, slot, hash);
    crate::filename_utils::lemma_folder_name_round_trip(slot, main.modified);
    assert(moment_of(a) == main.modified);
    lemma_count_push(dir.folders, a, slot);

    let edited = SaveDirView { files: changed, ..first };
    assert(crate::backup::index::with_backup_root(edited) == edited);
    let loaded_again = loaded_index(edited);
    let main_again = file_named(changed, main_filename(slot)).unwrap();
    let hash_again = resolved_hash(loaded_again, slot, metadata_of(main_again), main_again.data).0;
    let b = crate::backup::create::new_folder(changed, slot, hash_again);
    let room = with_room_made(edited, slot, limit);
    let second = crate::backup::create::after_backup(edited, slot, limit).0;
    assert(second.folders == room.folders.push(b));
    assert(second.folders.last() == b);
    lemma_new_folder_counts(changed, slot, hash_again);
    crate::filename_utils::lemma_folder_name_round_trip(slot, main_again.modified);
    assert(moment_of(b) == main_again.modified);

    assert(edited.folders[dir.folders.len() as int] == a);
    assert(edited.folders.contains(a));
    assert forall|g: BackupFolderView| edited.folders.contains(g) implies dir.folders.contains(g)
        || g == a by {
        let i = choose|i: int| 0 <= i < edited.folders.len() && edited.folders[i] == g;
        if i < dir.folders.len() {
            assert(dir.folders[i] == g);
        }
    }
    assert forall|g: BackupFolderView| dir.folders.contains(g) implies edited.folders.contains(
        g,
    ) by {
        let i = choose|i: int| 0 <= i < dir.folders.len() && dir.folders[i] == g;
        assert(edited.folders[i] == g);
    }
    assert(is_newest_unlocked(edited.folders, slot, a));
    assert(is_oldest_unlocked(edited.folders, slot, aged));
    lemma_newest_stays(edited, slot, limit, a);
    lemma_oldest_goes(edited, slot, limit, aged);
    crate::backup::cleanup::lemma_expired_are_unlocked(edited, true, Some(slot), slot, limit, kept);

    let at_a = choose|i: int| 0 <= i < room.folders.len() && room.folders[i] == a;
    assert(second.folders[at_a] == a);
    let at_kept = choose|i: int| 0 <= i < room.folders.len() && room.folders[i] == kept;
    assert(second.folders[at_kept] == kept);
    if second.folders.contains(aged) {
        let i = choose|i: int| 0 <= i < second.folders.len() && second.folders[i] == aged;
        if i < room.folders.len() {
            assert(room.folders[i] == aged);
            assert(room.folders.contains(aged));
        } else {
            assert(moment_of(aged) == main_again.modified);
        }
        assert(false);
    }
    lemma_backup_count(edited, loaded_again, slot, limit);
}

} // verus!
