//! The catalog: what snapshots a save directory has, newest first. It is read
//! from the folders under `.backups` alone, never from the index, so it stays
//! right where the index has drifted.

use vstd::prelude::*;
use crate::backup::common::BACKUP_DIR_NAME;
use crate::backup::data::BackupInfo;
use crate::backup::data::BackupInfoView;
use crate::backup::data::infos_view;
use crate::backup::index::BackupStore;
use crate::backup::index::backup_root_path;
use crate::backup::index::loaded_index;
use crate::backup::tree::BackupFolder;
use crate::backup::tree::BackupFolderView;
use crate::backup::tree::SaveDir;
use crate::backup::tree::SaveDirView;
use crate::backup::tree::file_named;
use crate::backup::tree::find_file;
use crate::backup::tree::folders_view;
use crate::filename_utils::BackupFolderInfo;
use crate::filename_utils::main_file_name;
use crate::filename_utils::main_filename;
use crate::filename_utils::parse_backup_folder_name;
use crate::filename_utils::parsed_folder_name;
use crate::paths::join;
use crate::paths::path_join;
use crate::text::trim;
use crate::text::trimmed;

verus! {

/// The digest that a folder records, without white space around it; empty
/// where it is not asked for or the folder has no hash marker.
pub open spec fn recorded_hash(folder: BackupFolderView, include_hash: bool) -> Seq<char> {
    if include_hash {
        match folder.hash {
            Some(h) => trim(h),
            None => Seq::empty(),
        }
    } else {
        Seq::empty()
    }
}

/// What a folder tells of a snapshot, given what its name tells and the
/// paths of the folder and of the save file it was taken of. A folder that
/// lacks the main save file of its slot is no snapshot.
pub open spec fn snapshot_info(
    folder: BackupFolderView,
    info: BackupFolderInfo,
    path: Seq<char>,
    original_path: Seq<char>,
    include_hash: bool,
) -> Option<BackupInfoView> {
    match file_named(folder.files, main_filename(info.game_number)) {
        None => None,
        Some(main) => Some(
            BackupInfoView {
                path,
                filename: folder.name,
                original_filename: main_filename(info.game_number),
                original_path,
                size: main.data.len() as u64,
                modified: info.timestamp,
                game_number: info.game_number,
                locked: folder.locked,
                hash: recorded_hash(folder, include_hash),
                note: None,
            },
        ),
    }
}

/// What a folder under `.backups` tells of a snapshot. A folder whose name is
/// not that of a snapshot, whose moment does not exist on the local clock, or
/// that lacks the main save file of its slot, is no snapshot.
pub open spec fn folder_info(
    save_dir: Seq<char>,
    folder: BackupFolderView,
    include_hash: bool,
) -> Option<BackupInfoView> {
    match parsed_folder_name(folder.name) {
        None => None,
        Some(info) => if folder.moment_exists {
            snapshot_info(
                folder,
                info,
                path_join(backup_root_path(save_dir), folder.name),
                path_join(save_dir, main_filename(info.game_number)),
                include_hash,
            )
        } else {
            None
        },
    }
}

/// Describes the snapshot in `folder`, given what the folder's name tells
/// and the paths of the folder and of the save file it was taken of.
pub fn describe_snapshot(
    folder: &BackupFolder,
    info: BackupFolderInfo,
    path: String,
    original_path: String,
    include_hash: bool,
) -> (r: Option<BackupInfo>)
    ensures
        match r {
            Some(described) => snapshot_info(folder@, info, path@, original_path@, include_hash)
                == Some(described@),
            None => snapshot_info(folder@, info, path@, original_path@, include_hash) is None,
        },
{
    let main_filename = main_file_name(info.game_number);
    let main = match find_file(&folder.files, main_filename.as_str()) {
        Some(i) => &folder.files[i],
        None => {
            return None;
        },
    };
    let size = main.data.len() as u64;
    let hash = if include_hash {
        match &folder.hash {
            Some(h) => trimmed(h.as_str()),
            None => String::new(),
        }
    } else {
        String::new()
    };
    Some(
        BackupInfo {
            path,
            filename: folder.name.clone(),
            original_filename: main_filename,
            original_path,
            size,
            modified: info.timestamp,
            game_number: info.game_number,
            locked: folder.locked,
            hash,
            note: None,
        },
    )
}

/// Builds the description of a snapshot from its folder, if the folder is one.
pub fn backup_info_from_folder(folder: &BackupFolder, save_dir: &str, include_hash: bool) -> (r:
    Option<BackupInfo>)
    ensures
        match r {
            Some(info) => folder_info(save_dir@, folder@, include_hash) == Some(info@),
            None => folder_info(save_dir@, folder@, include_hash) is None,
        },
{
    let info = match parse_backup_folder_name(folder.name.as_str()) {
        Some(info) => info,
        None => {
            return None;
        },
    };
    if !folder.moment_exists {
        return None;
    }
    let root = join(save_dir, BACKUP_DIR_NAME);
    let path = join(root.as_str(), folder.name.as_str());
    let original_path = join(save_dir, main_file_name(info.game_number).as_str());
    describe_snapshot(folder, info, path, original_path, include_hash)
}

/// Whether a snapshot of `slot` passes the slot filter.
pub open spec fn passes(filter: Option<u32>, slot: u32) -> bool {
    match filter {
        Some(wanted) => slot == wanted,
        None => true,
    }
}

/// The note of `folder` in `notes`.
pub open spec fn note_of(notes: Map<Seq<char>, Seq<char>>, folder: Seq<char>) -> Option<
    Seq<char>,
> {
    if notes.contains_key(folder) {
        Some(notes[folder])
    } else {
        None
    }
}

/// The snapshots among `folders`, in the order of the folders, each with its
/// note, and only those that pass the slot filter.
pub open spec fn listed(
    save_dir: Seq<char>,
    notes: Map<Seq<char>, Seq<char>>,
    folders: Seq<BackupFolderView>,
    include_hash: bool,
    filter: Option<u32>,
) -> Seq<BackupInfoView>
    decreases folders.len(),
{
    if folders.len() == 0 {
        Seq::empty()
    } else {
        let rest = listed(save_dir, notes, folders.drop_last(), include_hash, filter);
        match folder_info(save_dir, folders.last(), include_hash) {
            Some(info) => if passes(filter, info.game_number) {
                rest.push(BackupInfoView { note: note_of(notes, info.filename), ..info })
            } else {
                rest
            },
            None => rest,
        }
    }
}

/// `sorted` with `x` put in by its moment: behind every snapshot that is not
/// older than `x`, before the older ones.
pub open spec fn placed(sorted: Seq<BackupInfoView>, x: BackupInfoView) -> Seq<BackupInfoView>
    decreases sorted.len(),
{
    if sorted.len() > 0 && sorted.last().modified.before(x.modified) {
        placed(sorted.drop_last(), x).push(sorted.last())
    } else {
        sorted.push(x)
    }
}

/// The snapshots of `infos` from the newest to the oldest; those of one
/// moment stay in the order they had.
pub open spec fn newest_first(infos: Seq<BackupInfoView>) -> Seq<BackupInfoView>
    decreases infos.len(),
{
    if infos.len() == 0 {
        Seq::empty()
    } else {
        placed(newest_first(infos.drop_last()), infos.last())
    }
}

/// The catalog of a save directory: its snapshots, newest first. Without
/// `.backups` it is empty.
pub open spec fn catalog(dir: SaveDirView, include_hash: bool, filter: Option<u32>) -> Seq<
    BackupInfoView,
> {
    if dir.has_backup_root {
        newest_first(
            listed(dir.path, loaded_index(dir).notes, dir.folders, include_hash, filter),
        )
    } else {
        Seq::empty()
    }
}

/// Putting `x` in at position `at` is what `placed` does, where every
/// snapshot from `at` on is older than `x` and the one before `at` is not.
proof fn lemma_placed_at(sorted: Seq<BackupInfoView>, x: BackupInfoView, at: int)
    requires
        0 <= at <= sorted.len(),
        forall|j: int| at <= j < sorted.len() ==> sorted[j].modified.before(x.modified),
        at > 0 ==> !sorted[at - 1].modified.before(x.modified),
    ensures
        placed(sorted, x) == sorted.insert(at, x),
    decreases sorted.len(),
{
    if at == sorted.len() {
        assert(sorted.insert(at, x) =~= sorted.push(x));
    } else {
        lemma_placed_at(sorted.drop_last(), x, at);
        assert(sorted.drop_last().insert(at, x).push(sorted.last()) =~= sorted.insert(at, x));
    }
}

/// Puts `info` into `sorted` by its moment.
fn place(sorted: &mut Vec<BackupInfo>, info: BackupInfo)
    ensures
        infos_view(final(sorted)@) == placed(infos_view(old(sorted)@), info@),
{
    let ghost before = infos_view(sorted@);
    let mut at: usize = sorted.len();
    while at > 0 && sorted[at - 1].modified.is_before(&info.modified)
        invariant
            at <= sorted.len(),
            sorted@ == old(sorted)@,
            before == infos_view(sorted@),
            forall|j: int| at <= j < sorted.len() ==> before[j].modified.before(info@.modified),
        decreases at,
    {
        at -= 1;
    }
    proof {
        lemma_placed_at(before, info@, at as int);
    }
    sorted.insert(at, info);
    assert(infos_view(sorted@) =~= before.insert(at as int, info@));
}

/// Lists the snapshots of a save directory, newest first. `include_hash`
/// asks for the recorded digests; `filter` keeps the snapshots of one slot.
pub fn get_backups(save_dir: &SaveDir, include_hash: bool, filter: Option<u32>) -> (backups: Vec<
    BackupInfo,
>)
    ensures
        infos_view(backups@) == catalog(save_dir@, include_hash, filter),
{
    let store = match BackupStore::load_if_exists(save_dir) {
        Some(s) => s,
        None => {
            let empty: Vec<BackupInfo> = Vec::new();
            assert(infos_view(empty@) =~= Seq::empty());
            return empty;
        },
    };
    let mut backups: Vec<BackupInfo> = Vec::new();
    let ghost folders = save_dir@.folders;
    let ghost notes = loaded_index(save_dir@).notes;
    assert(infos_view(backups@) =~= Seq::empty());
    assert(folders.take(0) =~= Seq::empty());
    let mut i: usize = 0;
    while i < save_dir.folders.len()
        invariant
            i <= save_dir.folders.len(),
            folders == save_dir@.folders,
            folders == folders_view(save_dir.folders@),
            notes == store.index@.notes,
            infos_view(backups@) == newest_first(
                listed(save_dir@.path, notes, folders.take(i as int), include_hash, filter),
            ),
        decreases save_dir.folders.len() - i,
    {
        assert(folders.take(i + 1).drop_last() =~= folders.take(i as int));
        assert(folders.take(i + 1).last() == save_dir.folders@[i as int]@);
        let ghost prev = listed(
            save_dir@.path,
            notes,
            folders.take(i as int),
            include_hash,
            filter,
        );
        let ghost next = listed(save_dir@.path, notes, folders.take(i + 1), include_hash, filter);
        let ghost found = folder_info(save_dir@.path, folders[i as int], include_hash);
        assert(next == match found {
            Some(info) => if passes(filter, info.game_number) {
                prev.push(BackupInfoView { note: note_of(notes, info.filename), ..info })
            } else {
                prev
            },
            None => prev,
        });
        match backup_info_from_folder(&save_dir.folders[i], save_dir.path.as_str(), include_hash) {
            Some(mut info) => {
                let wanted = match filter {
                    Some(slot) => info.game_number == slot,
                    None => true,
                };
                if wanted {
                    let ghost bare = info@;
                    match store.index.note(info.filename.as_str()) {
                        Some(note) => {
                            info.note = Some(note.clone());
                        },
                        None => {},
                    }
                    assert(info@ == BackupInfoView {
                        note: note_of(notes, bare.filename),
                        ..bare
                    });
                    assert(prev.push(info@).drop_last() =~= prev);
                    assert(prev.push(info@).last() == info@);
                    place(&mut backups, info);
                }
            },
            None => {},
        }
        i += 1;
    }
    assert(folders.take(i as int) =~= folders);
    backups
}

/// `placed` holds what it held before and the snapshot that was put in,
/// and nothing else.
pub proof fn lemma_placed_contains(
    sorted: Seq<BackupInfoView>,
    x: BackupInfoView,
    e: BackupInfoView,
)
    ensures
        placed(sorted, x).contains(e) <==> (sorted.contains(e) || e == x),
    decreases sorted.len(),
{
    let after = placed(sorted, x);
    if sorted.len() > 0 && sorted.last().modified.before(x.modified) {
        let front = sorted.drop_last();
        let inner = placed(front, x);
        lemma_placed_contains(front, x, e);
        if after.contains(e) {
            let i = choose|i: int| 0 <= i < after.len() && after[i] == e;
            if i < inner.len() {
                assert(inner[i] == e);
                assert(inner.contains(e));
                if front.contains(e) {
                    let j = choose|j: int| 0 <= j < front.len() && front[j] == e;
                    assert(sorted[j] == e);
                }
            } else {
                assert(sorted[sorted.len() - 1] == e);
            }
        }
        if sorted.contains(e) || e == x {
            if e == x || front.contains(e) {
                assert(inner.contains(e));
                let i = choose|i: int| 0 <= i < inner.len() && inner[i] == e;
                assert(after[i] == e);
            } else {
                let j = choose|j: int| 0 <= j < sorted.len() && sorted[j] == e;
                if j < front.len() {
                    assert(front[j] == e);
                }
                assert(after[after.len() - 1] == e);
            }
        }
    } else {
        if after.contains(e) {
            let i = choose|i: int| 0 <= i < after.len() && after[i] == e;
            if i < sorted.len() {
                assert(sorted[i] == e);
            }
        }
        if sorted.contains(e) {
            let j = choose|j: int| 0 <= j < sorted.len() && sorted[j] == e;
            assert(after[j] == e);
        }
        if e == x {
            assert(after[after.len() - 1] == e);
        }
    }
}

/// Sorting loses no snapshot and invents none.
pub proof fn lemma_newest_first_contains(infos: Seq<BackupInfoView>, e: BackupInfoView)
    ensures
        newest_first(infos).contains(e) <==> infos.contains(e),
        newest_first(infos).len() == infos.len(),
    decreases infos.len(),
{
    if infos.len() > 0 {
        let front = infos.drop_last();
        lemma_newest_first_contains(front, e);
        lemma_placed_contains(newest_first(front), infos.last(), e);
        lemma_placed_len(newest_first(front), infos.last());
        if infos.contains(e) {
            let j = choose|j: int| 0 <= j < infos.len() && infos[j] == e;
            if j < front.len() {
                assert(front[j] == e);
            }
        }
        if front.contains(e) {
            let j = choose|j: int| 0 <= j < front.len() && front[j] == e;
            assert(infos[j] == e);
        }
        if e == infos.last() {
            assert(infos[infos.len() - 1] == e);
        }
    }
}

/// `placed` makes the list longer by one.
pub proof fn lemma_placed_len(sorted: Seq<BackupInfoView>, x: BackupInfoView)
    ensures
        placed(sorted, x).len() == sorted.len() + 1,
    decreases sorted.len(),
{
    if sorted.len() > 0 && sorted.last().modified.before(x.modified) {
        lemma_placed_len(sorted.drop_last(), x);
    }
}

/// Whether no snapshot of `infos` stands before a newer one.
pub open spec fn is_newest_first(infos: Seq<BackupInfoView>) -> bool {
    forall|i: int, j: int|
        0 <= i < j < infos.len() ==> !infos[i].modified.before(infos[j].modified)
}

/// Putting a snapshot into a list that is newest first leaves it newest first.
pub proof fn lemma_placed_sorted(sorted: Seq<BackupInfoView>, x: BackupInfoView)
    requires
        is_newest_first(sorted),
    ensures
        is_newest_first(placed(sorted, x)),
    decreases sorted.len(),
{
    let after = placed(sorted, x);
    if sorted.len() > 0 && sorted.last().modified.before(x.modified) {
        let front = sorted.drop_last();
        let inner = placed(front, x);
        assert(is_newest_first(front)) by {
            assert forall|i: int, j: int|
                0 <= i < j < front.len() implies !front[i].modified.before(front[j].modified) by {
                assert(!sorted[i].modified.before(sorted[j].modified));
            }
        }
        lemma_placed_sorted(front, x);
        lemma_placed_len(front, x);
        assert forall|i: int, j: int| 0 <= i < j < after.len() implies !after[i].modified.before(
            after[j].modified,
        ) by {
            if j < inner.len() {
                assert(!inner[i].modified.before(inner[j].modified));
            } else {
                assert(inner.contains(inner[i]));
                lemma_placed_contains(front, x, inner[i]);
                if inner[i] != x {
                    let k = choose|k: int| 0 <= k < front.len() && front[k] == inner[i];
                    assert(!sorted[k].modified.before(sorted[sorted.len() - 1].modified));
                }
            }
        }
    } else {
        assert forall|i: int, j: int| 0 <= i < j < after.len() implies !after[i].modified.before(
            after[j].modified,
        ) by {
            if j < sorted.len() {
                assert(!sorted[i].modified.before(sorted[j].modified));
            } else {
                if i < sorted.len() - 1 {
                    assert(!sorted[i].modified.before(sorted[sorted.len() - 1].modified));
                }
            }
        }
    }
}

/// The catalog runs from the newest snapshot to the oldest.
pub proof fn lemma_catalog_newest_first(dir: SaveDirView, include_hash: bool, filter: Option<u32>)
    ensures
        is_newest_first(catalog(dir, include_hash, filter)),
{
    if dir.has_backup_root {
        lemma_newest_first_sorted(
            listed(dir.path, loaded_index(dir).notes, dir.folders, include_hash, filter),
        );
    }
}

/// What `newest_first` gives is newest first.
pub proof fn lemma_newest_first_sorted(infos: Seq<BackupInfoView>)
    ensures
        is_newest_first(newest_first(infos)),
    decreases infos.len(),
{
    if infos.len() > 0 {
        lemma_newest_first_sorted(infos.drop_last());
        lemma_placed_sorted(newest_first(infos.drop_last()), infos.last());
    }
}

/// What the catalog tells of one folder: the description of the folder, with
/// the folder's note.
pub open spec fn folder_entry(
    dir: SaveDirView,
    folder: BackupFolderView,
    include_hash: bool,
) -> Option<BackupInfoView> {
    match folder_info(dir.path, folder, include_hash) {
        Some(info) => Some(
            BackupInfoView { note: note_of(loaded_index(dir).notes, info.filename), ..info },
        ),
        None => None,
    }
}

/// Every snapshot in a listing is the entry of one of the folders, and
/// passes the filter; and every folder that is a snapshot and passes the filter
/// has its entry in the listing.
pub proof fn lemma_listed_contains(
    dir: SaveDirView,
    folders: Seq<BackupFolderView>,
    include_hash: bool,
    filter: Option<u32>,
    e: BackupInfoView,
)
    ensures
        listed(dir.path, loaded_index(dir).notes, folders, include_hash, filter).contains(e)
            <==> (passes(filter, e.game_number) && exists|f: BackupFolderView|
            folders.contains(f) && folder_entry(dir, f, include_hash) == Some(e)),
    decreases folders.len(),
{
    let all = listed(dir.path, loaded_index(dir).notes, folders, include_hash, filter);
    if folders.len() > 0 {
        let front = folders.drop_last();
        let last = folders.last();
        let rest = listed(dir.path, loaded_index(dir).notes, front, include_hash, filter);
        lemma_listed_contains(dir, front, include_hash, filter, e);
        let added = folder_entry(dir, last, include_hash) is Some && passes(
            filter,
            folder_entry(dir, last, include_hash).unwrap().game_number,
        );
        if all.contains(e) {
            let i = choose|i: int| 0 <= i < all.len() && all[i] == e;
            if i < rest.len() {
                assert(rest[i] == e);
                assert(rest.contains(e));
                let f = choose|f: BackupFolderView|
                    front.contains(f) && folder_entry(dir, f, include_hash) == Some(e);
                let j = choose|j: int| 0 <= j < front.len() && front[j] == f;
                assert(folders[j] == f);
                assert(folders.contains(f));
            } else {
                assert(folders[folders.len() - 1] == last);
                assert(folders.contains(last) && folder_entry(dir, last, include_hash) == Some(e));
            }
        }
        if passes(filter, e.game_number) && exists|f: BackupFolderView|
            folders.contains(f) && folder_entry(dir, f, include_hash) == Some(e) {
            let f = choose|f: BackupFolderView|
                folders.contains(f) && folder_entry(dir, f, include_hash) == Some(e);
            let j = choose|j: int| 0 <= j < folders.len() && folders[j] == f;
            if j < front.len() {
                assert(front[j] == f);
                assert(front.contains(f));
                assert(rest.contains(e));
                let i = choose|i: int| 0 <= i < rest.len() && rest[i] == e;
                assert(all[i] == e);
            } else {
                assert(all[all.len() - 1] == e);
            }
        }
    }
}

/// The catalog holds exactly the entries of the folders under `.backups`
/// that are snapshots and pass the filter.
pub proof fn lemma_catalog_contains(
    dir: SaveDirView,
    include_hash: bool,
    filter: Option<u32>,
    e: BackupInfoView,
)
    ensures
        catalog(dir, include_hash, filter).contains(e) <==> (dir.has_backup_root && passes(
            filter,
            e.game_number,
        ) && exists|f: BackupFolderView|
            dir.folders.contains(f) && folder_entry(dir, f, include_hash) == Some(e)),
{
    if dir.has_backup_root {
        let all = listed(dir.path, loaded_index(dir).notes, dir.folders, include_hash, filter);
        lemma_newest_first_contains(all, e);
        lemma_listed_contains(dir, dir.folders, include_hash, filter, e);
    }
}

/// The catalog is read from the folders alone: what the index says of the
/// slots, right or wrong, changes nothing in it. Of the index only the notes
/// show.
pub proof fn lemma_catalog_ignores_slots(
    dir: SaveDirView,
    other: SaveDirView,
    include_hash: bool,
    filter: Option<u32>,
)
    requires
        other.path == dir.path,
        other.has_backup_root == dir.has_backup_root,
        other.folders == dir.folders,
        loaded_index(other).notes == loaded_index(dir).notes,
    ensures
        catalog(other, include_hash, filter) == catalog(dir, include_hash, filter),
{
}

} // verus!
