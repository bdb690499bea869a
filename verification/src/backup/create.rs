//! Making a snapshot: deciding whether the save file holds anything new, then
//! making room under the limit, copying the files, and recording the result in
//! the index.

use vstd::prelude::*;
use crate::backup::cleanup::contains_text;
use crate::backup::cleanup::enforce_backup_limit;
use crate::backup::cleanup::expired_folders;
use crate::backup::cleanup::expired;
use crate::backup::cleanup::filenames;
use crate::backup::cleanup::without_folders;
use crate::backup::data::BackupInfo;
use crate::backup::data::BackupInfoView;
use crate::backup::data::SavePaths;
use crate::backup::data::SourceMetadata;
use crate::backup::data::build_save_paths;
use crate::backup::data::infos_view;
use crate::backup::data::read_source_metadata;
use crate::backup::hashing::calculate_hash;
use crate::backup::hashing::sha256_hex;
use crate::backup::index::BackupIndex;
use crate::backup::index::BackupIndexView;
use crate::backup::index::BackupStore;
use crate::backup::index::IndexEntry;
use crate::backup::index::IndexEntryView;
use crate::backup::index::backup_root_path;
use crate::backup::index::ensure_backup_root;
use crate::backup::listing::catalog;
use crate::backup::listing::get_backups;
use crate::backup::tree::BackupFolder;
use crate::backup::tree::BackupFolderView;
use crate::backup::tree::SaveDir;
use crate::backup::tree::SaveDirView;
use crate::backup::tree::SaveFile;
use crate::backup::tree::SaveFileView;
use crate::backup::tree::file_named;
use crate::backup::tree::find_file;
use crate::backup::tree::find_folder;
use crate::backup::tree::folder_names;
use crate::backup::tree::has_folder;
use crate::filename_utils::bak_filename;
use crate::filename_utils::folder_name;
use crate::filename_utils::format_backup_folder_name;
use crate::filename_utils::main_filename;
use crate::lookup::index_of;
use crate::paths::join;
use crate::paths::path_join;
use crate::text::same_text;
use crate::text::texts_of;

verus! {

/// The index entry for content with the digest `hash`, read from a save file
/// with the metadata `source`, and kept in the snapshot folder `folder`.
pub open spec fn source_entry(
    hash: Seq<char>,
    source: SourceMetadata,
    folder: Seq<char>,
) -> IndexEntryView {
    IndexEntryView {
        last_hash: hash,
        last_source_size: source.size,
        last_source_modified: source.modified_nanos,
        last_backup_path: folder,
    }
}

/// Whether the index knows the slot with exactly this size and modification
/// time, so that its digest can be taken without reading the file.
pub open spec fn metadata_matches(
    index: BackupIndexView,
    slot: u32,
    source: SourceMetadata,
) -> bool {
    &&& index.games.contains_key(slot)
    &&& index.games[slot].last_source_size == source.size
    &&& index.games[slot].last_source_modified == source.modified_nanos
}

/// The digest to go by, and whether it was freshly calculated: the digest in
/// the index where the metadata matches, and else the digest of `data`.
pub open spec fn resolved_hash(
    index: BackupIndexView,
    slot: u32,
    source: SourceMetadata,
    data: Seq<u8>,
) -> (Seq<char>, bool) {
    if metadata_matches(index, slot, source) {
        (index.games[slot].last_hash, false)
    } else {
        (sha256_hex(data), true)
    }
}

/// Finds the digest of the main save file, without reading it where the
/// index knows the file by size and modification time.
pub fn resolve_hash(
    index: &BackupIndex,
    game_number: u32,
    source: &SourceMetadata,
    main: &SaveFile,
) -> (r: (String, bool))
    ensures
        (r.0@, r.1) == resolved_hash(index@, game_number, *source, main@.data),
{
    match index.game(game_number) {
        Some(entry) => {
            if entry.last_source_size == source.size && entry.last_source_modified
                == source.modified_nanos {
                return (entry.last_hash.clone(), false);
            }
        },
        None => {},
    }
    (calculate_hash(main.data.as_slice()), true)
}

/// Whether `dir` has a snapshot folder called `name`.
pub open spec fn snapshot_exists(dir: SaveDirView, name: Seq<char>) -> bool {
    dir.has_backup_root && has_folder(dir.folders, name)
}

/// Whether the index says that content with the digest `hash` is already
/// snapshotted for the slot, in a folder that is still there.
pub open spec fn is_index_duplicate(
    index: BackupIndexView,
    dir: SaveDirView,
    slot: u32,
    hash: Seq<char>,
) -> bool {
    &&& index.games.contains_key(slot)
    &&& index.games[slot].last_hash == hash
    &&& snapshot_exists(dir, index.games[slot].last_backup_path)
}

/// The index after a duplicate was found through it: where the digest was
/// freshly calculated and the metadata differs, the entry takes the new
/// metadata and keeps digest and folder; otherwise nothing changes.
pub open spec fn refreshed(
    index: BackupIndexView,
    slot: u32,
    hash: Seq<char>,
    calculated: bool,
    source: SourceMetadata,
) -> BackupIndexView {
    if calculated && !metadata_matches(index, slot, source) {
        BackupIndexView {
            games: index.games.insert(
                slot,
                source_entry(hash, source, index.games[slot].last_backup_path),
            ),
            ..index
        }
    } else {
        index
    }
}

/// Checks through the index whether the save file is already snapshotted,
/// and brings the entry's metadata up to date where it is.
pub fn is_duplicate_by_index(
    index: &mut BackupIndex,
    save_dir: &SaveDir,
    game_number: u32,
    hash: &str,
    calculated: bool,
    source: &SourceMetadata,
) -> (r: bool)
    ensures
        r == is_index_duplicate(old(index)@, save_dir@, game_number, hash@),
        final(index)@ == if r {
            refreshed(old(index)@, game_number, hash@, calculated, *source)
        } else {
            old(index)@
        },
{
    let entry = match index.game(game_number) {
        Some(e) => e.clone(),
        None => {
            return false;
        },
    };
    if !same_text(entry.last_hash.as_str(), hash) {
        return false;
    }
    if !save_dir.has_backup_root {
        return false;
    }
    match find_folder(&save_dir.folders, entry.last_backup_path.as_str()) {
        Some(_) => {},
        None => {
            return false;
        },
    }
    if calculated && (entry.last_source_size != source.size || entry.last_source_modified
        != source.modified_nanos) {
        let fresh = IndexEntry {
            last_hash: String::from_str(hash),
            last_source_size: source.size,
            last_source_modified: source.modified_nanos,
            last_backup_path: entry.last_backup_path.clone(),
        };
        index.set_game(game_number, fresh);
    }
    true
}

/// The first snapshot in `backups` of the slot that records the digest `hash`.
pub open spec fn same_content(backups: Seq<BackupInfoView>, slot: u32, hash: Seq<char>) -> Option<
    BackupInfoView,
>
    decreases backups.len(),
{
    if backups.len() == 0 {
        None
    } else if backups[0].game_number == slot && backups[0].hash == hash {
        Some(backups[0])
    } else {
        same_content(backups.skip(1), slot, hash)
    }
}

/// The index after a duplicate was found among the snapshots: the entry of
/// the slot points at that snapshot.
pub open spec fn repointed(
    index: BackupIndexView,
    slot: u32,
    hash: Seq<char>,
    source: SourceMetadata,
    found: Option<BackupInfoView>,
) -> BackupIndexView {
    match found {
        Some(backup) => BackupIndexView {
            games: index.games.insert(slot, source_entry(hash, source, backup.filename)),
            ..index
        },
        None => index,
    }
}

/// Checks against the recorded digests of the snapshots whether the save
/// file is already snapshotted, and points the index at the snapshot found.
pub fn is_duplicate_by_content(
    index: &mut BackupIndex,
    game_number: u32,
    hash: &str,
    source: &SourceMetadata,
    backups: &Vec<BackupInfo>,
) -> (r: bool)
    ensures
        r == same_content(infos_view(backups@), game_number, hash@) is Some,
        final(index)@ == repointed(
            old(index)@,
            game_number,
            hash@,
            *source,
            same_content(infos_view(backups@), game_number, hash@),
        ),
{
    let ghost all = infos_view(backups@);
    let mut i: usize = 0;
    assert(all.skip(0) =~= all);
    while i < backups.len()
        invariant
            i <= backups.len(),
            all == infos_view(backups@),
            index@ == old(index)@,
            same_content(all, game_number, hash@) == same_content(
                all.skip(i as int),
                game_number,
                hash@,
            ),
        decreases backups.len() - i,
    {
        let backup = &backups[i];
        assert(all.skip(i as int)[0] == backup@);
        if backup.game_number == game_number && same_text(backup.hash.as_str(), hash) {
            let fresh = IndexEntry {
                last_hash: String::from_str(hash),
                last_source_size: source.size,
                last_source_modified: source.modified_nanos,
                last_backup_path: backup.filename.clone(),
            };
            index.set_game(game_number, fresh);
            return true;
        }
        assert(all.skip(i as int).skip(1) =~= all.skip(i + 1));
        i += 1;
    }
    false
}

/// Whether making a snapshot is skipped, and the index afterwards. The
/// index is asked first; only where it does not settle the matter are the
/// snapshots of the slot looked through.
pub open spec fn skip_outcome(
    index: BackupIndexView,
    dir: SaveDirView,
    slot: u32,
    hash: Seq<char>,
    calculated: bool,
    source: SourceMetadata,
) -> (bool, BackupIndexView) {
    if is_index_duplicate(index, dir, slot, hash) {
        (true, refreshed(index, slot, hash, calculated, source))
    } else {
        let found = same_content(catalog(dir, true, Some(slot)), slot, hash);
        (found is Some, repointed(index, slot, hash, source, found))
    }
}

/// Decides whether the content of the save file is already snapshotted, by
/// the index or by the recorded digests, and repairs the index where it is.
pub fn should_skip_duplicate(
    index: &mut BackupIndex,
    save_dir: &SaveDir,
    game_number: u32,
    hash: &str,
    calculated: bool,
    source: &SourceMetadata,
) -> (r: bool)
    ensures
        (r, final(index)@) == skip_outcome(
            old(index)@,
            save_dir@,
            game_number,
            hash@,
            calculated,
            *source,
        ),
{
    if is_duplicate_by_index(index, save_dir, game_number, hash, calculated, source) {
        return true;
    }
    let backups = get_backups(save_dir, true, Some(game_number));
    is_duplicate_by_content(index, game_number, hash, source, &backups)
}

/// A new folder called `name` with nothing in it. Its name is made from the
/// local time of a file, so the moment in it exists on the local clock.
pub open spec fn empty_folder(name: Seq<char>) -> BackupFolderView {
    BackupFolderView { name, files: Seq::empty(), hash: None, locked: false, moment_exists: true }
}

/// `dir` after the folder `name` was made under `.backups`, together with
/// the directories above it. A folder that is there stays as it is.
pub open spec fn with_folder_made(dir: SaveDirView, name: Seq<char>) -> SaveDirView {
    SaveDirView {
        exists: true,
        has_backup_root: true,
        folders: if has_folder(dir.folders, name) {
            dir.folders
        } else {
            dir.folders.push(empty_folder(name))
        },
        ..dir
    }
}

/// Makes the snapshot folder `folder_name` and returns its path.
pub fn create_target_dir(save_dir: &mut SaveDir, folder_name: &str) -> (path: String)
    ensures
        final(save_dir)@ == with_folder_made(old(save_dir)@, folder_name@),
        path@ == path_join(backup_root_path(old(save_dir)@.path), folder_name@),
{
    let root = ensure_backup_root(save_dir);
    match find_folder(&save_dir.folders, folder_name) {
        Some(_) => {},
        None => {
            let ghost before = save_dir@.folders;
            let folder = BackupFolder {
                name: String::from_str(folder_name),
                files: Vec::new(),
                hash: None,
                locked: false,
                moment_exists: true,
            };
            assert(folder@.files =~= Seq::empty());
            save_dir.folders.push(folder);
            assert(save_dir@.folders =~= before.push(empty_folder(folder_name@)));
        },
    }
    join(root.as_str(), folder_name)
}

/// `folders` after `file` was copied into the folder `name`. A snapshot
/// folder is written once: a file of that name that the folder already holds
/// stays as it is. Without such a folder nothing is written.
pub open spec fn with_copy(
    folders: Seq<BackupFolderView>,
    name: Seq<char>,
    file: SaveFileView,
) -> Seq<BackupFolderView> {
    match index_of(folder_names(folders), name) {
        Some(i) => if file_named(folders[i].files, file.name) is Some {
            folders
        } else {
            folders.update(
                i,
                BackupFolderView { files: folders[i].files.push(file), ..folders[i] },
            )
        },
        None => folders,
    }
}

/// `folders` after the file called `filename` in `files`, if there is one,
/// was copied into the folder `name`.
pub open spec fn with_copy_of(
    folders: Seq<BackupFolderView>,
    name: Seq<char>,
    files: Seq<SaveFileView>,
    filename: Seq<char>,
) -> Seq<BackupFolderView> {
    match file_named(files, filename) {
        Some(file) => with_copy(folders, name, file),
        None => folders,
    }
}

/// `dir` after the main save file of the slot and, where it exists, its
/// `.bak` sibling were copied into the snapshot folder `name`.
pub open spec fn with_files_copied(dir: SaveDirView, slot: u32, name: Seq<char>) -> SaveDirView {
    SaveDirView {
        folders: with_copy_of(
            with_copy_of(dir.folders, name, dir.files, main_filename(slot)),
            name,
            dir.files,
            bak_filename(slot),
        ),
        ..dir
    }
}

/// Copies the file called `filename`, if the directory has it, into the
/// snapshot folder `folder_name`, unless the folder holds a file of that name.
fn copy_into(save_dir: &mut SaveDir, filename: &str, folder_name: &str)
    ensures
        final(save_dir)@ == (SaveDirView {
            folders: with_copy_of(
                old(save_dir)@.folders,
                folder_name@,
                old(save_dir)@.files,
                filename@,
            ),
            ..old(save_dir)@
        }),
{
    let file = match find_file(&save_dir.files, filename) {
        Some(i) => save_dir.files[i].clone(),
        None => {
            return ;
        },
    };
    match find_folder(&save_dir.folders, folder_name) {
        Some(i) => {
            let ghost before = save_dir@.folders;
            if find_file(&save_dir.folders[i].files, filename).is_none() {
                proof {
                    crate::lookup::lemma_index_of(
                        crate::backup::tree::file_names(old(save_dir)@.files),
                        filename@,
                    );
                }
                let ghost held = save_dir@.folders[i as int].files;
                save_dir.folders[i].files.push(file);
                assert(save_dir@.folders[i as int].files =~= held.push(file@));
                assert(save_dir@.folders =~= before.update(
                    i as int,
                    BackupFolderView {
                        files: before[i as int].files.push(file@),
                        ..before[i as int]
                    },
                ));
            } else {
                proof {
                    crate::lookup::lemma_index_of(
                        crate::backup::tree::file_names(old(save_dir)@.files),
                        filename@,
                    );
                }
            }
        },
        None => {},
    }
}

/// Copies the save files of a slot into the snapshot folder `folder_name`:
/// the main file, and the `.bak` sibling where there is one. A file that the
/// folder already holds is not written over.
pub fn copy_save_files(paths: &SavePaths, save_dir: &mut SaveDir, folder_name: &str)
    ensures
        final(save_dir)@ == (SaveDirView {
            folders: with_copy_of(
                with_copy_of(
                    old(save_dir)@.folders,
                    folder_name@,
                    old(save_dir)@.files,
                    paths.main_filename@,
                ),
                folder_name@,
                old(save_dir)@.files,
                paths.bak_filename@,
            ),
            ..old(save_dir)@
        }),
{
    copy_into(save_dir, paths.main_filename.as_str(), folder_name);
    copy_into(save_dir, paths.bak_filename.as_str(), folder_name);
}

/// `folders` after the hash marker of the folder `name` was written with
/// `hash`. A hash marker that is there stays as it is. Without such a folder
/// nothing is written.
pub open spec fn with_hash_written(
    folders: Seq<BackupFolderView>,
    name: Seq<char>,
    hash: Seq<char>,
) -> Seq<BackupFolderView> {
    match index_of(folder_names(folders), name) {
        Some(i) => if folders[i].hash is Some {
            folders
        } else {
            folders.update(i, BackupFolderView { hash: Some(hash), ..folders[i] })
        },
        None => folders,
    }
}

/// Writes the hash marker of the snapshot folder `folder_name`, unless it
/// has one: the digest and nothing else.
pub fn write_hash_file(save_dir: &mut SaveDir, folder_name: &str, hash: &str)
    ensures
        final(save_dir)@ == (SaveDirView {
            folders: with_hash_written(old(save_dir)@.folders, folder_name@, hash@),
            ..old(save_dir)@
        }),
{
    match find_folder(&save_dir.folders, folder_name) {
        Some(i) => {
            let ghost before = save_dir@.folders;
            if save_dir.folders[i].hash.is_none() {
                save_dir.folders[i].hash = Some(String::from_str(hash));
                assert(save_dir@.folders =~= before.update(
                    i as int,
                    BackupFolderView { hash: Some(hash@), ..before[i as int] },
                ));
            }
        },
        None => {},
    }
}

/// Records in the index that the slot was snapshotted into `folder_name`.
pub fn update_index_after_backup(
    index: &mut BackupIndex,
    game_number: u32,
    hash: String,
    source: &SourceMetadata,
    folder_name: String,
)
    ensures
        final(index)@ == (BackupIndexView {
            games: old(index)@.games.insert(
                game_number,
                source_entry(hash@, *source, folder_name@),
            ),
            ..old(index)@
        }),
{
    index.set_game(
        game_number,
        IndexEntry {
            last_hash: hash,
            last_source_size: source.size,
            last_source_modified: source.modified_nanos,
            last_backup_path: folder_name,
        },
    );
}

/// What is read of a save file for deduplication and naming.
pub open spec fn metadata_of(file: SaveFileView) -> SourceMetadata {
    SourceMetadata {
        size: file.data.len() as u64,
        modified_nanos: file.modified_nanos,
        modified_dt: file.modified,
    }
}

/// How a backup of one slot ends.
pub struct BackupOutcome {
    /// The save directory afterwards.
    pub dir: SaveDirView,
    /// The index afterwards, not yet written to the directory.
    pub index: BackupIndexView,
    /// The path of the snapshot folder that was made, if one was.
    pub created: Option<Seq<char>>,
}

/// `dir` after the snapshot folder `name` was made and filled: it receives
/// the main save file, the `.bak` sibling where there is one, and the digest
/// `hash`. What a folder of that name already holds stays as it is.
pub open spec fn with_snapshot(
    dir: SaveDirView,
    slot: u32,
    source: SourceMetadata,
    hash: Seq<char>,
) -> SaveDirView {
    let name = folder_name(slot, source.modified_dt);
    let copied = with_files_copied(with_folder_made(dir, name), slot, name);
    SaveDirView { folders: with_hash_written(copied.folders, name, hash), ..copied }
}

/// `dir` without the snapshots of the slot that the limit has no room for.
pub open spec fn with_room_made(dir: SaveDirView, slot: u32, limit: nat) -> SaveDirView {
    SaveDirView {
        folders: without_folders(
            dir.folders,
            filenames(expired(catalog(dir, true, Some(slot)), slot, limit)),
        ),
        ..dir
    }
}

/// The folder that a backup of `slot` makes: named by the slot and the
/// modification time of the main save file, holding that file and, where there
/// is one, the `.bak` sibling, with `hash` in the hash marker, and unlocked.
pub open spec fn new_folder(files: Seq<SaveFileView>, slot: u32, hash: Seq<char>) -> BackupFolderView {
    let main = file_named(files, main_filename(slot)).unwrap();
    BackupFolderView {
        name: folder_name(slot, main.modified),
        files: match file_named(files, bak_filename(slot)) {
            Some(bak) => seq![main, bak],
            None => seq![main],
        },
        hash: Some(hash),
        locked: false,
        moment_exists: true,
    }
}

/// Whether the folder name `name` is taken: a folder of that name is there
/// and stays when room is made for a new snapshot of the slot.
pub open spec fn name_is_taken(dir: SaveDirView, slot: u32, limit: nat, name: Seq<char>) -> bool {
    has_folder(with_room_made(dir, slot, limit).folders, name)
}

/// The backup of one slot, with the index `index` in memory and the limit
/// `limit` (0 for none).
///
/// Without the main save file nothing happens, whether or not the `.bak`
/// sibling is there. Where the content is already snapshotted, nothing is
/// made and the index is repaired. Where the name of the new folder is taken,
/// which it can be when the save file changed twice within a second, nothing
/// is made and nothing is changed: a snapshot is never written over. Otherwise
/// room is made under the limit, the new folder is added behind the folders
/// that stay, and the index entry of the slot points at it.
pub open spec fn backed_up(
    dir: SaveDirView,
    index: BackupIndexView,
    slot: u32,
    limit: nat,
) -> BackupOutcome {
    match file_named(dir.files, main_filename(slot)) {
        None => BackupOutcome { dir, index, created: None },
        Some(main) => {
            let source = metadata_of(main);
            let (hash, calculated) = resolved_hash(index, slot, source, main.data);
            let (skip, repaired) = skip_outcome(index, dir, slot, hash, calculated, source);
            let name = folder_name(slot, source.modified_dt);
            if skip {
                BackupOutcome { dir, index: repaired, created: None }
            } else if name_is_taken(dir, slot, limit, name) {
                BackupOutcome { dir, index, created: None }
            } else {
                BackupOutcome {
                    dir: SaveDirView {
                        exists: true,
                        has_backup_root: true,
                        folders: with_room_made(dir, slot, limit).folders.push(
                            new_folder(dir.files, slot, hash),
                        ),
                        ..dir
                    },
                    index: BackupIndexView {
                        games: index.games.insert(slot, source_entry(hash, source, name)),
                        ..index
                    },
                    created: Some(path_join(backup_root_path(dir.path), name)),
                }
            }
        },
    }
}

/// Making and filling a snapshot folder whose name is not taken adds the new
/// folder behind the others.
pub proof fn lemma_new_folder(dir: SaveDirView, slot: u32, hash: Seq<char>)
    requires
        file_named(dir.files, main_filename(slot)) matches Some(main) && !has_folder(
            dir.folders,
            folder_name(slot, main.modified),
        ),
    ensures
        with_snapshot(
            dir,
            slot,
            metadata_of(file_named(dir.files, main_filename(slot)).unwrap()),
            hash,
        ) == (SaveDirView {
            exists: true,
            has_backup_root: true,
            folders: dir.folders.push(new_folder(dir.files, slot, hash)),
            ..dir
        }),
{
    let main = file_named(dir.files, main_filename(slot)).unwrap();
    let source = metadata_of(main);
    let folders = dir.folders;
    let name = folder_name(slot, main.modified);
    crate::lookup::lemma_index_of(folder_names(folders), name);
    let made = with_folder_made(dir, name).folders;
    assert(made == folders.push(empty_folder(name)));
    assert forall|j: int| 0 <= j < folders.len() implies folder_names(made)[j] != name by {
        assert(folder_names(folders)[j] != name);
    }
    crate::lookup::lemma_index_of_is(folder_names(made), name, folders.len() as int);
    let at = folders.len() as int;
    let none = Seq::<SaveFileView>::empty();
    assert(crate::backup::tree::file_names(none) =~= Seq::empty());
    crate::lookup::lemma_index_of_none(crate::backup::tree::file_names(none), main.name);
    let first = with_copy_of(made, name, dir.files, main_filename(slot));
    assert(first[at].files =~= seq![main]);
    assert(folder_names(first) =~= folder_names(made));
    let second = with_copy_of(first, name, dir.files, bak_filename(slot));
    assert(folder_names(second) =~= folder_names(first));
    crate::lookup::lemma_index_of(crate::backup::tree::file_names(dir.files), main_filename(slot));
    crate::lookup::lemma_index_of(crate::backup::tree::file_names(dir.files), bak_filename(slot));
    crate::filename_utils::lemma_filenames_parse(slot);
    match file_named(dir.files, bak_filename(slot)) {
        Some(bak) => {
            assert(crate::backup::tree::file_names(seq![main]) =~= seq![main.name]);
            assert forall|j: int| 0 <= j < 1 implies crate::backup::tree::file_names(
                seq![main],
            )[j] != bak.name by {}
            crate::lookup::lemma_index_of_none(
                crate::backup::tree::file_names(seq![main]),
                bak.name,
            );
            assert(second[at].files =~= seq![main, bak]);
        },
        None => {
            assert(second[at].files =~= seq![main]);
        },
    }
    let third = with_hash_written(second, name, hash);
    assert(third == with_snapshot(dir, slot, source, hash).folders);
    assert(third =~= folders.push(new_folder(dir.files, slot, hash)));
}

/// What holds of the folders after a backup has made a snapshot: chrono
/// reads the name of the new folder back, so that the new folder is a snapshot
/// of the slot that the catalog shows; and the unlocked snapshots of the slot
/// are those that stayed when room was made, and the new one. (The last slot,
/// whose display number does not fit, is the exception: its folder is never
/// read as a snapshot.)
pub open spec fn snapshot_is_counted(
    before: SaveDirView,
    after: SaveDirView,
    slot: u32,
    limit: nat,
) -> bool {
    &&& crate::timestamp::reads_back(file_named(before.files, main_filename(slot)).unwrap().modified)
    &&& slot < u32::MAX ==> crate::backup::retention::unlocked_count(after.folders, slot)
        == crate::backup::retention::room_left(
        crate::backup::retention::unlocked_count(before.folders, slot),
        limit,
    ) + 1
}

/// Backs up one slot with an index that the caller holds in memory and
/// writes back later. Returns the path of the new snapshot folder, or `None`
/// where no snapshot was made.
pub fn perform_backup_for_game_internal(
    save_dir: &mut SaveDir,
    game_number: u32,
    index: &mut BackupIndex,
    limit: usize,
) -> (created: Option<String>)
    requires
        old(save_dir)@.wf(),
    ensures
        backed_up(old(save_dir)@, old(index)@, game_number, limit as nat) == (BackupOutcome {
            dir: final(save_dir)@,
            index: final(index)@,
            created: crate::text::text_of(created),
        }),
        final(save_dir)@.wf(),
        created is Some ==> snapshot_is_counted(
            old(save_dir)@,
            final(save_dir)@,
            game_number,
            limit as nat,
        ),
{
    let paths = build_save_paths(save_dir.path.as_str(), game_number);
    let at = match find_file(&save_dir.files, paths.main_filename.as_str()) {
        Some(i) => i,
        None => {
            return None;
        },
    };
    let source = read_source_metadata(&save_dir.files[at]);
    assert(source == metadata_of(save_dir@.files[at as int]));
    assert(save_dir@.files[at as int].modified.is_valid());
    let (hash, calculated) = resolve_hash(index, game_number, &source, &save_dir.files[at]);
    if is_duplicate_by_index(index, save_dir, game_number, hash.as_str(), calculated, &source) {
        return None;
    }
    // The snapshots are listed once, for the look at their digests and for
    // making room.
    let backups = get_backups(save_dir, true, Some(game_number));
    if is_duplicate_by_content(index, game_number, hash.as_str(), &source, &backups) {
        return None;
    }
    let folder_name = format_backup_folder_name(game_number, source.modified_dt);
    let doomed = expired_folders(game_number, limit, &backups);
    proof {
        crate::backup::cleanup::lemma_without_folders_has(
            save_dir@.folders,
            texts_of(doomed@),
            folder_name@,
        );
    }
    if find_folder(&save_dir.folders, folder_name.as_str()).is_some() && !contains_text(
        &doomed,
        &folder_name,
    ) {
        // The name is taken by a folder that stays. It is left as it is.
        return None;
    }
    enforce_backup_limit(save_dir, game_number, limit, &backups);
    let target_dir = create_target_dir(save_dir, folder_name.as_str());
    copy_save_files(&paths, save_dir, folder_name.as_str());
    write_hash_file(save_dir, folder_name.as_str(), hash.as_str());
    update_index_after_backup(index, game_number, hash, &source, folder_name);
    proof {
        let room = with_room_made(old(save_dir)@, game_number, limit as nat);
        lemma_new_folder(room, game_number, hash@);
        lemma_backup_keeps_wf(old(save_dir)@, old(index)@, game_number, limit as nat);
        if game_number < u32::MAX {
            crate::backup::retention::lemma_backup_count(
                old(save_dir)@,
                old(index)@,
                game_number,
                limit as nat,
            );
        }
    }
    Some(target_dir)
}

/// Backs up one slot of a save directory. `Err` where the save directory
/// does not exist. Without the main save file of the slot nothing is done:
/// no `.backups` is made and no index is written. Otherwise the index is
/// loaded, the snapshot is made unless the content is already snapshotted, and
/// the index is written back.
pub open spec fn after_backup(
    dir: SaveDirView,
    slot: u32,
    limit: nat,
) -> (SaveDirView, Result<Option<Seq<char>>, Seq<char>>) {
    if !dir.exists {
        (dir, Err("Save directory does not exist: "@ + dir.path))
    } else if file_named(dir.files, main_filename(slot)) is None {
        (dir, Ok(None))
    } else {
        let rooted = crate::backup::index::with_backup_root(dir);
        let outcome = backed_up(rooted, crate::backup::index::loaded_index(rooted), slot, limit);
        (crate::backup::index::with_saved_index(outcome.dir, outcome.index), Ok(outcome.created))
    }
}

/// The characters of the result of a backup.
pub open spec fn backup_result_text(
    r: Result<Option<String>, String>,
) -> Result<Option<Seq<char>>, Seq<char>> {
    match r {
        Ok(path) => Ok(crate::text::text_of(path)),
        Err(e) => Err(e@),
    }
}

/// Backs up the slot `game_number` of a save directory, keeping at most
/// `limit` unlocked snapshots of the slot (0 for no limit). Returns the path
/// of the new snapshot folder, `None` where nothing had to be made, and an
/// error where the save directory does not exist.
pub fn perform_backup_for_game(
    save_dir: &mut SaveDir,
    game_number: u32,
    limit: usize,
) -> (r: Result<Option<String>, String>)
    requires
        old(save_dir)@.wf(),
    ensures
        (final(save_dir)@, backup_result_text(r)) == after_backup(
            old(save_dir)@,
            game_number,
            limit as nat,
        ),
        final(save_dir)@.wf(),
        r matches Ok(Some(_)) ==> snapshot_is_counted(
            old(save_dir)@,
            final(save_dir)@,
            game_number,
            limit as nat,
        ),
{
    if !save_dir.exists {
        let mut message = String::from_str("Save directory does not exist: ");
        message.append(save_dir.path.as_str());
        return Err(message);
    }
    let main_filename = crate::filename_utils::main_file_name(game_number);
    if find_file(&save_dir.files, main_filename.as_str()).is_none() {
        return Ok(None);
    }
    let mut store = BackupStore::new(save_dir);
    let result = perform_backup_for_game_internal(save_dir, game_number, &mut store.index, limit);
    store.save(save_dir);
    Ok(result)
}

/// A snapshot that `same_content` finds is one of the snapshots, of the
/// slot, with the digest.
pub proof fn lemma_same_content(backups: Seq<BackupInfoView>, slot: u32, hash: Seq<char>)
    ensures
        match same_content(backups, slot, hash) {
            Some(b) => backups.contains(b) && b.game_number == slot && b.hash == hash,
            None => forall|i: int|
                0 <= i < backups.len() ==> !(backups[i].game_number == slot && backups[i].hash
                    == hash),
        },
    decreases backups.len(),
{
    if backups.len() > 0 {
        if backups[0].game_number == slot && backups[0].hash == hash {
            assert(backups.contains(backups[0]));
        } else {
            lemma_same_content(backups.skip(1), slot, hash);
            match same_content(backups.skip(1), slot, hash) {
                Some(b) => {
                    let rest = backups.skip(1);
                    let i = choose|i: int| 0 <= i < rest.len() && rest[i] == b;
                    assert(backups[i + 1] == b);
                },
                None => {
                    assert forall|i: int| 0 <= i < backups.len() implies !(backups[i].game_number
                        == slot && backups[i].hash == hash) by {
                        if i > 0 {
                            assert(backups.skip(1)[i - 1] == backups[i]);
                        }
                    }
                },
            }
        }
    }
}

/// A backup leaves the save files and the directory's own existence alone,
/// and never takes `.backups` away.
pub proof fn lemma_backup_keeps_files(
    dir: SaveDirView,
    index: BackupIndexView,
    slot: u32,
    limit: nat,
)
    ensures
        backed_up(dir, index, slot, limit).dir.files == dir.files,
        backed_up(dir, index, slot, limit).dir.path == dir.path,
        backed_up(dir, index, slot, limit).dir.index == dir.index,
        backed_up(dir, index, slot, limit).index.notes == index.notes,
        dir.exists ==> backed_up(dir, index, slot, limit).dir.exists,
        dir.has_backup_root ==> backed_up(dir, index, slot, limit).dir.has_backup_root,
{
}

/// A backup never writes into a folder that is there: every folder that is
/// there afterwards was there before, exactly as it is, or is the one new
/// folder that the backup made.
pub proof fn lemma_backup_writes_once(
    dir: SaveDirView,
    index: BackupIndexView,
    slot: u32,
    limit: nat,
    g: BackupFolderView,
)
    requires
        backed_up(dir, index, slot, limit).dir.folders.contains(g),
    ensures
        dir.folders.contains(g) || (backed_up(dir, index, slot, limit).created is Some && g
            == new_folder(
            dir.files,
            slot,
            resolved_hash(
                index,
                slot,
                metadata_of(file_named(dir.files, main_filename(slot)).unwrap()),
                file_named(dir.files, main_filename(slot)).unwrap().data,
            ).0,
        )),
{
    let after = backed_up(dir, index, slot, limit).dir;
    if after.folders != dir.folders {
        let room = with_room_made(dir, slot, limit);
        let doomed = filenames(expired(catalog(dir, true, Some(slot)), slot, limit));
        let k = choose|k: int| 0 <= k < after.folders.len() && after.folders[k] == g;
        if k < room.folders.len() {
            assert(room.folders[k] == g);
            assert(room.folders.contains(g));
            crate::backup::cleanup::lemma_without_folders_member(dir.folders, doomed, g);
        }
    }
}

/// A backup leaves a well-formed save directory well-formed.
pub proof fn lemma_backup_keeps_wf(dir: SaveDirView, index: BackupIndexView, slot: u32, limit: nat)
    requires
        dir.wf(),
    ensures
        backed_up(dir, index, slot, limit).dir.wf(),
{
    let after = backed_up(dir, index, slot, limit).dir;
    if backed_up(dir, index, slot, limit).created is Some {
        let main = file_named(dir.files, main_filename(slot)).unwrap();
        let hash = resolved_hash(index, slot, metadata_of(main), main.data).0;
        let room = with_room_made(dir, slot, limit);
        let made = new_folder(dir.files, slot, hash);
        crate::backup::cleanup::lemma_without_folders_wf(
            dir,
            filenames(expired(catalog(dir, true, Some(slot)), slot, limit)),
        );
        crate::lookup::lemma_index_of(folder_names(room.folders), made.name);
        crate::lookup::lemma_index_of(crate::backup::tree::file_names(dir.files), main_filename(slot));
        crate::lookup::lemma_index_of(crate::backup::tree::file_names(dir.files), bak_filename(slot));
        crate::filename_utils::lemma_filenames_parse(slot);
        assert forall|i: int, j: int|
            0 <= i < after.folders.len() && 0 <= j < after.folders.len() && i != j implies folder_names(
            after.folders,
        )[i] != folder_names(after.folders)[j] by {
            if i < room.folders.len() && j < room.folders.len() {
                assert(folder_names(room.folders)[i] != folder_names(room.folders)[j]);
            } else if i < room.folders.len() {
                assert(folder_names(room.folders)[i] != made.name);
            } else {
                assert(folder_names(room.folders)[j] != made.name);
            }
        }
        assert forall|i: int| 0 <= i < after.folders.len() implies crate::backup::tree::file_names(
            (#[trigger] after.folders[i]).files,
        ).no_duplicates() by {
            if i < room.folders.len() {
                assert(crate::backup::tree::file_names(room.folders[i].files).no_duplicates());
            } else {
                let names = crate::backup::tree::file_names(made.files);
                assert forall|a: int, b: int|
                    0 <= a < names.len() && 0 <= b < names.len() && a != b implies names[a]
                    != names[b] by {}
            }
        }
    }
}

/// The catalog of a save directory does not depend on what the index says
/// of the slots; so a backup decides the same whatever index is on disk, as
/// long as the notes are the same.
proof fn lemma_backup_ignores_disk_index(
    dir: SaveDirView,
    other: SaveDirView,
    index: BackupIndexView,
    slot: u32,
    limit: nat,
)
    requires
        other == (SaveDirView { index: other.index, ..dir }),
        crate::backup::index::loaded_index(other).notes == crate::backup::index::loaded_index(
            dir,
        ).notes,
    ensures
        backed_up(other, index, slot, limit) == (BackupOutcome {
            dir: SaveDirView { index: other.index, ..backed_up(dir, index, slot, limit).dir },
            ..backed_up(dir, index, slot, limit)
        }),
{
    crate::backup::listing::lemma_catalog_ignores_slots(dir, other, true, Some(slot));
}

/// Backing up a slot a second time, with no change to the main save file in
/// between, makes nothing: no snapshot, no change to any folder, no change to
/// the index.
pub proof fn lemma_backup_twice(dir: SaveDirView, index: BackupIndexView, slot: u32, limit: nat)
    requires
        dir.wf(),
    ensures
        ({
            let first = backed_up(dir, index, slot, limit);
            backed_up(first.dir, first.index, slot, limit) == (BackupOutcome {
                dir: first.dir,
                index: first.index,
                created: None,
            })
        }),
{
    let first = backed_up(dir, index, slot, limit);
    lemma_backup_keeps_files(dir, index, slot, limit);
    match file_named(dir.files, main_filename(slot)) {
        None => {},
        Some(main) => {
            let source = metadata_of(main);
            let (hash, calculated) = resolved_hash(index, slot, source, main.data);
            let (skip, repaired) = skip_outcome(index, dir, slot, hash, calculated, source);
            let name = folder_name(slot, source.modified_dt);
            if skip || !name_is_taken(dir, slot, limit, name) {
                let kept: Seq<char>;
                if is_index_duplicate(index, dir, slot, hash) {
                    kept = index.games[slot].last_backup_path;
                    assert(first.index == refreshed(index, slot, hash, calculated, source));
                } else if skip {
                    let found = same_content(catalog(dir, true, Some(slot)), slot, hash);
                    lemma_same_content(catalog(dir, true, Some(slot)), slot, hash);
                    let b = found.unwrap();
                    kept = b.filename;
                    crate::backup::listing::lemma_catalog_contains(dir, true, Some(slot), b);
                    let f = choose|f: BackupFolderView|
                        dir.folders.contains(f) && crate::backup::listing::folder_entry(
                            dir,
                            f,
                            true,
                        ) == Some(b);
                    crate::backup::cleanup::lemma_has_folder(dir.folders, b.filename);
                    assert(snapshot_exists(dir, b.filename));
                } else {
                    kept = name;
                    let room = with_room_made(dir, slot, limit);
                    let made = new_folder(dir.files, slot, hash);
                    assert(first.dir.folders[room.folders.len() as int] == made);
                    assert(first.dir.folders.contains(made));
                    crate::backup::cleanup::lemma_has_folder(first.dir.folders, name);
                }
                assert(snapshot_exists(first.dir, kept));
                assert(first.index.games.contains_key(slot));
                assert(first.index.games[slot] == source_entry(hash, source, kept));
                assert(metadata_matches(first.index, slot, source));
                assert(resolved_hash(first.index, slot, source, main.data) == (hash, false));
                assert(is_index_duplicate(first.index, first.dir, slot, hash));
            }
        },
    }
}

/// Calling the backup of a slot twice in a row, with no change to the main
/// save file between the calls, leaves exactly the snapshot folders of the
/// first call: the second call makes nothing and changes nothing. Where the
/// first call fails, the second fails in the same way.
pub proof fn lemma_perform_backup_twice(dir: SaveDirView, slot: u32, limit: nat)
    requires
        dir.wf(),
    ensures
        ({
            let (first, made) = after_backup(dir, slot, limit);
            let (second, again) = after_backup(first, slot, limit);
            &&& second == first
            &&& made is Ok ==> again == Ok::<Option<Seq<char>>, Seq<char>>(None)
            &&& made is Err ==> again == made
        }),
{
    if dir.exists && file_named(dir.files, main_filename(slot)) is Some {
        let rooted = crate::backup::index::with_backup_root(dir);
        let loaded = crate::backup::index::loaded_index(rooted);
        let outcome = backed_up(rooted, loaded, slot, limit);
        let first = after_backup(dir, slot, limit).0;
        lemma_backup_keeps_files(rooted, loaded, slot, limit);
        assert(rooted.wf());
        lemma_backup_twice(rooted, loaded, slot, limit);
        assert(first == SaveDirView { index: Some(outcome.index), ..outcome.dir });
        assert(crate::backup::index::with_backup_root(first) == first);
        assert(crate::backup::index::loaded_index(first) == outcome.index);
        lemma_backup_ignores_disk_index(outcome.dir, first, outcome.index, slot, limit);
    }
}

/// Two backups in a row of a slot whose main save file is there, in a save
/// directory without any snapshot folder, leave exactly one snapshot folder.
pub proof fn lemma_two_backups_one_folder(dir: SaveDirView, slot: u32, limit: nat)
    requires
        dir.wf(),
        dir.exists,
        dir.folders.len() == 0,
        file_named(dir.files, main_filename(slot)) is Some,
    ensures
        after_backup(after_backup(dir, slot, limit).0, slot, limit).0.folders.len() == 1,
{
    lemma_perform_backup_twice(dir, slot, limit);
    let rooted = crate::backup::index::with_backup_root(dir);
    let loaded = crate::backup::index::loaded_index(rooted);
    let main = file_named(dir.files, main_filename(slot)).unwrap();
    let source = metadata_of(main);
    let (hash, calculated) = resolved_hash(loaded, slot, source, main.data);
    assert(folder_names(rooted.folders) =~= Seq::empty());
    assert forall|name: Seq<char>| !has_folder(rooted.folders, name) by {
        crate::lookup::lemma_index_of(folder_names(rooted.folders), name);
    }
    let backups = catalog(rooted, true, Some(slot));
    assert(backups =~= Seq::empty()) by {
        crate::backup::listing::lemma_newest_first_contains(
            crate::backup::listing::listed(
                rooted.path,
                crate::backup::index::loaded_index(rooted).notes,
                rooted.folders,
                true,
                Some(slot),
            ),
            arbitrary(),
        );
    }
    assert(!skip_outcome(loaded, rooted, slot, hash, calculated, source).0);
    let room = with_room_made(rooted, slot, limit);
    assert(room.folders =~= Seq::empty());
    assert(folder_names(room.folders) =~= Seq::empty());
    crate::lookup::lemma_index_of(folder_names(room.folders), folder_name(slot, main.modified));
}

/// A backup never deletes a locked snapshot, whatever the limit: a folder
/// that is locked before is there afterwards, exactly as it was.
pub proof fn lemma_backup_keeps_locked(
    dir: SaveDirView,
    index: BackupIndexView,
    slot: u32,
    limit: nat,
    f: BackupFolderView,
)
    requires
        dir.wf(),
        dir.folders.contains(f),
        f.locked,
    ensures
        backed_up(dir, index, slot, limit).dir.folders.contains(f),
{
    let after = backed_up(dir, index, slot, limit).dir;
    if after.folders != dir.folders {
        let room = with_room_made(dir, slot, limit);
        crate::backup::cleanup::lemma_expired_are_unlocked(dir, true, Some(slot), slot, limit, f);
        let j = choose|j: int| 0 <= j < room.folders.len() && room.folders[j] == f;
        assert(after.folders[j] == f);
    }
}

/// Content that a snapshot of the slot already records is not snapshotted
/// again: where some folder under `.backups` is a snapshot of the slot whose
/// hash marker, white space aside, is the digest that the backup goes by, the
/// backup makes nothing, and afterwards the index entry of the slot carries
/// that digest and points at a folder that is there.
pub proof fn lemma_known_content_is_skipped(
    dir: SaveDirView,
    index: BackupIndexView,
    slot: u32,
    limit: nat,
    f: BackupFolderView,
)
    requires
        dir.has_backup_root,
        dir.folders.contains(f),
        file_named(dir.files, main_filename(slot)) matches Some(main)
            && crate::backup::listing::folder_info(dir.path, f, true) matches Some(info)
            && info.game_number == slot && info.hash == resolved_hash(
            index,
            slot,
            metadata_of(main),
            main.data,
        ).0,
    ensures
        ({
            let after = backed_up(dir, index, slot, limit);
            let main = file_named(dir.files, main_filename(slot)).unwrap();
            let hash = resolved_hash(index, slot, metadata_of(main), main.data).0;
            &&& after.created is None
            &&& after.dir == dir
            &&& after.index.games.contains_key(slot)
            &&& after.index.games[slot].last_hash == hash
            &&& snapshot_exists(dir, after.index.games[slot].last_backup_path)
        }),
{
    let main = file_named(dir.files, main_filename(slot)).unwrap();
    let source = metadata_of(main);
    let (hash, calculated) = resolved_hash(index, slot, source, main.data);
    if !is_index_duplicate(index, dir, slot, hash) {
        let backups = catalog(dir, true, Some(slot));
        let e = crate::backup::listing::folder_entry(dir, f, true).unwrap();
        crate::backup::listing::lemma_catalog_contains(dir, true, Some(slot), e);
        assert(backups.contains(e));
        lemma_same_content(backups, slot, hash);
        let k = choose|k: int| 0 <= k < backups.len() && backups[k] == e;
        assert(same_content(backups, slot, hash) is Some);
        let b = same_content(backups, slot, hash).unwrap();
        crate::backup::listing::lemma_catalog_contains(dir, true, Some(slot), b);
        let g = choose|g: BackupFolderView|
            dir.folders.contains(g) && crate::backup::listing::folder_entry(dir, g, true) == Some(
                b,
            );
        crate::backup::cleanup::lemma_has_folder(dir.folders, b.filename);
    }
}

/// The backup of one slot leaves alone the snapshot folders that were made
/// for other slots: such a folder is there afterwards exactly as it was.
pub proof fn lemma_backup_keeps_other_slots(
    dir: SaveDirView,
    index: BackupIndexView,
    slot: u32,
    limit: nat,
    other: u32,
    t: crate::timestamp::LocalDateTime,
)
    requires
        dir.wf(),
        other != slot,
        crate::backup::tree::folder_named(dir.folders, folder_name(other, t)) is Some,
    ensures
        crate::backup::tree::folder_named(
            backed_up(dir, index, slot, limit).dir.folders,
            folder_name(other, t),
        ) == crate::backup::tree::folder_named(dir.folders, folder_name(other, t)),
{
    let kept = folder_name(other, t);
    let after = backed_up(dir, index, slot, limit).dir;
    crate::lookup::lemma_index_of(folder_names(dir.folders), kept);
    let at = index_of(folder_names(dir.folders), kept).unwrap();
    let g = dir.folders[at];
    if after.folders != dir.folders {
        let backups = catalog(dir, true, Some(slot));
        let gone = expired(backups, slot, limit);
        let names = filenames(gone);
        // The folder is not among those that go: they are snapshots of `slot`.
        if names.contains(kept) {
            let k = choose|k: int| 0 <= k < names.len() && names[k] == kept;
            let e = gone[k];
            let unlocked = crate::backup::cleanup::unlocked_of(backups, slot);
            assert(unlocked[limit - 1 + k] == e);
            assert(unlocked.contains(e));
            crate::backup::cleanup::lemma_unlocked_of_contains(backups, slot, e);
            crate::backup::listing::lemma_catalog_contains(dir, true, Some(slot), e);
            let f = choose|f: BackupFolderView|
                dir.folders.contains(f) && crate::backup::listing::folder_entry(dir, f, true)
                    == Some(e);
            crate::filename_utils::lemma_folder_name_slot(other, t);
            assert(false);
        }
        crate::backup::cleanup::lemma_without_folders_has(dir.folders, names, kept);
        crate::backup::cleanup::lemma_without_folders_wf(dir, names);
        let room = with_room_made(dir, slot, limit);
        crate::lookup::lemma_index_of(folder_names(room.folders), kept);
        let k = index_of(folder_names(room.folders), kept).unwrap();
        assert forall|m: int| 0 <= m < k implies folder_names(after.folders)[m] != kept by {
            assert(folder_names(room.folders)[m] != kept);
        }
        assert(folder_names(after.folders)[k] == kept);
        crate::lookup::lemma_index_of_is(folder_names(after.folders), kept, k);
        assert(room.folders.contains(room.folders[k]));
        crate::backup::cleanup::lemma_without_folders_member(dir.folders, names, room.folders[k]);
        let back = choose|j: int| 0 <= j < dir.folders.len() && dir.folders[j] == room.folders[k];
        assert(folder_names(dir.folders)[back] == folder_names(dir.folders)[at]);
        assert(after.folders[k] == g);
    }
}

/// A snapshot is found again by its content, whatever the index says:
/// where a folder is a snapshot of the slot whose hash marker holds the digest
/// of what the main save file holds now, and the backup goes by that digest
/// (as it does whenever it calculates it), the backup makes nothing, changes
/// no folder, and leaves the index pointing at a folder with that content.
pub proof fn lemma_own_snapshot_is_found(
    dir: SaveDirView,
    index: BackupIndexView,
    slot: u32,
    limit: nat,
    f: BackupFolderView,
)
    requires
        dir.has_backup_root,
        dir.folders.contains(f),
        crate::backup::restore::is_snapshot_of(f, slot),
        file_named(dir.files, main_filename(slot)) matches Some(main) && f.hash == Some(
            sha256_hex(main.data),
        ) && resolved_hash(index, slot, metadata_of(main), main.data).0 == sha256_hex(main.data),
    ensures
        backed_up(dir, index, slot, limit).created is None,
        backed_up(dir, index, slot, limit).dir == dir,
        backed_up(dir, index, slot, limit).index.games.contains_key(slot),
        snapshot_exists(
            dir,
            backed_up(dir, index, slot, limit).index.games[slot].last_backup_path,
        ),
{
    let main = file_named(dir.files, main_filename(slot)).unwrap();
    crate::backup::hashing::lemma_digest_is_trimmed(main.data);
    lemma_known_content_is_skipped(dir, index, slot, limit, f);
}

} // verus!
