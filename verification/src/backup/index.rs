//! The backup index: for each slot the fingerprint of the content that was
//! last snapshotted, and for each snapshot folder the note a user gave it.

use vstd::prelude::*;
use std::collections::HashMap;
use crate::backup::common::BACKUP_DIR_NAME;
use crate::backup::tree::SaveDir;
use crate::backup::tree::SaveDirView;
use crate::lookup::index_of;
use crate::lookup::keys_of;
use crate::lookup::lemma_index_of;
use crate::lookup::lemma_index_of_is;
use crate::lookup::lemma_index_of_none;
use crate::lookup::lemma_map_of_put;
use crate::lookup::lemma_value_of_remove;
use crate::lookup::map_of;
use crate::lookup::value_of;
use crate::paths::join;
use crate::paths::path_join;

verus! {

/// What the index remembers of one slot.
#[derive(Debug)]
pub struct IndexEntry {
    /// The hex digest of the content that was last snapshotted.
    pub last_hash: String,
    /// The size of the main save file when it was last looked at.
    pub last_source_size: u64,
    /// Its modification time then, in nanoseconds since the epoch.
    pub last_source_modified: u128,
    /// The name of the snapshot folder that holds this content.
    pub last_backup_path: String,
}

/// An index entry as plain values.
pub struct IndexEntryView {
    pub last_hash: Seq<char>,
    pub last_source_size: u64,
    pub last_source_modified: u128,
    pub last_backup_path: Seq<char>,
}

impl View for IndexEntry {
    type V = IndexEntryView;

    open spec fn view(&self) -> IndexEntryView {
        IndexEntryView {
            last_hash: self.last_hash@,
            last_source_size: self.last_source_size,
            last_source_modified: self.last_source_modified,
            last_backup_path: self.last_backup_path@,
        }
    }
}

impl Clone for IndexEntry {
    fn clone(&self) -> (r: Self)
        ensures
            r@ == self@,
    {
        IndexEntry {
            last_hash: self.last_hash.clone(),
            last_source_size: self.last_source_size,
            last_source_modified: self.last_source_modified,
            last_backup_path: self.last_backup_path.clone(),
        }
    }
}

/// The index of one save directory. Of several notes for one folder the
/// first counts.
#[derive(Debug)]
pub struct BackupIndex {
    /// From slot number to entry.
    pub games: HashMap<u32, IndexEntry>,
    /// Folder name and note.
    pub notes: Vec<(String, String)>,
}

/// The index as two maps.
pub struct BackupIndexView {
    /// From slot number to what is remembered of the slot.
    pub games: Map<u32, IndexEntryView>,
    /// From folder name to note text.
    pub notes: Map<Seq<char>, Seq<char>>,
}

/// The slot entries of an index as plain values.
pub open spec fn game_views(m: Map<u32, IndexEntry>) -> Map<u32, IndexEntryView> {
    m.map_values(|e: IndexEntry| e@)
}

/// The notes of an index as pairs of texts.
pub open spec fn note_pairs(v: Seq<(String, String)>) -> Seq<(Seq<char>, Seq<char>)> {
    Seq::new(v.len(), |i: int| (v[i].0@, v[i].1@))
}

impl View for BackupIndex {
    type V = BackupIndexView;

    open spec fn view(&self) -> BackupIndexView {
        BackupIndexView {
            games: game_views(self.games@),
            notes: map_of(note_pairs(self.notes@)),
        }
    }
}

impl BackupIndexView {
    /// The index that remembers nothing.
    pub open spec fn empty() -> BackupIndexView {
        BackupIndexView { games: Map::empty(), notes: Map::empty() }
    }
}

impl Default for BackupIndex {
    fn default() -> (r: Self)
        ensures
            r@ == BackupIndexView::empty(),
    {
        let r = BackupIndex { games: HashMap::new(), notes: Vec::new() };
        assert(r@.games =~= Map::empty());
        assert(r@.notes =~= Map::empty());
        r
    }
}

impl Clone for BackupIndex {
    fn clone(&self) -> (r: Self)
        ensures
            r@ == self@,
    {
        let games = self.games.clone();
        let mut notes: Vec<(String, String)> = Vec::new();
        let mut j: usize = 0;
        while j < self.notes.len()
            invariant
                j <= self.notes.len(),
                notes.len() == j,
                forall|k: int|
                    0 <= k < j ==> notes@[k].0@ == self.notes@[k].0@ && notes@[k].1@
                        == self.notes@[k].1@,
            decreases self.notes.len() - j,
        {
            notes.push((self.notes[j].0.clone(), self.notes[j].1.clone()));
            j += 1;
        }
        assert(note_pairs(notes@) =~= note_pairs(self.notes@));
        BackupIndex { games, notes }
    }
}

impl BackupIndex {
    /// The position of the first note of `folder`.
    fn note_position(&self, folder: &str) -> (r: Option<usize>)
        ensures
            match r {
                Some(i) => i < self.notes.len() && index_of(
                    keys_of(note_pairs(self.notes@)),
                    folder@,
                ) == Some(i as int),
                None => index_of(keys_of(note_pairs(self.notes@)), folder@) is None,
            },
    {
        let ghost keys = keys_of(note_pairs(self.notes@));
        let wanted = String::from_str(folder);
        let mut i: usize = 0;
        while i < self.notes.len()
            invariant
                i <= self.notes.len(),
                wanted@ == folder@,
                keys == keys_of(note_pairs(self.notes@)),
                forall|j: int| 0 <= j < i ==> keys[j] != folder@,
            decreases self.notes.len() - i,
        {
            if self.notes[i].0 == wanted {
                proof {
                    lemma_index_of_is(keys, folder@, i as int);
                }
                return Some(i);
            }
            i += 1;
        }
        proof {
            lemma_index_of_none(keys, folder@);
        }
        None
    }

    /// What the index remembers of `slot`.
    pub fn game(&self, slot: u32) -> (r: Option<&IndexEntry>)
        ensures
            match r {
                Some(e) => self@.games.contains_key(slot) && self@.games[slot] == e@,
                None => !self@.games.contains_key(slot),
            },
    {
        self.games.get(&slot)
    }

    /// Remembers `entry` for `slot`, in place of what was remembered before.
    pub fn set_game(&mut self, slot: u32, entry: IndexEntry)
        ensures
            final(self)@.games == old(self)@.games.insert(slot, entry@),
            final(self)@.notes == old(self)@.notes,
    {
        let ghost before = self.games@;
        let ghost view = entry@;
        self.games.insert(slot, entry);
        assert(game_views(self.games@) =~= game_views(before).insert(slot, view));
    }

    /// The note of `folder`.
    pub fn note(&self, folder: &str) -> (r: Option<&String>)
        ensures
            match r {
                Some(t) => self@.notes.contains_key(folder@) && self@.notes[folder@] == t@,
                None => !self@.notes.contains_key(folder@),
            },
    {
        match self.note_position(folder) {
            Some(i) => Some(&self.notes[i].1),
            None => None,
        }
    }

    /// Gives `folder` the note `text`, in place of the note it had.
    pub fn set_note(&mut self, folder: String, text: String)
        ensures
            final(self)@.notes == old(self)@.notes.insert(folder@, text@),
            final(self)@.games == old(self)@.games,
    {
        proof {
            lemma_map_of_put(note_pairs(self.notes@), folder@, text@);
        }
        let ghost before = note_pairs(self.notes@);
        match self.note_position(folder.as_str()) {
            Some(i) => {
                self.notes[i] = (folder, text);
                assert(note_pairs(self.notes@) =~= before.update(i as int, (folder@, text@)));
            },
            None => {
                self.notes.push((folder, text));
                assert(note_pairs(self.notes@) =~= before.push((folder@, text@)));
            },
        }
    }

    /// Takes the note of `folder` away, if it has one.
    pub fn remove_note(&mut self, folder: &str)
        ensures
            final(self)@.notes == old(self)@.notes.remove(folder@),
            final(self)@.games == old(self)@.games,
    {
        let ghost before = note_pairs(self.notes@);
        loop
            invariant
                self.games == old(self).games,
                forall|k: Seq<char>|
                    k != folder@ ==> value_of(note_pairs(self.notes@), k) == value_of(before, k),
            ensures
                value_of(note_pairs(self.notes@), folder@) is None,
            decreases self.notes.len(),
        {
            let ghost now = note_pairs(self.notes@);
            match self.note_position(folder) {
                Some(i) => {
                    proof {
                        lemma_index_of(keys_of(now), folder@);
                        assert forall|k: Seq<char>| k != folder@ implies value_of(
                            now.remove(i as int),
                            k,
                        ) == value_of(now, k) by {
                            lemma_value_of_remove(now, i as int, k);
                        }
                    }
                    self.notes.remove(i);
                    assert(note_pairs(self.notes@) =~= now.remove(i as int));
                },
                None => {
                    break ;
                },
            }
        }
        assert(map_of(note_pairs(self.notes@)) =~= map_of(before).remove(folder@));
    }
}

/// The path of the directory that holds the snapshots of `save_dir`.
pub open spec fn backup_root_path(save_dir: Seq<char>) -> Seq<char> {
    path_join(save_dir, BACKUP_DIR_NAME@)
}

/// `dir` once its `.backups` directory has been made, and the directory
/// itself with it where it was missing.
pub open spec fn with_backup_root(dir: SaveDirView) -> SaveDirView {
    SaveDirView { exists: true, has_backup_root: true, ..dir }
}

/// The index that is read from `dir`: the one on disk, or an empty one where
/// there is no `.backups`, no index file, or none that can be read.
pub open spec fn loaded_index(dir: SaveDirView) -> BackupIndexView {
    if dir.has_backup_root {
        match dir.index {
            Some(i) => i,
            None => BackupIndexView::empty(),
        }
    } else {
        BackupIndexView::empty()
    }
}

/// `dir` after `index` was written to its index file, which happens only
/// where `.backups` is there.
pub open spec fn with_saved_index(dir: SaveDirView, index: BackupIndexView) -> SaveDirView {
    if dir.has_backup_root {
        SaveDirView { index: Some(index), ..dir }
    } else {
        dir
    }
}

/// Makes sure that `.backups` exists under the save directory and returns
/// its path.
pub fn ensure_backup_root(save_dir: &mut SaveDir) -> (root: String)
    ensures
        final(save_dir)@ == with_backup_root(old(save_dir)@),
        root@ == backup_root_path(old(save_dir)@.path),
{
    save_dir.exists = true;
    save_dir.has_backup_root = true;
    join(save_dir.path.as_str(), BACKUP_DIR_NAME)
}

/// Loads the index of a save directory. A missing or unreadable index file
/// gives an empty index.
pub fn load_index(save_dir: &SaveDir) -> (index: BackupIndex)
    ensures
        index@ == loaded_index(save_dir@),
{
    if save_dir.has_backup_root {
        match &save_dir.index {
            Some(i) => i.clone(),
            None => BackupIndex::default(),
        }
    } else {
        BackupIndex::default()
    }
}

/// Writes `index` to the index file under `.backups`. Without `.backups`
/// nothing is written.
pub fn save_index(save_dir: &mut SaveDir, index: &BackupIndex)
    ensures
        final(save_dir)@ == with_saved_index(old(save_dir)@, index@),
{
    if save_dir.has_backup_root {
        save_dir.index = Some(index.clone());
    }
}

/// The index of a save directory, loaded for one operation.
#[derive(Debug)]
pub struct BackupStore {
    /// The path of `.backups`.
    pub root: String,
    /// The index, as loaded and changed since.
    pub index: BackupIndex,
}

impl BackupStore {
    /// Makes `.backups` where it is missing, and loads the index.
    pub fn new(save_dir: &mut SaveDir) -> (store: Self)
        ensures
            final(save_dir)@ == with_backup_root(old(save_dir)@),
            store.root@ == backup_root_path(old(save_dir)@.path),
            store.index@ == loaded_index(with_backup_root(old(save_dir)@)),
    {
        let root = ensure_backup_root(save_dir);
        let index = load_index(save_dir);
        BackupStore { root, index }
    }

    /// Loads the index where `.backups` exists, and makes nothing.
    pub fn load_if_exists(save_dir: &SaveDir) -> (store: Option<Self>)
        ensures
            store is Some == save_dir@.has_backup_root,
            store matches Some(s) ==> s.root@ == backup_root_path(save_dir@.path) && s.index@
                == loaded_index(save_dir@),
    {
        if !save_dir.has_backup_root {
            return None;
        }
        let root = join(save_dir.path.as_str(), BACKUP_DIR_NAME);
        let index = load_index(save_dir);
        Some(BackupStore { root, index })
    }

    /// Writes the index back under `.backups`.
    pub fn save(&self, save_dir: &mut SaveDir)
        ensures
            final(save_dir)@ == with_saved_index(old(save_dir)@, self.index@),
    {
        save_index(save_dir, &self.index);
    }
}

} // verus!
