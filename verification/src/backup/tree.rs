//! A save directory as plain values: its save files, and under `.backups` the
//! index and the snapshot folders. The engine works on this picture; whoever
//! owns the real directory reads it from disk and writes the result back.
//!
//! Where a list holds several files or folders of one name, the first counts.

use vstd::prelude::*;
use crate::backup::index::BackupIndex;
use crate::backup::index::BackupIndexView;
use crate::lookup::index_of;
use crate::lookup::lemma_index_of_is;
use crate::lookup::lemma_index_of_none;
use crate::timestamp::LocalDateTime;

verus! {

/// A file with its content and the time it was last modified.
#[derive(Debug)]
pub struct SaveFile {
    /// The file name, without any directory.
    pub name: String,
    /// The bytes of the file.
    pub data: Vec<u8>,
    /// The modification time in nanoseconds since the epoch.
    pub modified_nanos: u128,
    /// The same moment on the local calendar and clock.
    pub modified: LocalDateTime,
}

/// A file as plain values.
pub struct SaveFileView {
    pub name: Seq<char>,
    pub data: Seq<u8>,
    pub modified_nanos: u128,
    pub modified: LocalDateTime,
}

impl View for SaveFile {
    type V = SaveFileView;

    open spec fn view(&self) -> SaveFileView {
        SaveFileView {
            name: self.name@,
            data: self.data@,
            modified_nanos: self.modified_nanos,
            modified: self.modified,
        }
    }
}

/// A copy of the bytes of `data`.
pub fn copy_bytes(data: &Vec<u8>) -> (r: Vec<u8>)
    ensures
        r@ == data@,
{
    let r = data.clone();
    assert(r@ =~= data@);
    r
}

impl Clone for SaveFile {
    fn clone(&self) -> (r: Self)
        ensures
            r@ == self@,
    {
        SaveFile {
            name: self.name.clone(),
            data: copy_bytes(&self.data),
            modified_nanos: self.modified_nanos,
            modified: self.modified,
        }
    }
}

/// The files of a list as plain values.
pub open spec fn files_view(v: Seq<SaveFile>) -> Seq<SaveFileView> {
    Seq::new(v.len(), |i: int| v[i]@)
}

/// The names of the files of a list, in order.
pub open spec fn file_names(files: Seq<SaveFileView>) -> Seq<Seq<char>> {
    Seq::new(files.len(), |i: int| files[i].name)
}

/// The first file of `files` that is called `name`.
pub open spec fn file_named(files: Seq<SaveFileView>, name: Seq<char>) -> Option<SaveFileView> {
    match index_of(file_names(files), name) {
        Some(i) => Some(files[i]),
        None => None,
    }
}

/// `files` after `file` was written: in place of the first file of its name,
/// or at the end where there is none.
pub open spec fn with_file(files: Seq<SaveFileView>, file: SaveFileView) -> Seq<SaveFileView> {
    match index_of(file_names(files), file.name) {
        Some(i) => files.update(i, file),
        None => files.push(file),
    }
}

/// A file that was written is found under its name, with what was written.
pub proof fn lemma_with_file_found(files: Seq<SaveFileView>, file: SaveFileView)
    ensures
        file_named(with_file(files, file), file.name) == Some(file),
{
    crate::lookup::lemma_index_of(file_names(files), file.name);
    let after = with_file(files, file);
    match index_of(file_names(files), file.name) {
        Some(i) => {
            assert(file_names(after) =~= file_names(files));
        },
        None => {
            assert forall|j: int| 0 <= j < files.len() implies file_names(after)[j]
                != file.name by {
                assert(file_names(files)[j] != file.name);
            }
            lemma_index_of_is(file_names(after), file.name, files.len() as int);
        },
    }
}

/// Writing a file leaves the files of other names as they were.
pub proof fn lemma_with_file_others(files: Seq<SaveFileView>, file: SaveFileView, name: Seq<char>)
    requires
        name != file.name,
    ensures
        file_named(with_file(files, file), name) == file_named(files, name),
{
    crate::lookup::lemma_index_of(file_names(files), file.name);
    crate::lookup::lemma_index_of(file_names(files), name);
    let after = with_file(files, file);
    match index_of(file_names(files), file.name) {
        Some(i) => {
            assert(file_names(after) =~= file_names(files));
        },
        None => {
            match index_of(file_names(files), name) {
                Some(j) => {
                    assert forall|m: int| 0 <= m < j implies file_names(after)[m] != name by {
                        assert(file_names(files)[m] != name);
                    }
                    lemma_index_of_is(file_names(after), name, j);
                },
                None => {
                    assert forall|m: int| 0 <= m < after.len() implies file_names(after)[m]
                        != name by {
                        if m < files.len() {
                            assert(file_names(files)[m] != name);
                        }
                    }
                    lemma_index_of_none(file_names(after), name);
                },
            }
        },
    }
}

/// Writing a file into files with distinct names leaves the names distinct.
pub proof fn lemma_with_file_distinct(files: Seq<SaveFileView>, file: SaveFileView)
    requires
        file_names(files).no_duplicates(),
    ensures
        file_names(with_file(files, file)).no_duplicates(),
{
    crate::lookup::lemma_index_of(file_names(files), file.name);
    let after = with_file(files, file);
    match index_of(file_names(files), file.name) {
        Some(i) => {
            assert(file_names(after) =~= file_names(files));
        },
        None => {
            assert forall|a: int, b: int|
                0 <= a < after.len() && 0 <= b < after.len() && a != b implies file_names(after)[a]
                != file_names(after)[b] by {
                if a < files.len() && b < files.len() {
                    assert(file_names(files)[a] != file_names(files)[b]);
                } else if a < files.len() {
                    assert(file_names(files)[a] != file.name);
                } else {
                    assert(file_names(files)[b] != file.name);
                }
            }
        },
    }
}

/// Tells whether no two of `files` have one name.
pub fn has_distinct_names(files: &Vec<SaveFile>) -> (r: bool)
    ensures
        r == file_names(files_view(files@)).no_duplicates(),
{
    let ghost names = file_names(files_view(files@));
    let mut a: usize = 0;
    while a < files.len()
        invariant
            a <= files.len(),
            names == file_names(files_view(files@)),
            forall|x: int, y: int| 0 <= x < a && 0 <= y < x ==> names[x] != names[y],
        decreases files.len() - a,
    {
        let mut b: usize = 0;
        while b < a
            invariant
                b <= a < files.len(),
                names == file_names(files_view(files@)),
                forall|y: int| 0 <= y < b ==> names[a as int] != names[y],
            decreases a - b,
        {
            if files[a].name == files[b].name {
                assert(names[a as int] == names[b as int]);
                return false;
            }
            b += 1;
        }
        a += 1;
    }
    assert forall|x: int, y: int|
        0 <= x < names.len() && 0 <= y < names.len() && x != y implies names[x] != names[y] by {
        if y < x {
        } else {
            assert(names[y] != names[x]);
        }
    }
    true
}

/// The position of the first file of `files` that is called `name`.
pub fn find_file(files: &Vec<SaveFile>, name: &str) -> (r: Option<usize>)
    ensures
        match r {
            Some(i) => i < files.len() && index_of(file_names(files_view(files@)), name@) == Some(
                i as int,
            ),
            None => index_of(file_names(files_view(files@)), name@) is None,
        },
{
    let ghost names = file_names(files_view(files@));
    let wanted = String::from_str(name);
    let mut i: usize = 0;
    while i < files.len()
        invariant
            i <= files.len(),
            wanted@ == name@,
            names == file_names(files_view(files@)),
            forall|j: int| 0 <= j < i ==> names[j] != name@,
        decreases files.len() - i,
    {
        if files[i].name == wanted {
            proof {
                lemma_index_of_is(names, name@, i as int);
            }
            return Some(i);
        }
        i += 1;
    }
    proof {
        lemma_index_of_none(names, name@);
    }
    None
}

/// Writes `file` into `files`, over the first file of its name if there is one.
pub fn put_file(files: &mut Vec<SaveFile>, file: SaveFile)
    ensures
        files_view(final(files)@) == with_file(files_view(old(files)@), file@),
{
    let ghost before = files_view(files@);
    match find_file(files, file.name.as_str()) {
        Some(i) => {
            files[i] = file;
            assert(files_view(files@) =~= before.update(i as int, file@));
        },
        None => {
            files.push(file);
            assert(files_view(files@) =~= before.push(file@));
        },
    }
}

/// A snapshot folder: copies of save files, the hash marker and the lock marker.
#[derive(Debug)]
pub struct BackupFolder {
    /// The folder name, which tells slot and moment.
    pub name: String,
    /// The save files that were copied into the folder.
    pub files: Vec<SaveFile>,
    /// What the hash marker file holds, if the folder has one.
    pub hash: Option<String>,
    /// Whether the folder has the lock marker.
    pub locked: bool,
    /// Whether the moment in the folder's name exists on the local clock. A
    /// time of day that the change to daylight saving time skips does not; a
    /// folder with such a name is no snapshot.
    pub moment_exists: bool,
}

/// A snapshot folder as plain values.
pub struct BackupFolderView {
    pub name: Seq<char>,
    pub files: Seq<SaveFileView>,
    pub hash: Option<Seq<char>>,
    pub locked: bool,
    pub moment_exists: bool,
}

impl View for BackupFolder {
    type V = BackupFolderView;

    open spec fn view(&self) -> BackupFolderView {
        BackupFolderView {
            name: self.name@,
            files: files_view(self.files@),
            hash: match self.hash {
                Some(h) => Some(h@),
                None => None,
            },
            locked: self.locked,
            moment_exists: self.moment_exists,
        }
    }
}

/// A copy of each file of `files`.
pub fn copy_files(files: &Vec<SaveFile>) -> (r: Vec<SaveFile>)
    ensures
        files_view(r@) == files_view(files@),
{
    let mut r: Vec<SaveFile> = Vec::new();
    let mut i: usize = 0;
    while i < files.len()
        invariant
            i <= files.len(),
            r.len() == i,
            forall|k: int| 0 <= k < i ==> r@[k]@ == files@[k]@,
        decreases files.len() - i,
    {
        r.push(files[i].clone());
        i += 1;
    }
    assert(files_view(r@) =~= files_view(files@));
    r
}

impl Clone for BackupFolder {
    fn clone(&self) -> (r: Self)
        ensures
            r@ == self@,
    {
        BackupFolder {
            name: self.name.clone(),
            files: copy_files(&self.files),
            hash: match &self.hash {
                Some(h) => Some(h.clone()),
                None => None,
            },
            locked: self.locked,
            moment_exists: self.moment_exists,
        }
    }
}

/// The folders of a list as plain values.
pub open spec fn folders_view(v: Seq<BackupFolder>) -> Seq<BackupFolderView> {
    Seq::new(v.len(), |i: int| v[i]@)
}

/// The names of the folders of a list, in order.
pub open spec fn folder_names(folders: Seq<BackupFolderView>) -> Seq<Seq<char>> {
    Seq::new(folders.len(), |i: int| folders[i].name)
}

/// Whether `folders` has a folder called `name`.
pub open spec fn has_folder(folders: Seq<BackupFolderView>, name: Seq<char>) -> bool {
    index_of(folder_names(folders), name) is Some
}

/// The first folder of `folders` that is called `name`.
pub open spec fn folder_named(folders: Seq<BackupFolderView>, name: Seq<char>) -> Option<
    BackupFolderView,
> {
    match index_of(folder_names(folders), name) {
        Some(i) => Some(folders[i]),
        None => None,
    }
}

/// Whether in each of `folders` no two files have one name.
pub open spec fn files_distinct(folders: Seq<BackupFolderView>) -> bool {
    forall|i: int|
        0 <= i < folders.len() ==> file_names((#[trigger] folders[i]).files).no_duplicates()
}

/// The position of the first folder of `folders` that is called `name`.
pub fn find_folder(folders: &Vec<BackupFolder>, name: &str) -> (r: Option<usize>)
    ensures
        match r {
            Some(i) => i < folders.len() && index_of(
                folder_names(folders_view(folders@)),
                name@,
            ) == Some(i as int),
            None => index_of(folder_names(folders_view(folders@)), name@) is None,
        },
{
    let ghost names = folder_names(folders_view(folders@));
    let wanted = String::from_str(name);
    let mut i: usize = 0;
    while i < folders.len()
        invariant
            i <= folders.len(),
            wanted@ == name@,
            names == folder_names(folders_view(folders@)),
            forall|j: int| 0 <= j < i ==> names[j] != name@,
        decreases folders.len() - i,
    {
        if folders[i].name == wanted {
            proof {
                lemma_index_of_is(names, name@, i as int);
            }
            return Some(i);
        }
        i += 1;
    }
    proof {
        lemma_index_of_none(names, name@);
    }
    None
}

/// A save directory and what lies under its `.backups`.
#[derive(Debug)]
pub struct SaveDir {
    /// The path of the directory, as text.
    pub path: String,
    /// Whether the directory exists.
    pub exists: bool,
    /// The files directly in the directory.
    pub files: Vec<SaveFile>,
    /// Whether the directory has a `.backups` directory.
    pub has_backup_root: bool,
    /// The index that `index.json` holds; `None` where the file is missing or
    /// cannot be read as an index.
    pub index: Option<BackupIndex>,
    /// The folders under `.backups`.
    pub folders: Vec<BackupFolder>,
}

/// A save directory as plain values.
pub struct SaveDirView {
    pub path: Seq<char>,
    pub exists: bool,
    pub files: Seq<SaveFileView>,
    pub has_backup_root: bool,
    pub index: Option<BackupIndexView>,
    pub folders: Seq<BackupFolderView>,
}

impl View for SaveDir {
    type V = SaveDirView;

    open spec fn view(&self) -> SaveDirView {
        SaveDirView {
            path: self.path@,
            exists: self.exists,
            files: files_view(self.files@),
            has_backup_root: self.has_backup_root,
            index: match self.index {
                Some(i) => Some(i@),
                None => None,
            },
            folders: folders_view(self.folders@),
        }
    }
}

impl Clone for SaveDir {
    fn clone(&self) -> (r: Self)
        ensures
            r@ == self@,
    {
        let mut folders: Vec<BackupFolder> = Vec::new();
        let mut i: usize = 0;
        while i < self.folders.len()
            invariant
                i <= self.folders.len(),
                folders.len() == i,
                forall|k: int| 0 <= k < i ==> folders@[k]@ == self.folders@[k]@,
            decreases self.folders.len() - i,
        {
            folders.push(self.folders[i].clone());
            i += 1;
        }
        assert(folders_view(folders@) =~= folders_view(self.folders@));
        SaveDir {
            path: self.path.clone(),
            exists: self.exists,
            files: copy_files(&self.files),
            has_backup_root: self.has_backup_root,
            index: match &self.index {
                Some(index) => Some(index.clone()),
                None => None,
            },
            folders,
        }
    }
}

impl SaveDirView {
    /// Every save file carries a modification time that exists on the
    /// calendar and the clock; no two files in the directory, no two folders
    /// under `.backups`, and no two files in a folder have one name; and there
    /// are folders and an index only where `.backups` is there.
    pub open spec fn wf(self) -> bool {
        &&& forall|i: int|
            0 <= i < self.files.len() ==> (#[trigger] self.files[i]).modified.is_valid()
        &&& file_names(self.files).no_duplicates()
        &&& folder_names(self.folders).no_duplicates()
        &&& files_distinct(self.folders)
        &&& !self.has_backup_root ==> self.folders.len() == 0 && self.index is None
    }
}

impl SaveDir {
    /// An existing directory at `path` without files and without `.backups`.
    pub fn new(path: &str) -> (r: Self)
        ensures
            r@ == (SaveDirView {
                path: path@,
                exists: true,
                files: Seq::empty(),
                has_backup_root: false,
                index: None,
                folders: Seq::empty(),
            }),
            r@.wf(),
    {
        let r = SaveDir {
            path: String::from_str(path),
            exists: true,
            files: Vec::new(),
            has_backup_root: false,
            index: None,
            folders: Vec::new(),
        };
        assert(r@.files =~= Seq::empty());
        assert(r@.folders =~= Seq::empty());
        r
    }

    /// Checks that every save file carries a valid modification time, that
    /// no two files in the directory, no two folders and no two files in a
    /// folder have one name, and that there are folders and an index only
    /// where `.backups` is there.
    pub fn check(&self) -> (b: bool)
        ensures
            b == self@.wf(),
    {
        if !self.has_backup_root && (self.folders.len() > 0 || self.index.is_some()) {
            return false;
        }
        if !has_distinct_names(&self.files) {
            return false;
        }
        let mut i: usize = 0;
        while i < self.files.len()
            invariant
                i <= self.files.len(),
                forall|j: int| 0 <= j < i ==> (#[trigger] self@.files[j]).modified.is_valid(),
            decreases self.files.len() - i,
        {
            if !self.files[i].modified.check() {
                assert(!self@.files[i as int].modified.is_valid());
                return false;
            }
            i += 1;
        }
        let ghost names = folder_names(self@.folders);
        let mut a: usize = 0;
        while a < self.folders.len()
            invariant
                a <= self.folders.len(),
                names == folder_names(folders_view(self.folders@)),
                forall|x: int, y: int| 0 <= x < a && 0 <= y < x ==> names[x] != names[y],
                forall|x: int|
                    0 <= x < a ==> file_names((#[trigger] self@.folders[x]).files).no_duplicates(),
            decreases self.folders.len() - a,
        {
            if !has_distinct_names(&self.folders[a].files) {
                assert(!file_names(self@.folders[a as int].files).no_duplicates());
                return false;
            }
            let mut b: usize = 0;
            while b < a
                invariant
                    b <= a < self.folders.len(),
                    names == folder_names(folders_view(self.folders@)),
                    forall|y: int| 0 <= y < b ==> names[a as int] != names[y],
                decreases a - b,
            {
                if self.folders[a].name == self.folders[b].name {
                    assert(names[a as int] == names[b as int]);
                    return false;
                }
                b += 1;
            }
            a += 1;
        }
        assert forall|x: int, y: int|
            0 <= x < names.len() && 0 <= y < names.len() && x != y implies names[x] != names[y] by {
            if y < x {
            } else {
                assert(names[y] != names[x]);
            }
        }
        true
    }

    /// Writes a save file into the directory, over the file of its name if
    /// there is one.
    pub fn write_file(&mut self, file: SaveFile)
        requires
            old(self)@.wf(),
            file.modified.is_valid(),
        ensures
            final(self)@ == (SaveDirView {
                files: with_file(old(self)@.files, file@),
                ..old(self)@
            }),
            final(self)@.wf(),
    {
        put_file(&mut self.files, file);
        proof {
            crate::lookup::lemma_index_of(file_names(old(self)@.files), file@.name);
            lemma_with_file_distinct(old(self)@.files, file@);
        }
    }
}

} // verus!
