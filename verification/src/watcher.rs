//! What the watcher of a save directory decides: which slots a burst of file
//! events touches, when the burst is over, and what is backed up then. Waiting
//! for events and for the clock is left to the caller, who reports each event
//! and asks what to do next.

use vstd::prelude::*;
use crate::backup::create::backed_up;
use crate::backup::create::perform_backup_for_game_internal;
use crate::backup::index::BackupIndexView;
use crate::backup::index::BackupStore;
use crate::backup::index::loaded_index;
use crate::backup::index::with_backup_root;
use crate::backup::index::with_saved_index;
use crate::backup::tree::SaveDir;
use crate::backup::tree::SaveDirView;
use crate::backup::tree::SaveFileView;
use crate::backup::tree::file_named;
use crate::backup::tree::files_view;
use crate::backup::tree::find_file;
use crate::filename_utils::main_filename;
use crate::filename_utils::parse_filename;
use crate::filename_utils::parse_path;
use crate::filename_utils::parsed_filename;
use crate::filename_utils::parsed_path;
use crate::text::texts_of;

verus! {

/// The quiet time after the last relevant event before a batch is backed up,
/// in milliseconds.
pub const DEBOUNCE_MILLIS: u64 = 2000;

/// How long to wait for an event while nothing is pending, in milliseconds.
pub const IDLE_WAIT_MILLIS: u64 = 60000;

/// How a batch of backups ends.
pub struct BatchOutcome {
    /// The save directory afterwards.
    pub dir: SaveDirView,
    /// The index afterwards, not yet written to the directory.
    pub index: BackupIndexView,
    /// Whether any snapshot was made.
    pub created: bool,
}

/// The backups of the slots `games`, one after the other, on one index in
/// memory.
pub open spec fn batch_backed_up(
    dir: SaveDirView,
    index: BackupIndexView,
    games: Seq<u32>,
    limit: nat,
) -> BatchOutcome
    decreases games.len(),
{
    if games.len() == 0 {
        BatchOutcome { dir, index, created: false }
    } else {
        let before = batch_backed_up(dir, index, games.drop_last(), limit);
        let last = backed_up(before.dir, before.index, games.last(), limit);
        BatchOutcome {
            dir: last.dir,
            index: last.index,
            created: before.created || last.created is Some,
        }
    }
}

/// Whether one of the slots `games` has its main save file among `files`.
pub open spec fn has_main_file(files: Seq<SaveFileView>, games: Seq<u32>) -> bool
    decreases games.len(),
{
    games.len() > 0 && (has_main_file(files, games.drop_last()) || file_named(
        files,
        main_filename(games.last()),
    ) is Some)
}

/// What a batch does to a save directory, and whether it made any snapshot:
/// the index is loaded once, every slot is backed up on it, and it is written
/// back once. A batch in which no slot has a main save file touches nothing:
/// no `.backups` is made and no index is written.
pub open spec fn after_batch(dir: SaveDirView, games: Seq<u32>, limit: nat) -> (SaveDirView, bool) {
    if !has_main_file(dir.files, games) {
        (dir, false)
    } else {
        let rooted = with_backup_root(dir);
        let outcome = batch_backed_up(rooted, loaded_index(rooted), games, limit);
        (with_saved_index(outcome.dir, outcome.index), outcome.created)
    }
}

/// Backs up the slots `game_numbers` with one load and one save of the
/// index. Returns whether any snapshot was made.
pub fn perform_batch_backups(
    save_dir: &mut SaveDir,
    game_numbers: &Vec<u32>,
    limit: usize,
) -> (created: bool)
    requires
        old(save_dir)@.wf(),
    ensures
        (final(save_dir)@, created) == after_batch(old(save_dir)@, game_numbers@, limit as nat),
        final(save_dir)@.wf(),
{
    let mut any_main = false;
    let mut k: usize = 0;
    assert(game_numbers@.take(0) =~= Seq::empty());
    while k < game_numbers.len()
        invariant
            k <= game_numbers.len(),
            any_main == has_main_file(save_dir@.files, game_numbers@.take(k as int)),
        decreases game_numbers.len() - k,
    {
        assert(game_numbers@.take(k + 1).drop_last() =~= game_numbers@.take(k as int));
        assert(game_numbers@.take(k + 1).last() == game_numbers@[k as int]);
        let main_filename = crate::filename_utils::main_file_name(game_numbers[k]);
        if find_file(&save_dir.files, main_filename.as_str()).is_some() {
            any_main = true;
        }
        k += 1;
    }
    assert(game_numbers@.take(k as int) =~= game_numbers@);
    if !any_main {
        return false;
    }
    let mut backups_created = false;
    let mut store = BackupStore::new(save_dir);
    let ghost rooted = save_dir@;
    let ghost loaded = store.index@;
    let mut i: usize = 0;
    assert(game_numbers@.take(0) =~= Seq::empty());
    while i < game_numbers.len()
        invariant
            i <= game_numbers.len(),
            save_dir@.wf(),
            batch_backed_up(rooted, loaded, game_numbers@.take(i as int), limit as nat) == (
            BatchOutcome { dir: save_dir@, index: store.index@, created: backups_created }),
        decreases game_numbers.len() - i,
    {
        assert(game_numbers@.take(i + 1).drop_last() =~= game_numbers@.take(i as int));
        assert(game_numbers@.take(i + 1).last() == game_numbers@[i as int]);
        match perform_backup_for_game_internal(save_dir, game_numbers[i], &mut store.index, limit) {
            Some(_) => {
                backups_created = true;
            },
            None => {},
        }
        i += 1;
    }
    assert(game_numbers@.take(i as int) =~= game_numbers@);
    store.save(save_dir);
    backups_created
}

/// The slots whose main save file is among `files`, each once, in the order
/// in which the files come.
pub open spec fn slots_of(files: Seq<SaveFileView>) -> Seq<u32>
    decreases files.len(),
{
    if files.len() == 0 {
        Seq::empty()
    } else {
        let rest = slots_of(files.drop_last());
        match parsed_filename(files.last().name) {
            Some(info) => if !info.is_bak && !rest.contains(info.game_number) {
                rest.push(info.game_number)
            } else {
                rest
            },
            None => rest,
        }
    }
}

/// What the first scan of a save directory does: every slot with a main save
/// file is backed up in one batch. A directory that does not exist, or that
/// holds no main save file, is left alone.
pub open spec fn after_scan(dir: SaveDirView, limit: nat) -> (SaveDirView, bool) {
    if dir.exists {
        after_batch(dir, slots_of(dir.files), limit)
    } else {
        (dir, false)
    }
}

/// Tells whether `slot` is among `slots`.
fn has_slot(slots: &Vec<u32>, slot: u32) -> (r: bool)
    ensures
        r == slots@.contains(slot),
{
    let mut i: usize = 0;
    while i < slots.len()
        invariant
            i <= slots.len(),
            forall|j: int| 0 <= j < i ==> slots@[j] != slot,
        decreases slots.len() - i,
    {
        if slots[i] == slot {
            return true;
        }
        i += 1;
    }
    false
}

/// Looks through the save directory once and backs up every slot that has a
/// main save file. Returns whether any snapshot was made.
pub fn scan_and_backup_existing(save_dir: &mut SaveDir, limit: usize) -> (created: bool)
    requires
        old(save_dir)@.wf(),
    ensures
        (final(save_dir)@, created) == after_scan(old(save_dir)@, limit as nat),
        final(save_dir)@.wf(),
{
    if !save_dir.exists {
        return false;
    }
    let ghost files = save_dir@.files;
    let mut pending_games: Vec<u32> = Vec::new();
    let mut i: usize = 0;
    assert(files.take(0) =~= Seq::empty());
    while i < save_dir.files.len()
        invariant
            i <= save_dir.files.len(),
            files == files_view(save_dir.files@),
            pending_games@ == slots_of(files.take(i as int)),
        decreases save_dir.files.len() - i,
    {
        assert(files.take(i + 1).drop_last() =~= files.take(i as int));
        assert(files.take(i + 1).last() == files[i as int]);
        match parse_filename(save_dir.files[i].name.as_str()) {
            Some(info) => {
                if !info.is_bak && !has_slot(&pending_games, info.game_number) {
                    pending_games.push(info.game_number);
                }
            },
            None => {},
        }
        i += 1;
    }
    assert(files.take(i as int) =~= files);
    perform_batch_backups(save_dir, &pending_games, limit)
}

/// What the watcher hears while it waits.
#[derive(Debug)]
pub enum WatchEvent {
    /// A file event, with the paths it names.
    Changed(Vec<String>),
    /// The file watch reported an error.
    WatchError,
    /// The wait ended without an event.
    Timeout,
    /// The file watch is gone.
    Disconnected,
}

/// What the watcher does next.
#[derive(Debug)]
pub enum WatchAction {
    /// End the loop.
    Stop,
    /// Wait for an event, at most this many milliseconds.
    Wait(u64),
    /// Back up these slots in one batch, then wait for an event, at most this
    /// many milliseconds.
    Backup(Vec<u32>, u64),
}

/// What the watcher does next, as plain values.
pub enum WatchActionView {
    Stop,
    Wait(u64),
    Backup(Seq<u32>, u64),
}

impl View for WatchAction {
    type V = WatchActionView;

    open spec fn view(&self) -> WatchActionView {
        match self {
            WatchAction::Stop => WatchActionView::Stop,
            WatchAction::Wait(millis) => WatchActionView::Wait(*millis),
            WatchAction::Backup(games, millis) => WatchActionView::Backup(games@, *millis),
        }
    }
}

/// What the watcher remembers between events. It is idle while no change is
/// pending, and pending from the first relevant event until the batch is
/// backed up.
#[derive(Debug)]
pub struct DebounceState {
    /// The slots that changed since the last batch, each once.
    pub pending_games: Vec<u32>,
    /// Whether a change is pending.
    pub pending_change: bool,
    /// The time of the last relevant event, in milliseconds on the caller's
    /// clock.
    pub last_change_millis: u64,
}

/// The watcher's memory as plain values.
pub struct DebounceView {
    pub pending_games: Seq<u32>,
    pub pending_change: bool,
    pub last_change_millis: u64,
}

impl View for DebounceState {
    type V = DebounceView;

    open spec fn view(&self) -> DebounceView {
        DebounceView {
            pending_games: self.pending_games@,
            pending_change: self.pending_change,
            last_change_millis: self.last_change_millis,
        }
    }
}

/// The time that has passed from `since` to `now`; none where the clock
/// shows an earlier time.
pub open spec fn elapsed(since: u64, now: u64) -> u64 {
    if now >= since {
        (now - since) as u64
    } else {
        0
    }
}

/// What the watcher does at the time `now`, and what it remembers then.
///
/// After a stop request it ends. While a change is pending it waits for the
/// rest of the quiet time; once the quiet time has passed since the last
/// relevant event it backs up all pending slots in one batch and is idle
/// again. While idle it waits the long time.
pub open spec fn polled(state: DebounceView, shutdown: bool, now: u64) -> (
    DebounceView,
    WatchActionView,
) {
    if shutdown {
        (state, WatchActionView::Stop)
    } else if !state.pending_change {
        (state, WatchActionView::Wait(IDLE_WAIT_MILLIS))
    } else if elapsed(state.last_change_millis, now) >= DEBOUNCE_MILLIS {
        (
            DebounceView { pending_games: Seq::empty(), pending_change: false, ..state },
            WatchActionView::Backup(state.pending_games, IDLE_WAIT_MILLIS),
        )
    } else {
        (
            state,
            WatchActionView::Wait(
                (DEBOUNCE_MILLIS - elapsed(state.last_change_millis, now)) as u64,
            ),
        )
    }
}

/// `pending` with the slots added whose main save file one of `paths`
/// names, each slot once.
pub open spec fn slots_noted(pending: Seq<u32>, paths: Seq<Seq<char>>) -> Seq<u32>
    decreases paths.len(),
{
    if paths.len() == 0 {
        pending
    } else {
        let rest = slots_noted(pending, paths.drop_last());
        match parsed_path(paths.last()) {
            Some(info) => if !info.is_bak && !rest.contains(info.game_number) {
                rest.push(info.game_number)
            } else {
                rest
            },
            None => rest,
        }
    }
}

/// Whether one of `paths` names the main save file of a slot.
pub open spec fn is_relevant(paths: Seq<Seq<char>>) -> bool
    decreases paths.len(),
{
    paths.len() > 0 && (is_relevant(paths.drop_last()) || match parsed_path(paths.last()) {
        Some(info) => !info.is_bak,
        None => false,
    })
}

/// What the watcher remembers after an event at the time `now`, and whether
/// it goes on. A file event that names a main save file adds its slots to the
/// pending ones and starts the quiet time anew; other file events, errors and
/// timeouts change nothing; the loss of the file watch ends the loop.
pub open spec fn recorded(
    state: DebounceView,
    event: WatchEvent,
    now: u64,
) -> (DebounceView, bool) {
    match event {
        WatchEvent::Changed(paths) => if is_relevant(texts_of(paths@)) {
            (
                DebounceView {
                    pending_games: slots_noted(state.pending_games, texts_of(paths@)),
                    pending_change: true,
                    last_change_millis: now,
                },
                true,
            )
        } else {
            (state, true)
        },
        WatchEvent::WatchError => (state, true),
        WatchEvent::Timeout => (state, true),
        WatchEvent::Disconnected => (state, false),
    }
}

impl DebounceState {
    /// The idle watcher, with nothing pending.
    pub fn new() -> (r: Self)
        ensures
            r@ == (DebounceView {
                pending_games: Seq::empty(),
                pending_change: false,
                last_change_millis: 0,
            }),
    {
        DebounceState { pending_games: Vec::new(), pending_change: false, last_change_millis: 0 }
    }

    /// Decides what to do at the time `now_millis`. `shutdown` says whether
    /// the watcher was asked to stop.
    pub fn poll(&mut self, shutdown: bool, now_millis: u64) -> (action: WatchAction)
        ensures
            (final(self)@, action@) == polled(old(self)@, shutdown, now_millis),
    {
        if shutdown {
            return WatchAction::Stop;
        }
        if !self.pending_change {
            return WatchAction::Wait(IDLE_WAIT_MILLIS);
        }
        let passed: u64 = if now_millis >= self.last_change_millis {
            now_millis - self.last_change_millis
        } else {
            0
        };
        if passed >= DEBOUNCE_MILLIS {
            let mut games: Vec<u32> = Vec::new();
            std::mem::swap(&mut games, &mut self.pending_games);
            self.pending_change = false;
            WatchAction::Backup(games, IDLE_WAIT_MILLIS)
        } else {
            WatchAction::Wait(DEBOUNCE_MILLIS - passed)
        }
    }

    /// Takes note of an event that arrived at the time `now_millis`. Returns
    /// whether the loop goes on.
    pub fn record(&mut self, event: &WatchEvent, now_millis: u64) -> (go_on: bool)
        ensures
            (final(self)@, go_on) == recorded(old(self)@, *event, now_millis),
    {
        match event {
            WatchEvent::Changed(paths) => {
                let ghost all = texts_of(paths@);
                let ghost before = self.pending_games@;
                let mut relevant_event = false;
                let mut i: usize = 0;
                assert(all.take(0) =~= Seq::empty());
                while i < paths.len()
                    invariant
                        i <= paths.len(),
                        all == texts_of(paths@),
                        self.pending_change == old(self).pending_change,
                        self.last_change_millis == old(self).last_change_millis,
                        self.pending_games@ == slots_noted(before, all.take(i as int)),
                        relevant_event == is_relevant(all.take(i as int)),
                        !relevant_event ==> self.pending_games@ == before,
                    decreases paths.len() - i,
                {
                    assert(all.take(i + 1).drop_last() =~= all.take(i as int));
                    assert(all.take(i + 1).last() == paths@[i as int]@);
                    match parse_path(paths[i].as_str()) {
                        Some(info) => {
                            if !info.is_bak {
                                if !has_slot(&self.pending_games, info.game_number) {
                                    self.pending_games.push(info.game_number);
                                }
                                relevant_event = true;
                            }
                        },
                        None => {},
                    }
                    i += 1;
                }
                assert(all.take(i as int) =~= all);
                if relevant_event {
                    self.pending_change = true;
                    self.last_change_millis = now_millis;
                }
                true
            },
            WatchEvent::WatchError => true,
            WatchEvent::Timeout => true,
            WatchEvent::Disconnected => false,
        }
    }
}

/// Who may run: the watcher hands out a fresh token at each start, and a
/// stop cancels the token that is current. A loop that holds a cancelled
/// token ends; no later start makes that token valid again.
#[derive(Debug)]
pub struct FileWatcher {
    /// The number of tokens issued so far; the last one is the current one.
    pub issued: u64,
    /// Whether the current token is still valid.
    pub watching: bool,
}

/// The watcher's tokens as plain values.
pub struct FileWatcherView {
    pub issued: u64,
    pub watching: bool,
}

impl View for FileWatcher {
    type V = FileWatcherView;

    open spec fn view(&self) -> FileWatcherView {
        FileWatcherView { issued: self.issued, watching: self.watching }
    }
}

impl FileWatcherView {
    /// Whether `token` is cancelled: every token is, but the current one
    /// while the watcher is watching.
    pub open spec fn cancelled(self, token: u64) -> bool {
        !(self.watching && token == self.issued)
    }

    /// The watcher after a stop.
    pub open spec fn stopped(self) -> FileWatcherView {
        FileWatcherView { watching: false, ..self }
    }

    /// The watcher after a start, and the token it issued; `None` where all
    /// tokens are used up, in which case the watcher is stopped.
    pub open spec fn started(self) -> (FileWatcherView, Option<u64>) {
        if self.issued < u64::MAX {
            (
                FileWatcherView { issued: (self.issued + 1) as u64, watching: true },
                Some((self.issued + 1) as u64),
            )
        } else {
            (self.stopped(), None)
        }
    }
}

impl FileWatcher {
    /// A watcher that is not watching and has issued no token.
    pub fn new() -> (r: Self)
        ensures
            r@ == (FileWatcherView { issued: 0, watching: false }),
    {
        FileWatcher { issued: 0, watching: false }
    }

    /// Stops what runs, and issues the token for a new run.
    pub fn start(&mut self) -> (r: Result<u64, String>)
        ensures
            final(self)@ == old(self)@.started().0,
            match r {
                Ok(token) => old(self)@.started().1 == Some(token),
                Err(_) => old(self)@.started().1 is None,
            },
    {
        self.stop();
        if self.issued < u64::MAX {
            self.issued = self.issued + 1;
            self.watching = true;
            Ok(self.issued)
        } else {
            Err(String::from_str("Failed to start watching: no token left"))
        }
    }

    /// Cancels the current token.
    pub fn stop(&mut self)
        ensures
            final(self)@ == old(self)@.stopped(),
    {
        self.watching = false;
    }

    /// Tells whether `token` is cancelled.
    pub fn is_cancelled(&self, token: u64) -> (r: bool)
        ensures
            r == self@.cancelled(token),
    {
        !(self.watching && token == self.issued)
    }
}

/// A token that was issued and is cancelled stays cancelled, whatever
/// starts and stops follow.
pub proof fn lemma_cancelled_stays(watcher: FileWatcherView, token: u64)
    requires
        token <= watcher.issued,
        watcher.cancelled(token),
    ensures
        watcher.stopped().cancelled(token),
        watcher.started().0.cancelled(token),
        token <= watcher.stopped().issued,
        token <= watcher.started().0.issued,
{
}

/// A stop cancels the current token, and a start cancels it as well.
pub proof fn lemma_stop_cancels(watcher: FileWatcherView)
    ensures
        watcher.stopped().cancelled(watcher.issued),
        watcher.started().0.cancelled(watcher.issued),
{
}

/// While a change is pending and less than the quiet time has passed since
/// the last relevant event, nothing is backed up; and a relevant event puts
/// the watcher into that state, whatever it remembered before.
pub proof fn lemma_quiet_time(state: DebounceView, event: WatchEvent, at: u64, now: u64)
    requires
        event matches WatchEvent::Changed(paths) && is_relevant(texts_of(paths@)),
        at <= now < at + DEBOUNCE_MILLIS,
    ensures
        recorded(state, event, at).0.pending_change,
        recorded(state, event, at).0.last_change_millis == at,
        polled(recorded(state, event, at).0, false, now).1 == WatchActionView::Wait(
            (DEBOUNCE_MILLIS - (now - at)) as u64,
        ),
        polled(recorded(state, event, at).0, false, now).0 == recorded(state, event, at).0,
{
}

/// Once the quiet time has passed, all pending slots go into one batch and
/// the watcher is idle, with nothing pending.
pub proof fn lemma_batch_after_quiet_time(state: DebounceView, now: u64)
    requires
        state.pending_change,
        now >= state.last_change_millis + DEBOUNCE_MILLIS,
    ensures
        polled(state, false, now).1 == WatchActionView::Backup(
            state.pending_games,
            IDLE_WAIT_MILLIS,
        ),
        !polled(state, false, now).0.pending_change,
        polled(state, false, now).0.pending_games.len() == 0,
        polled(polled(state, false, now).0, false, now).1 == WatchActionView::Wait(
            IDLE_WAIT_MILLIS,
        ),
{
}

/// Taking note of an event lists no slot twice: where the pending slots
/// are distinct they stay distinct, so no slot is backed up twice in one batch.
pub proof fn lemma_slots_noted_distinct(pending: Seq<u32>, paths: Seq<Seq<char>>)
    requires
        pending.no_duplicates(),
    ensures
        slots_noted(pending, paths).no_duplicates(),
    decreases paths.len(),
{
    if paths.len() > 0 {
        lemma_slots_noted_distinct(pending, paths.drop_last());
        let rest = slots_noted(pending, paths.drop_last());
        match parsed_path(paths.last()) {
            Some(info) => {
                if !info.is_bak && !rest.contains(info.game_number) {
                    let all = rest.push(info.game_number);
                    assert forall|i: int, j: int|
                        0 <= i < all.len() && 0 <= j < all.len() && i != j implies all[i]
                        != all[j] by {
                        if i < rest.len() && j < rest.len() {
                            assert(rest[i] != rest[j]);
                        } else if i < rest.len() {
                            assert(rest.contains(rest[i]));
                        } else {
                            assert(rest.contains(rest[j]));
                        }
                    }
                }
            },
            None => {},
        }
    }
}

/// The first scan lists every slot once.
pub proof fn lemma_slots_of_distinct(files: Seq<SaveFileView>)
    ensures
        slots_of(files).no_duplicates(),
    decreases files.len(),
{
    if files.len() > 0 {
        lemma_slots_of_distinct(files.drop_last());
        let rest = slots_of(files.drop_last());
        match parsed_filename(files.last().name) {
            Some(info) => {
                if !info.is_bak && !rest.contains(info.game_number) {
                    let all = rest.push(info.game_number);
                    assert forall|i: int, j: int|
                        0 <= i < all.len() && 0 <= j < all.len() && i != j implies all[i]
                        != all[j] by {
                        if i < rest.len() && j < rest.len() {
                            assert(rest[i] != rest[j]);
                        } else if i < rest.len() {
                            assert(rest.contains(rest[i]));
                        } else {
                            assert(rest.contains(rest[j]));
                        }
                    }
                }
            },
            None => {},
        }
    }
}

/// A batch with a main save file makes a fresh folder in a save directory
/// without any.
proof fn lemma_has_fresh_folder(files: Seq<SaveFileView>, games: Seq<u32>)
    ensures
        has_main_file(files, games) == (crate::backup::first::fresh_folders(files, games).len() > 0),
    decreases games.len(),
{
    if games.len() > 0 {
        lemma_has_fresh_folder(files, games.drop_last());
    }
}

/// The first scan of a save directory that has no `.backups` yet makes one
/// snapshot folder for each slot with a main save file, holding the files of
/// that slot alone, and leaves an index with one entry for each such slot.
pub proof fn lemma_first_scan(dir: SaveDirView, limit: nat)
    requires
        dir.wf(),
        dir.exists,
        !dir.has_backup_root,
        has_main_file(dir.files, slots_of(dir.files)),
    ensures
        after_scan(dir, limit) == (
            SaveDirView {
                has_backup_root: true,
                folders: crate::backup::first::fresh_folders(dir.files, slots_of(dir.files)),
                index: Some(
                    BackupIndexView {
                        games: crate::backup::first::fresh_entries(dir.files, slots_of(dir.files)),
                        notes: Map::empty(),
                    },
                ),
                ..dir
            },
            true,
        ),
{
    let rooted = with_backup_root(dir);
    lemma_slots_of_distinct(dir.files);
    lemma_has_fresh_folder(dir.files, slots_of(dir.files));
    assert(loaded_index(rooted) == BackupIndexView::empty());
    crate::backup::first::lemma_first_backups(rooted, slots_of(dir.files), limit);
}

} // verus!
