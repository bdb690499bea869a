use save_manager::backup::index::load_index;
use save_manager::backup::listing::get_backups;
use save_manager::backup::tree::SaveDir;
use save_manager::backup::tree::SaveFile;
use save_manager::filename_utils::parse_path;
use save_manager::timestamp::LocalDateTime;
use save_manager::watcher::DebounceState;
use save_manager::watcher::FileWatcher;
use save_manager::watcher::WatchAction;
use save_manager::watcher::WatchEvent;
use save_manager::watcher::perform_batch_backups;
use save_manager::watcher::scan_and_backup_existing;
use std::path::PathBuf;

fn write(dir: &mut SaveDir, name: &str, content: &str, second: u32) {
    dir.write_file(SaveFile {
        name: name.to_string(),
        data: content.as_bytes().to_vec(),
        modified_nanos: 1_706_173_200_000_000_000 + second as u128 * 1_000_000_000,
        modified: LocalDateTime { year: 2024, month: 1, day: 25, hour: 9, minute: 0, second },
    });
}

fn stored(dir: &SaveDir, folder: &str, name: &str) -> Option<String> {
    dir.folders
        .iter()
        .find(|f| f.name == folder)?
        .files
        .iter()
        .find(|f| f.name == name)
        .map(|f| String::from_utf8(f.data.clone()).unwrap())
}

fn changed(paths: &[&str]) -> WatchEvent {
    WatchEvent::Changed(paths.iter().map(|p| p.to_string()).collect())
}

fn is_wait(action: &WatchAction, millis: u64) -> bool {
    matches!(action, WatchAction::Wait(m) if *m == millis)
}

/// Verifies that FileWatcher can start and stop without error.
#[test]
fn test_file_watcher_lifecycle() {
    let mut watcher = FileWatcher::new();
    assert!(watcher.start().is_ok());
    watcher.stop();
}

/// Ensures that a previous shutdown token remains signaled after restarting the watcher.
#[test]
fn test_shutdown_signal_not_cleared_by_restart() {
    let mut watcher = FileWatcher::new();

    let started = watcher.start();
    assert!(started.is_ok());
    let shutdown_token = started.unwrap();
    assert!(!watcher.is_cancelled(shutdown_token));

    watcher.stop();
    assert!(watcher.is_cancelled(shutdown_token), "Shutdown token should be true after stop");

    assert!(watcher.start().is_ok());
    assert!(
        watcher.is_cancelled(shutdown_token),
        "Shutdown token from the previous thread should remain true after restart"
    );
}

/// A start cancels the run before it, and each run has its own token.
#[test]
fn file_watcher_tokens() {
    let mut watcher = FileWatcher::new();
    assert!(watcher.is_cancelled(0));
    assert!(watcher.is_cancelled(1));
    let first = watcher.start().unwrap();
    let second = watcher.start().unwrap();
    assert_ne!(first, second);
    assert!(watcher.is_cancelled(first));
    assert!(!watcher.is_cancelled(second));
    watcher.stop();
    watcher.stop();
    assert!(watcher.is_cancelled(second));

    let mut spent = FileWatcher { issued: u64::MAX, watching: true };
    assert!(spent.start().is_err());
    assert!(spent.is_cancelled(u64::MAX));
}

/// Validates that filename parsing correctly identifies save files and backup files.
#[test]
fn test_filename_parsing_for_filtering() {
    let path_valid = PathBuf::from("gamesave_1.sav");
    let path_bak = PathBuf::from("gamesave_1.sav.bak");
    let path_invalid = PathBuf::from("other.txt");
    let path_invalid_fmt = PathBuf::from("gamesave_abc.sav");

    let valid_info = parse_path(path_valid.to_str().unwrap()).unwrap();
    assert!(!valid_info.is_bak, "Main save file should not be marked as bak");

    let bak_info = parse_path(path_bak.to_str().unwrap()).unwrap();
    assert!(bak_info.is_bak, "Backup file should be marked as bak");

    assert!(parse_path(path_invalid.to_str().unwrap()).is_none());
    assert!(parse_path(path_invalid_fmt.to_str().unwrap()).is_none());
}

/// Checks that scan_and_backup_existing backs up multiple save files correctly.
#[test]
fn test_initial_scan_batch_processing() {
    let mut save_dir = SaveDir::new("/saves");
    write(&mut save_dir, "gamesave_1.sav", "data1", 0);
    write(&mut save_dir, "gamesave_2.sav", "data2", 0);

    scan_and_backup_existing(&mut save_dir, 100);

    assert!(save_dir.has_backup_root);
    assert!(save_dir.index.is_some());

    let backups = get_backups(&save_dir, true, None);
    assert_eq!(backups.len(), 2);

    let games: std::collections::HashSet<u32> = backups.iter().map(|b| b.game_number).collect();
    assert!(games.contains(&1));
    assert!(games.contains(&2));
}

/// A directory with `gamesave_0.sav` = "data0" and `gamesave_1.sav` =
/// "data1" and no `.backups`: the first scan with limit 100 leaves an index
/// with entries for slots 0 and 1 and two snapshot folders, one for each slot,
/// each with the content of its slot alone.
#[test]
fn initial_scan_scenario() {
    let mut dir = SaveDir::new("/saves");
    write(&mut dir, "gamesave_0.sav", "data0", 5);
    write(&mut dir, "gamesave_1.sav", "data1", 6);
    assert!(!dir.has_backup_root);

    assert!(scan_and_backup_existing(&mut dir, 100));

    let index = load_index(&dir);
    assert!(dir.index.is_some());
    assert_eq!(index.games.len(), 2);
    assert_eq!(index.game(0).unwrap().last_backup_path, "Game 1 - 25-Jan-2024 09-00-05 AM");
    assert_eq!(index.game(1).unwrap().last_backup_path, "Game 2 - 25-Jan-2024 09-00-06 AM");

    assert_eq!(dir.folders.len(), 2);
    for folder in dir.folders.iter() {
        assert_eq!(folder.files.len(), 1);
    }
    assert_eq!(
        stored(&dir, "Game 1 - 25-Jan-2024 09-00-05 AM", "gamesave_0.sav"),
        Some("data0".to_string())
    );
    assert_eq!(
        stored(&dir, "Game 2 - 25-Jan-2024 09-00-06 AM", "gamesave_1.sav"),
        Some("data1".to_string())
    );

    // A second scan finds nothing new.
    assert!(!scan_and_backup_existing(&mut dir, 100));
    assert_eq!(dir.folders.len(), 2);
}

/// The scan goes by main save files alone.
#[test]
fn scan_ignores_other_files() {
    let mut dir = SaveDir::new("/saves");
    write(&mut dir, "gamesave_3.sav.bak", "bak", 0);
    write(&mut dir, "gamesave_x.sav", "x", 0);
    write(&mut dir, "readme.txt", "x", 0);
    assert!(!scan_and_backup_existing(&mut dir, 100));
    assert!(dir.folders.is_empty());
    assert!(!dir.has_backup_root);

    let mut gone = SaveDir::new("/gone");
    gone.exists = false;
    assert!(!scan_and_backup_existing(&mut gone, 100));
    assert!(!gone.exists);
}

/// A batch loads and saves the index once and reports whether anything was made.
#[test]
fn batch_backups() {
    let mut dir = SaveDir::new("/saves");
    write(&mut dir, "gamesave_0.sav", "a", 0);
    write(&mut dir, "gamesave_2.sav", "b", 0);
    assert!(!perform_batch_backups(&mut dir, &vec![], 100));
    assert!(!dir.has_backup_root);
    assert!(perform_batch_backups(&mut dir, &vec![2, 1, 0, 2], 100));
    assert_eq!(dir.folders.len(), 2);
    assert_eq!(dir.folders[0].name, "Game 3 - 25-Jan-2024 09-00-00 AM");
    assert_eq!(dir.folders[1].name, "Game 1 - 25-Jan-2024 09-00-00 AM");
    assert_eq!(load_index(&dir).games.len(), 2);
    assert!(!perform_batch_backups(&mut dir, &vec![0, 1, 2], 100));
    assert!(!perform_batch_backups(&mut dir, &vec![9], 100));
}

/// While idle the watcher waits a minute; a relevant event starts the two
/// seconds of quiet time; each further relevant event starts them anew; when
/// they have passed, all pending slots go into one batch.
#[test]
fn debounce_loop_decisions() {
    let mut state = DebounceState::new();
    assert!(is_wait(&state.poll(false, 0), 60000));
    assert!(state.record(&WatchEvent::Timeout, 60000));
    assert!(is_wait(&state.poll(false, 60000), 60000));

    assert!(state.record(&changed(&["/saves/gamesave_1.sav", "/saves/gamesave_1.sav.bak"]), 61000));
    assert!(state.pending_change);
    assert_eq!(state.pending_games, vec![1]);
    assert!(is_wait(&state.poll(false, 61000), 2000));
    assert!(is_wait(&state.poll(false, 62500), 500));

    // Another relevant event starts the quiet time anew.
    assert!(state.record(&changed(&["/saves/gamesave_3.sav", "/saves/gamesave_1.sav"]), 62500));
    assert_eq!(state.pending_games, vec![1, 3]);
    assert!(is_wait(&state.poll(false, 63000), 1500));

    // Events that name no main save file do not.
    assert!(state.record(&changed(&["/saves/gamesave_4.sav.bak", "/saves/x.txt"]), 64000));
    assert!(state.record(&changed(&[]), 64000));
    assert!(state.record(&WatchEvent::WatchError, 64000));
    assert_eq!(state.pending_games, vec![1, 3]);
    assert!(is_wait(&state.poll(false, 64499), 1));

    match state.poll(false, 64500) {
        WatchAction::Backup(games, wait) => {
            assert_eq!(games, vec![1, 3]);
            assert_eq!(wait, 60000);
        }
        other => panic!("expected a batch, got {:?}", other),
    }
    assert!(!state.pending_change);
    assert!(state.pending_games.is_empty());
    assert!(is_wait(&state.poll(false, 64500), 60000));
}

/// A stop request and the loss of the file watch end the loop.
#[test]
fn debounce_loop_ends() {
    let mut state = DebounceState::new();
    assert!(state.record(&changed(&["gamesave_0.sav"]), 10));
    assert!(matches!(state.poll(true, 5000), WatchAction::Stop));
    assert_eq!(state.pending_games, vec![0]);
    assert!(!state.record(&WatchEvent::Disconnected, 5000));
    assert_eq!(state.pending_games, vec![0]);
    // A clock that runs backwards counts as no time passed.
    assert!(is_wait(&state.poll(false, 5), 2000));
}

/// A batch in which no slot has a main save file touches nothing.
#[test]
fn batch_without_main_files() {
    let mut dir = SaveDir::new("/saves");
    write(&mut dir, "gamesave_3.sav.bak", "bak", 0);
    write(&mut dir, "gamesave_007.sav", "odd", 0);
    assert!(!perform_batch_backups(&mut dir, &vec![3, 7, 9], 100));
    assert!(!dir.has_backup_root);
    assert!(dir.index.is_none());
    assert!(!scan_and_backup_existing(&mut dir, 100));
    assert!(!dir.has_backup_root);
    assert!(dir.index.is_none());
    assert!(dir.folders.is_empty());
}
