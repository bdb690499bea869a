use chrono::Datelike;
use chrono::TimeZone;
use chrono::Timelike;
use save_manager::filename_utils::BackupFolderInfo;
use save_manager::filename_utils::SaveFileInfo;
use save_manager::filename_utils::backup_folder_info;
use save_manager::filename_utils::choose_directory;
use save_manager::filename_utils::format_backup_folder_name;
use save_manager::filename_utils::normalize_to_directory;
use save_manager::filename_utils::parse_backup_folder_name;
use save_manager::filename_utils::parse_filename;
use save_manager::filename_utils::parse_path;
use save_manager::filename_utils::split_backup_folder_name;
use save_manager::timestamp::LocalDateTime;
use std::path::PathBuf;

fn moment(year: i32, month: u32, day: u32, hour: u32, minute: u32, second: u32) -> LocalDateTime {
    LocalDateTime { year, month, day, hour, minute, second }
}

/// Tests parsing of valid .sav filenames.
#[test]
fn test_parse_filename_valid_sav() {
    assert_eq!(
        parse_filename("gamesave_0.sav"),
        Some(SaveFileInfo { game_number: 0, is_bak: false })
    );
    assert_eq!(
        parse_filename("gamesave_123.sav"),
        Some(SaveFileInfo { game_number: 123, is_bak: false })
    );
}

/// Tests parsing of valid .sav.bak filenames.
#[test]
fn test_parse_filename_valid_bak() {
    assert_eq!(
        parse_filename("gamesave_0.sav.bak"),
        Some(SaveFileInfo { game_number: 0, is_bak: true })
    );
    assert_eq!(
        parse_filename("gamesave_5.sav.bak"),
        Some(SaveFileInfo { game_number: 5, is_bak: true })
    );
}

/// Tests that invalid filenames return None.
#[test]
fn test_parse_filename_invalid() {
    assert_eq!(parse_filename("gamesave_abc.sav"), None);
    assert_eq!(parse_filename("other_0.sav"), None);
    assert_eq!(parse_filename("gamesave_0.txt"), None);
    assert_eq!(parse_filename("gamesave_0"), None);
    assert_eq!(parse_filename("gamesave_.sav"), None);
    assert_eq!(parse_filename("gamesave_0.sav.other"), None);
}

/// The slot number is read as `u32`: the largest one is taken, the next is not.
#[test]
fn parse_filename_number_limits() {
    assert_eq!(
        parse_filename("gamesave_4294967295.sav"),
        Some(SaveFileInfo { game_number: 4294967295, is_bak: false })
    );
    assert_eq!(parse_filename("gamesave_4294967296.sav"), None);
    assert_eq!(parse_filename("gamesave_99999999999999999999999.sav"), None);
    assert_eq!(
        parse_filename("gamesave_007.sav"),
        Some(SaveFileInfo { game_number: 7, is_bak: false })
    );
    assert_eq!(
        parse_filename("gamesave_+7.sav"),
        Some(SaveFileInfo { game_number: 7, is_bak: false })
    );
    assert_eq!(parse_filename("gamesave_+.sav"), None);
    assert_eq!(parse_filename("gamesave_-7.sav"), None);
    assert_eq!(parse_filename("gamesave_7 .sav"), None);
    assert_eq!(parse_filename(""), None);
    assert_eq!(parse_filename("gamesave_"), None);
}

/// Tests parsing from a full path.
#[test]
fn test_parse_path() {
    let p = PathBuf::from("base").join("subdir").join("gamesave_1.sav");
    assert_eq!(
        parse_path(p.to_str().unwrap()),
        Some(SaveFileInfo { game_number: 1, is_bak: false })
    );
}

/// A path without a final component names no save file.
#[test]
fn parse_path_without_file_name() {
    assert_eq!(parse_path(""), None);
    assert_eq!(parse_path("base/.."), None);
    assert_eq!(parse_path("base/gamesave_1.sav/other.txt"), None);
}

/// Tests path normalization logic.
#[test]
fn test_normalize_to_directory() {
    let temp_dir = tempfile::tempdir().expect("failed to create temp dir");
    let dir_path = temp_dir.path();

    // 1. Existing Directory
    let dir_text = dir_path.to_str().unwrap();
    assert_eq!(
        normalize_to_directory(dir_text, dir_path.is_file(), dir_path.exists()).unwrap(),
        dir_text
    );

    // 2. Existing File
    let file = tempfile::Builder::new().suffix(".sav").tempfile_in(dir_path).unwrap();
    let file_path = file.path();
    assert_eq!(
        normalize_to_directory(
            file_path.to_str().unwrap(),
            file_path.is_file(),
            file_path.exists()
        )
        .unwrap(),
        dir_text
    );

    // 3. Non-existent file (has extension)
    let future_file = dir_path.join("future.sav");
    assert_eq!(
        normalize_to_directory(
            future_file.to_str().unwrap(),
            future_file.is_file(),
            future_file.exists()
        )
        .unwrap(),
        dir_text
    );

    // 4. Non-existent directory (no extension)
    let future_dir = dir_path.join("future_dir");
    assert_eq!(
        normalize_to_directory(
            future_dir.to_str().unwrap(),
            future_dir.is_file(),
            future_dir.exists()
        )
        .unwrap(),
        future_dir.to_str().unwrap()
    );
}

/// A file without a parent cannot be turned into a directory.
#[test]
fn normalize_to_directory_without_parent() {
    assert_eq!(
        normalize_to_directory("", true, true),
        Err("Invalid file path: has no parent".to_string())
    );
    assert_eq!(normalize_to_directory("saves", false, true), Ok("saves".to_string()));
    assert_eq!(normalize_to_directory("saves/a.sav", false, false), Ok("saves".to_string()));
    assert_eq!(normalize_to_directory("saves/a.sav", false, true), Ok("saves/a.sav".to_string()));
}

#[test]
fn test_backup_folder_formatting_and_parsing() {
    // Use a fixed time for testing
    let dt = chrono::Local.timestamp_opt(1706173200, 0).unwrap();
    let game_number = 1; // Game 2
    let local =
        moment(dt.year(), dt.month(), dt.day(), dt.hour(), dt.minute(), dt.second());
    assert!(local.check());

    let folder_name = format_backup_folder_name(game_number, local);
    assert!(folder_name.starts_with("Game 2 - "));

    let parsed = parse_backup_folder_name(&folder_name).expect("Failed to parse");
    assert_eq!(parsed.game_number, game_number);
    let t = parsed.timestamp;
    let read = chrono::NaiveDate::from_ymd_opt(t.year, t.month, t.day)
        .unwrap()
        .and_hms_opt(t.hour, t.minute, t.second)
        .unwrap();
    let read = chrono::Local.from_local_datetime(&read).earliest().unwrap();
    assert_eq!(read.timestamp(), dt.timestamp());
}

/// A folder name for slot 3 and a fixed moment is read back as slot 3 and
/// that moment.
#[test]
fn folder_name_round_trip() {
    let t = moment(2024, 1, 25, 9, 0, 0);
    let name = format_backup_folder_name(3, t);
    assert_eq!(name, "Game 4 - 25-Jan-2024 09-00-00 AM");
    assert_eq!(
        parse_backup_folder_name(&name),
        Some(BackupFolderInfo { game_number: 3, timestamp: t })
    );
}

/// The moment is written with two-digit fields, an English month name and
/// a twelve-hour clock.
#[test]
fn folder_name_exact_text() {
    assert_eq!(
        format_backup_folder_name(0, moment(2023, 12, 31, 23, 59, 58)),
        "Game 1 - 31-Dec-2023 11-59-58 PM"
    );
    assert_eq!(
        format_backup_folder_name(9, moment(2000, 2, 29, 0, 5, 7)),
        "Game 10 - 29-Feb-2000 12-05-07 AM"
    );
    assert_eq!(
        format_backup_folder_name(41, moment(1999, 7, 4, 12, 0, 0)),
        "Game 42 - 04-Jul-1999 12-00-00 PM"
    );
    assert_eq!(
        format_backup_folder_name(0, moment(987, 3, 1, 13, 1, 1)),
        "Game 1 - 01-Mar-0987 01-01-01 PM"
    );
    assert_eq!(
        format_backup_folder_name(0, moment(12345, 5, 6, 7, 8, 9)),
        "Game 1 - 06-May-+12345 07-08-09 AM"
    );
    assert_eq!(
        format_backup_folder_name(0, moment(-44, 3, 15, 7, 8, 9)),
        "Game 1 - 15-Mar--0044 07-08-09 AM"
    );
    assert_eq!(
        format_backup_folder_name(4294967295, moment(2024, 6, 1, 1, 2, 3)),
        "Game 4294967296 - 01-Jun-2024 01-02-03 AM"
    );
}

/// Every month has its name, and each name is read back.
#[test]
fn folder_name_months() {
    let names =
        ["Jan", "Feb", "Mar", "Apr", "May", "Jun", "Jul", "Aug", "Sep", "Oct", "Nov", "Dec"];
    for (i, name) in names.iter().enumerate() {
        let t = moment(2021, i as u32 + 1, 9, 15, 30, 45);
        let folder = format_backup_folder_name(7, t);
        assert_eq!(folder, format!("Game 8 - 09-{}-2021 03-30-45 PM", name));
        assert_eq!(
            parse_backup_folder_name(&folder),
            Some(BackupFolderInfo { game_number: 7, timestamp: t })
        );
    }
}

/// Names that do not follow the form are no snapshot folders.
#[test]
fn parse_backup_folder_name_invalid() {
    assert_eq!(parse_backup_folder_name("not-a-backup"), None);
    assert_eq!(parse_backup_folder_name(""), None);
    assert_eq!(parse_backup_folder_name("Game 2"), None);
    assert_eq!(parse_backup_folder_name("Game 2 - "), None);
    assert_eq!(parse_backup_folder_name("Game x - 25-Jan-2024 09-00-00 AM"), None);
    assert_eq!(parse_backup_folder_name("game 2 - 25-Jan-2024 09-00-00 AM"), None);
    assert_eq!(parse_backup_folder_name("Game 2 - 32-Jan-2024 09-00-00 AM"), None);
    assert_eq!(parse_backup_folder_name("Game 2 - 25-Jan-2024 13-00-00 AM"), None);
    assert_eq!(parse_backup_folder_name("Game 2 - 2024-01-25"), None);
    assert_eq!(parse_backup_folder_name("Game 4294967296 - 25-Jan-2024 09-00-00 AM"), None);
    assert_eq!(parse_backup_folder_name("Game 2 -25-Jan-2024 09-00-00 AM"), None);
}

/// The display number 0 is read as slot 0, like the display number 1.
#[test]
fn parse_backup_folder_name_display_zero() {
    let t = moment(2024, 1, 25, 21, 0, 0);
    assert_eq!(
        parse_backup_folder_name("Game 0 - 25-Jan-2024 09-00-00 PM"),
        Some(BackupFolderInfo { game_number: 0, timestamp: t })
    );
    assert_eq!(
        parse_backup_folder_name("Game 1 - 25-Jan-2024 09-00-00 PM"),
        Some(BackupFolderInfo { game_number: 0, timestamp: t })
    );
}

/// The name is cut at the first separator.
#[test]
fn parse_backup_folder_name_first_separator() {
    assert_eq!(parse_backup_folder_name("Game 2 - x - 25-Jan-2024 09-00-00 AM"), None);
    assert_eq!(parse_backup_folder_name(" - Game 2 - 25-Jan-2024 09-00-00 AM"), None);
}

/// Dates are checked against the calendar.
#[test]
fn local_date_time_check() {
    assert!(moment(2024, 2, 29, 0, 0, 0).check());
    assert!(!moment(2023, 2, 29, 0, 0, 0).check());
    assert!(moment(2000, 2, 29, 0, 0, 0).check());
    assert!(!moment(1900, 2, 29, 0, 0, 0).check());
    assert!(moment(-4, 2, 29, 0, 0, 0).check());
    assert!(!moment(2024, 4, 31, 0, 0, 0).check());
    assert!(!moment(2024, 0, 1, 0, 0, 0).check());
    assert!(!moment(2024, 13, 1, 0, 0, 0).check());
    assert!(!moment(2024, 1, 0, 0, 0, 0).check());
    assert!(!moment(2024, 1, 1, 24, 0, 0).check());
    assert!(!moment(2024, 1, 1, 0, 60, 0).check());
    assert!(!moment(2024, 1, 1, 0, 0, 60).check());
    assert!(moment(262142, 12, 31, 23, 59, 59).check());
    assert!(!moment(262143, 1, 1, 0, 0, 0).check());
    assert!(moment(-262143, 1, 1, 0, 0, 0).check());
    assert!(!moment(-262144, 1, 1, 0, 0, 0).check());
}

/// Moments are ordered from the year down to the second.
#[test]
fn local_date_time_order() {
    let a = moment(2024, 1, 25, 9, 0, 0);
    assert!(a.is_before(&moment(2024, 1, 25, 9, 0, 1)));
    assert!(a.is_before(&moment(2024, 1, 25, 9, 1, 0)));
    assert!(a.is_before(&moment(2024, 1, 25, 10, 0, 0)));
    assert!(a.is_before(&moment(2024, 1, 26, 0, 0, 0)));
    assert!(a.is_before(&moment(2024, 2, 1, 0, 0, 0)));
    assert!(a.is_before(&moment(2025, 1, 1, 0, 0, 0)));
    assert!(!a.is_before(&a));
    assert!(!moment(2025, 1, 1, 0, 0, 0).is_before(&a));
    assert!(!moment(2024, 1, 25, 9, 0, 1).is_before(&a));
}

/// A folder name is cut at its first separator into display number and
/// date part.
#[test]
fn split_backup_folder_name_parts() {
    assert_eq!(
        split_backup_folder_name("Game 12 - 25-Jan-2024 09-00-00 AM"),
        Some((12, "25-Jan-2024 09-00-00 AM".to_string()))
    );
    assert_eq!(split_backup_folder_name("Game 0 - x - y"), Some((0, "x - y".to_string())));
    assert_eq!(split_backup_folder_name("Game 7 - "), Some((7, String::new())));
    assert_eq!(split_backup_folder_name("Game +7 - rest"), Some((7, "rest".to_string())));
    assert_eq!(split_backup_folder_name("Game 7"), None);
    assert_eq!(split_backup_folder_name("Game  - rest"), None);
    assert_eq!(split_backup_folder_name("Gam 7 - rest"), None);
    assert_eq!(split_backup_folder_name("Game 7- rest"), None);
    assert_eq!(split_backup_folder_name(" - "), None);
    assert_eq!(split_backup_folder_name("Game 4294967296 - rest"), None);
}

/// The display number is one more than the slot, and without a moment
/// there is nothing.
#[test]
fn backup_folder_info_from_parts() {
    let t = moment(2024, 1, 25, 9, 0, 0);
    let slot = |game_number: u32| Some(BackupFolderInfo { game_number, timestamp: t });
    assert_eq!(backup_folder_info(4, Some(t)), slot(3));
    assert_eq!(backup_folder_info(1, Some(t)), slot(0));
    assert_eq!(backup_folder_info(0, Some(t)), slot(0));
    assert_eq!(
        backup_folder_info(4294967295, Some(t)),
        Some(BackupFolderInfo { game_number: 4294967294, timestamp: t })
    );
    assert_eq!(backup_folder_info(4, None), None);
}

/// The directory is chosen from what is known of the path.
#[test]
fn choose_directory_cases() {
    let parent = Some("saves".to_string());
    let saves = Ok("saves".to_string());
    assert_eq!(choose_directory("saves/a.sav", true, true, true, parent.clone()), saves);
    assert_eq!(choose_directory("saves/a", true, true, false, parent.clone()), saves);
    assert_eq!(choose_directory("saves/a.sav", false, false, true, parent.clone()), saves);
    assert_eq!(
        choose_directory("saves/a", false, false, false, parent.clone()),
        Ok("saves/a".to_string())
    );
    assert_eq!(
        choose_directory("saves/a.d", false, true, true, parent),
        Ok("saves/a.d".to_string())
    );
    assert_eq!(
        choose_directory("a.sav", false, false, true, None),
        Err("Invalid file path: has no parent".to_string())
    );
    assert_eq!(choose_directory("a", false, true, false, None), Ok("a".to_string()));
}

/// A moment passes the check exactly where chrono has such a date and time.
#[test]
fn local_date_time_check_agrees_with_chrono() {
    let years = [-262144, -262143, -401, -400, -100, -4, -1, 0, 1, 4, 100, 1900, 1999, 2000, 2023,
        2024, 2100, 9999, 10000, 262142, 262143];
    for year in years {
        for month in 0..14u32 {
            for day in [0u32, 1, 27, 28, 29, 30, 31, 32] {
                let known = chrono::NaiveDate::from_ymd_opt(year, month, day).is_some();
                let checked = moment(year, month, day, 0, 0, 0).check();
                assert_eq!(checked, known, "{year}-{month}-{day}");
            }
        }
    }
    for hour in [0u32, 11, 12, 23, 24] {
        for minute in [0u32, 59, 60] {
            for second in [0u32, 59, 60] {
                let known = chrono::NaiveDate::from_ymd_opt(2024, 1, 25)
                    .unwrap()
                    .and_hms_opt(hour, minute, second)
                    .is_some();
                assert_eq!(moment(2024, 1, 25, hour, minute, second).check(), known);
            }
        }
    }
}

/// Every hour of the day is written on the twelve-hour clock and read back.
#[test]
fn folder_name_hours() {
    for hour in 0..24u32 {
        let t = moment(2024, 2, 29, hour, 7, 9);
        let name = format_backup_folder_name(0, t);
        let shown = if hour % 12 == 0 { 12 } else { hour % 12 };
        let half = if hour < 12 { "AM" } else { "PM" };
        assert_eq!(name, format!("Game 1 - 29-Feb-2024 {:02}-07-09 {}", shown, half));
        assert_eq!(
            parse_backup_folder_name(&name),
            Some(BackupFolderInfo { game_number: 0, timestamp: t })
        );
    }
}

/// Every folder name that is written is read back as the same slot and the
/// same moment, over the years that a date can have.
#[test]
fn folder_name_round_trip_everywhere() {
    let years = [-262143, -10000, -9999, -1000, -999, -44, -1, 0, 1, 9, 10, 99, 100, 999, 1000,
        1970, 2024, 9999, 10000, 12345, 99999, 262142];
    for year in years {
        for (month, day) in [(1u32, 1u32), (2, 28), (5, 31), (9, 9), (12, 31)] {
            for (hour, minute, second) in [(0u32, 0u32, 0u32), (9, 5, 7), (12, 0, 0), (23, 59, 59)] {
                let t = moment(year, month, day, hour, minute, second);
                assert!(t.check());
                for slot in [0u32, 9, 4294967294] {
                    let name = format_backup_folder_name(slot, t);
                    assert_eq!(
                        parse_backup_folder_name(&name),
                        Some(BackupFolderInfo { game_number: slot, timestamp: t }),
                        "{name}"
                    );
                }
            }
        }
    }
    // The last slot has a display number that does not fit.
    let name = format_backup_folder_name(4294967295, moment(2024, 1, 25, 9, 0, 0));
    assert_eq!(parse_backup_folder_name(&name), None);
}
