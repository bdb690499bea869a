use save_manager::commands::check_backup_path;
use save_manager::commands::verify_backup_path;
use save_manager::config::AppConfig;
use save_manager::config::config_directory;
use save_manager::config::config_file_name;
use save_manager::config::config_path_for_exe;
use save_manager::config::default_max_backups;
use save_manager::config::is_acceptable_path;
use save_manager::config::is_valid_path;
use std::path::Path;
use std::path::PathBuf;

/// Asks the file system what `is_valid_path` needs to know, and decides.
fn valid(path: &str) -> bool {
    let p = Path::new(path);
    let parent_exists = p.parent().map(|parent| parent.exists()).unwrap_or(false);
    is_valid_path(path, p.exists(), parent_exists)
}

/// Tests that the default configuration has expected values.
#[test]
fn test_app_config_default() {
    let config = AppConfig::default();
    assert!(config.save_path.is_none());
    assert!(!config.auto_launch_game);
    assert!(!config.auto_close);
    assert_eq!(config.max_backups_per_game, 100);
    assert_eq!(default_max_backups(), 100);
}

/// Tests that an invalid path string returns false.
#[test]
fn test_validate_path_invalid() {
    assert!(!valid("::invalid::path::??"));
}

/// Tests that a valid directory path returns true.
#[test]
fn test_validate_path_valid_dir() {
    let temp_dir = tempfile::tempdir().expect("failed to create temp dir");
    let path_str = temp_dir.path().to_string_lossy().to_string();
    assert!(valid(&path_str));
}

/// Tests that a non-existent file path with an existing parent returns true.
#[test]
fn test_validate_path_non_existent_file_with_parent() {
    let temp_dir = tempfile::tempdir().expect("failed to create temp dir");
    let future_file = temp_dir.path().join("future.sav");
    let path_str = future_file.to_string_lossy().to_string();
    assert!(valid(&path_str));
}

/// Tests that a non-existent directory path returns false.
#[test]
fn test_validate_path_non_existent_dir_with_parent() {
    let temp_dir = tempfile::tempdir().expect("failed to create temp dir");
    let future_dir = temp_dir.path().join("future_dir");
    // No extension, should be treated as directory
    let path_str = future_dir.to_string_lossy().to_string();
    assert!(!valid(&path_str));
}

/// Tests that a valid file path returns true.
#[test]
fn test_validate_path_valid_file() {
    let temp_dir = tempfile::tempdir().expect("failed to create temp dir");
    let file = tempfile::Builder::new().suffix(".sav").tempfile_in(temp_dir.path()).unwrap();
    let path_str = file.path().to_string_lossy().to_string();
    assert!(valid(&path_str));
}

/// What is known of the path decides, whatever is on disk.
#[test]
fn is_valid_path_cases() {
    assert!(is_valid_path("anything", true, false));
    assert!(is_valid_path("dir/file.sav", false, true));
    assert!(!is_valid_path("dir/file.sav", false, false));
    assert!(!is_valid_path("dir/file", false, true));
    assert!(!is_valid_path("", false, true));
}

/// Tests that the config path mirrors the executable name.
#[test]
fn test_config_path_for_exe_mirrors_name() {
    let exe_path = PathBuf::from("C:/Apps/ITD ODD Save Manager.exe");
    let expected =
        exe_path.parent().expect("missing parent").join("ITD ODD Save Manager.config.json");

    let resolved = config_path_for_exe(exe_path.to_str().unwrap());

    assert_eq!(PathBuf::from(resolved), expected);
}

/// An executable path without a file name or without a parent falls back.
#[test]
fn config_path_for_exe_fallbacks() {
    assert_eq!(PathBuf::from(config_path_for_exe("")), Path::new(".").join("config.json"));
    assert_eq!(PathBuf::from(config_path_for_exe("tool")), Path::new("").join("tool.config.json"));
    assert_eq!(
        PathBuf::from(config_path_for_exe("/opt/app/tool.bin")),
        Path::new("/opt/app").join("tool.config.json")
    );
}

/// The settings are copied field by field.
#[test]
fn app_config_clone() {
    let config = AppConfig {
        save_path: Some("C:\\Test".to_string()),
        auto_launch_game: true,
        auto_close: true,
        max_backups_per_game: 50,
    };
    let copy = config.clone();
    assert_eq!(copy.save_path, Some("C:\\Test".to_string()));
    assert!(copy.auto_launch_game);
    assert!(copy.auto_close);
    assert_eq!(copy.max_backups_per_game, 50);
}

/// A snapshot path passes where its canonical form lies under `.backups`.
#[test]
fn verify_backup_path_cases() {
    assert_eq!(
        verify_backup_path(
            Some("/saves/.backups/Game 1 - 2024-01-01".to_string()),
            Some("/saves/.backups".to_string())
        ),
        Ok("/saves/.backups/Game 1 - 2024-01-01".to_string())
    );
    assert_eq!(
        verify_backup_path(
            Some("/saves/malicious.exe".to_string()),
            Some("/saves/.backups".to_string())
        ),
        Err("Security violation: Path is outside the backup directory".to_string())
    );
    assert_eq!(
        verify_backup_path(
            Some("/saves/.backups-other/x".to_string()),
            Some("/saves/.backups".to_string())
        ),
        Err("Security violation: Path is outside the backup directory".to_string())
    );
    assert_eq!(
        verify_backup_path(None, Some("/saves/.backups".to_string())),
        Err("Invalid backup path".to_string())
    );
    assert_eq!(
        verify_backup_path(Some("/saves/.backups/x".to_string()), None),
        Err("Backup directory not found".to_string())
    );
    assert_eq!(verify_backup_path(None, None), Err("Invalid backup path".to_string()));
}

/// The settings file is named after the executable's file stem.
#[test]
fn config_file_name_and_directory() {
    assert_eq!(
        config_file_name(Some("ITD ODD Save Manager".to_string())),
        "ITD ODD Save Manager.config.json"
    );
    assert_eq!(config_file_name(Some(String::new())), ".config.json");
    assert_eq!(config_file_name(None), "config.json");
    assert_eq!(config_directory(Some("C:/Apps".to_string())), "C:/Apps");
    assert_eq!(config_directory(None), ".");
}

/// A path is acceptable where it exists, or has an extension and a parent
/// that exists.
#[test]
fn is_acceptable_path_cases() {
    assert!(is_acceptable_path(true, false, false, false));
    assert!(is_acceptable_path(false, true, true, true));
    assert!(!is_acceptable_path(false, false, true, true));
    assert!(!is_acceptable_path(false, true, false, true));
    assert!(!is_acceptable_path(false, true, true, false));
}

/// Under `.backups` the path passes, elsewhere it is refused.
#[test]
fn check_backup_path_cases() {
    assert_eq!(
        check_backup_path("/s/.backups/x".to_string(), true),
        Ok("/s/.backups/x".to_string())
    );
    assert_eq!(
        check_backup_path("/s/x".to_string(), false),
        Err("Security violation: Path is outside the backup directory".to_string())
    );
}
