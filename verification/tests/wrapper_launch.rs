use save_manager::config::AppConfig;
use save_manager::config::bootstrap_config;
use save_manager::game_manager::MonitorStep;
use save_manager::game_manager::monitor_step;
use save_manager::save_paths::push_if_dir;
use save_manager::wrapper_launch::WrapperLaunchPlan;
use save_manager::wrapper_launch::is_executable_path;
use save_manager::wrapper_launch::parse_wrapper_args_os;

fn args(list: &[&str]) -> Vec<String> {
    list.iter().map(|a| a.to_string()).collect()
}

#[test]
fn parse_wrapper_args_os_returns_none_when_only_manager_path() {
    let args = args(&["C:\\Manager.exe"]);
    assert_eq!(parse_wrapper_args_os(&args, true), None);
    assert_eq!(parse_wrapper_args_os(&args, false), None);
}

#[test]
fn parse_wrapper_args_os_returns_program_when_no_additional_args() {
    let args = args(&["C:\\Manager.exe", "C:\\Game.exe"]);
    let expected = Some(WrapperLaunchPlan { program: "C:\\Game.exe".to_string(), args: vec![] });
    assert_eq!(parse_wrapper_args_os(&args, true), expected);
    assert_eq!(parse_wrapper_args_os(&args, false), expected);
}

#[test]
fn parse_wrapper_args_os_forwards_all_game_args() {
    let args = args(&["C:\\Manager.exe", "C:\\Game.exe", "-windowed", "-width", "1920"]);
    let expected = Some(WrapperLaunchPlan {
        program: "C:\\Game.exe".to_string(),
        args: vec!["-windowed".to_string(), "-width".to_string(), "1920".to_string()],
    });
    assert_eq!(parse_wrapper_args_os(&args, true), expected);
    assert_eq!(parse_wrapper_args_os(&args, false), expected);
}

#[test]
fn parse_wrapper_args_os_handles_empty_args() {
    let args: Vec<String> = vec![];
    assert_eq!(parse_wrapper_args_os(&args, true), None);
    assert_eq!(parse_wrapper_args_os(&args, false), None);
}

#[test]
fn parse_wrapper_args_os_rejects_non_executable_flag() {
    let args = args(&["C:\\Manager.exe", "--debug"]);
    assert_eq!(parse_wrapper_args_os(&args, true), None);
}

#[test]
fn parse_wrapper_args_os_accepts_uppercase_exe() {
    let args = args(&["C:\\Manager.exe", "C:\\Game.EXE"]);
    assert_eq!(
        parse_wrapper_args_os(&args, true),
        Some(WrapperLaunchPlan { program: "C:\\Game.EXE".to_string(), args: vec![] })
    );
}

#[test]
fn parse_wrapper_args_os_rejects_non_exe_extension() {
    let args = args(&["C:\\Manager.exe", "C:\\Game.txt"]);
    assert_eq!(parse_wrapper_args_os(&args, true), None);
}

/// Outside Windows any path that is not empty counts as an executable.
#[test]
fn is_executable_path_by_platform() {
    assert!(is_executable_path("game", false));
    assert!(is_executable_path("--debug", false));
    assert!(!is_executable_path("", false));
    assert!(is_executable_path("a.exe", true));
    assert!(is_executable_path(".ExE", true));
    assert!(!is_executable_path("exe", true));
    assert!(!is_executable_path("a.exe ", true));
    assert!(!is_executable_path("", true));
    assert_eq!(parse_wrapper_args_os(&args(&["m", ""]), false), None);
}

/// The monitor follows the game and ends the application only when the game
/// has exited and auto-close is on.
#[test]
fn monitor_steps() {
    assert_eq!(
        monitor_step(false, false, false),
        MonitorStep { game_was_running: false, exit: false, poll_seconds: 30 }
    );
    assert_eq!(
        monitor_step(false, true, true),
        MonitorStep { game_was_running: true, exit: false, poll_seconds: 5 }
    );
    assert_eq!(
        monitor_step(true, true, false),
        MonitorStep { game_was_running: true, exit: false, poll_seconds: 30 }
    );
    assert_eq!(
        monitor_step(true, false, true),
        MonitorStep { game_was_running: false, exit: true, poll_seconds: 5 }
    );
    assert_eq!(
        monitor_step(true, false, false),
        MonitorStep { game_was_running: false, exit: false, poll_seconds: 30 }
    );
    assert_eq!(
        monitor_step(false, false, true),
        MonitorStep { game_was_running: false, exit: false, poll_seconds: 5 }
    );
}

/// A detected save path is taken only where none is set.
#[test]
fn bootstrap_config_takes_detected_path() {
    let (config, changed) = bootstrap_config(AppConfig::default(), Some("C:\\Saves".to_string()));
    assert!(changed);
    assert_eq!(config.save_path, Some("C:\\Saves".to_string()));
    assert_eq!(config.max_backups_per_game, 100);

    let custom = AppConfig {
        save_path: Some("C:\\Custom\\Path".to_string()),
        auto_launch_game: true,
        auto_close: false,
        max_backups_per_game: 7,
    };
    let (config, changed) = bootstrap_config(custom, Some("C:\\Saves".to_string()));
    assert!(!changed);
    assert_eq!(config.save_path, Some("C:\\Custom\\Path".to_string()));
    assert!(config.auto_launch_game);
    assert_eq!(config.max_backups_per_game, 7);

    let (config, changed) = bootstrap_config(AppConfig::default(), None);
    assert!(!changed);
    assert_eq!(config.save_path, None);
}

/// Only directories are added.
#[test]
fn push_if_dir_adds_directories() {
    let mut paths = vec!["a".to_string()];
    push_if_dir(&mut paths, "b".to_string(), false);
    assert_eq!(paths, vec!["a".to_string()]);
    push_if_dir(&mut paths, "c".to_string(), true);
    assert_eq!(paths, vec!["a".to_string(), "c".to_string()]);
}
