use save_manager::game_manager::is_game_process;
use save_manager::save_paths::is_steam_cloud_parts;
use save_manager::save_paths::is_steam_cloud_path;
use save_manager::tray::MouseButton;
use save_manager::tray::TrayIconEvent;
use save_manager::tray::should_show_main_window_from_tray_event;
use save_manager::tray::tray_tooltip_text;

/// Tests that process matching is case-insensitive.
#[test]
fn test_is_game_process_case_insensitive() {
    assert!(is_game_process("IntoTheDead.exe"));
    assert!(is_game_process("intothedead"));
}

/// Tests that unrelated processes are rejected.
#[test]
fn test_is_game_process_rejects_unrelated() {
    assert!(!is_game_process("notepad.exe"));
}

/// The name part may stand anywhere, in any mix of capital and small letters.
#[test]
fn is_game_process_anywhere() {
    assert!(is_game_process("My-INTOTHEDEAD-launcher"));
    assert!(is_game_process("xxintotheDEADxx.exe"));
    assert!(!is_game_process("intothedea"));
    assert!(!is_game_process("into the dead"));
    assert!(!is_game_process(""));
    assert!(!is_game_process("ıntothedead"));
}

/// Tests the `is_steam_cloud_path` heuristic with various path combinations,
/// including case sensitivity.
#[test]
fn test_is_steam_cloud_path() {
    let cloud_path = "C:/Program Files (x86)/Steam/userdata/12345/2239710/remote";
    let local_path = "C:/Games/IntoTheDead/Saves";
    let partial_path = "C:/Steam/userdata/12345/999999/remote";
    let mixed_case_path = "C:/Steam/UserDATA/12345/2239710/remote";

    assert!(is_steam_cloud_path(cloud_path));
    assert!(!is_steam_cloud_path(local_path));
    assert!(!is_steam_cloud_path(partial_path));
    assert!(is_steam_cloud_path(mixed_case_path));
}

/// Whole components count, not parts of them.
#[test]
fn is_steam_cloud_path_whole_components() {
    assert!(!is_steam_cloud_path("C:/Steam/userdata/12345/22397100/remote"));
    assert!(!is_steam_cloud_path("C:/Steam/userdata2/12345/2239710/remote"));
    assert!(!is_steam_cloud_path("C:/Steam/2239710/remote"));
    assert!(is_steam_cloud_path("2239710/USERDATA"));
    assert!(!is_steam_cloud_path(""));
}

fn make_click_event(button: MouseButton) -> TrayIconEvent {
    TrayIconEvent::Click { button }
}

fn make_double_click_event(button: MouseButton) -> TrayIconEvent {
    TrayIconEvent::DoubleClick { button }
}

/// Verifies that a left click triggers the main window.
#[test]
fn tray_tray_left_click_shows_main_window() {
    let event = make_click_event(MouseButton::Left);
    assert!(should_show_main_window_from_tray_event(&event));
}

/// Verifies that a right click does not trigger the main window.
#[test]
fn tray_tray_right_click_does_not_show_main_window() {
    let event = make_click_event(MouseButton::Right);
    assert!(!should_show_main_window_from_tray_event(&event));
}

/// Verifies that a left double click triggers the main window.
#[test]
fn tray_tray_left_double_click_shows_main_window() {
    let event = make_double_click_event(MouseButton::Left);
    assert!(should_show_main_window_from_tray_event(&event));
}

/// Verifies that a right double click does not trigger the main window.
#[test]
fn tray_tray_right_double_click_does_not_show_main_window() {
    let event = make_double_click_event(MouseButton::Right);
    assert!(!should_show_main_window_from_tray_event(&event));
}

/// Verifies that a left click triggers the main window.
#[test]
fn lib_tray_left_click_shows_main_window() {
    let event = make_click_event(MouseButton::Left);
    assert!(should_show_main_window_from_tray_event(&event));
}

/// Verifies that a right click does not trigger the main window.
#[test]
fn lib_tray_right_click_does_not_show_main_window() {
    let event = make_click_event(MouseButton::Right);
    assert!(!should_show_main_window_from_tray_event(&event));
}

/// Verifies that a left double click triggers the main window.
#[test]
fn lib_tray_left_double_click_shows_main_window() {
    let event = make_double_click_event(MouseButton::Left);
    assert!(should_show_main_window_from_tray_event(&event));
}

/// Verifies that a right double click does not trigger the main window.
#[test]
fn lib_tray_right_double_click_does_not_show_main_window() {
    let event = make_double_click_event(MouseButton::Right);
    assert!(!should_show_main_window_from_tray_event(&event));
}

/// Other events at the tray icon show nothing.
#[test]
fn tray_other_events_show_nothing() {
    assert!(!should_show_main_window_from_tray_event(&make_click_event(MouseButton::Middle)));
    assert!(!should_show_main_window_from_tray_event(&TrayIconEvent::Enter));
    assert!(!should_show_main_window_from_tray_event(&TrayIconEvent::Move));
    assert!(!should_show_main_window_from_tray_event(&TrayIconEvent::Leave));
}

/// Verifies that the tray tooltip prefers the configured product name.
#[test]
fn tray_tooltip_uses_product_name_when_available() {
    let tooltip = tray_tooltip_text(Some("Configured Name"));
    assert_eq!(tooltip, "Configured Name");
}

/// Verifies that the tray tooltip falls back to the default name.
#[test]
fn tray_tooltip_falls_back_to_default_name() {
    let tooltip = tray_tooltip_text(None);
    assert_eq!(tooltip, "ITD ODD Save Manager");
}

/// The components decide, whatever path they came from.
#[test]
fn is_steam_cloud_parts_cases() {
    let parts = |list: &[&str]| -> Vec<String> { list.iter().map(|p| p.to_string()).collect() };
    assert!(is_steam_cloud_parts(&parts(&["C:", "Steam", "userdata", "1", "2239710", "remote"])));
    assert!(is_steam_cloud_parts(&parts(&["2239710", "UserData"])));
    assert!(!is_steam_cloud_parts(&parts(&["userdata"])));
    assert!(!is_steam_cloud_parts(&parts(&["2239710"])));
    assert!(!is_steam_cloud_parts(&parts(&["userdata", "22397100"])));
    assert!(!is_steam_cloud_parts(&parts(&["user data", "2239710"])));
    assert!(!is_steam_cloud_parts(&parts(&[])));
}
