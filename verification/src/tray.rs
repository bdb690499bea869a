//! The text of the tray icon.

use vstd::prelude::*;

verus! {

/// The tooltip of the tray icon: the configured product name, or the
/// application's own name where none is configured.
pub fn tray_tooltip_text(product_name: Option<&str>) -> (r: String)
    ensures
        r@ == match product_name {
            Some(name) => name@,
            None => "ITD ODD Save Manager"@,
        },
{
    match product_name {
        Some(name) => String::from_str(name),
        None => String::from_str("ITD ODD Save Manager"),
    }
}

/// A button of the mouse.
#[derive(Clone, Copy, Debug, PartialEq, Eq, Structural)]
pub enum MouseButton {
    Left,
    Right,
    Middle,
}

/// What happened at the tray icon.
#[derive(Clone, Copy, Debug, PartialEq, Eq, Structural)]
pub enum TrayIconEvent {
    /// A click with `button`.
    Click { button: MouseButton },
    /// A double click with `button`.
    DoubleClick { button: MouseButton },
    /// The pointer came over the icon.
    Enter,
    /// The pointer moved over the icon.
    Move,
    /// The pointer left the icon.
    Leave,
}

/// Whether an event at the tray icon brings up the main window: a click or
/// a double click with the left button does, nothing else.
pub open spec fn shows_main_window(event: TrayIconEvent) -> bool {
    match event {
        TrayIconEvent::Click { button } => button == MouseButton::Left,
        TrayIconEvent::DoubleClick { button } => button == MouseButton::Left,
        _ => false,
    }
}

/// Decides whether an event at the tray icon brings up the main window.
pub fn should_show_main_window_from_tray_event(event: &TrayIconEvent) -> (r: bool)
    ensures
        r == shows_main_window(*event),
{
    match event {
        TrayIconEvent::Click { button } => matches!(button, MouseButton::Left),
        TrayIconEvent::DoubleClick { button } => matches!(button, MouseButton::Left),
        _ => false,
    }
}

} // verus!
