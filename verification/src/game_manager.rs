//! Telling the game's process from others.

use vstd::prelude::*;
use crate::text::chars_of;
use crate::text::contains_chars;
use crate::text::lowered;
use crate::text::lowered_chars;
use crate::text::occurs_in;

verus! {

/// The part of a process name that gives the game away, in lowercase.
pub const PROCESS_NAME_PART: &'static str = "intothedead";

/// Whether a process of this name is taken for the game: its name holds
/// `intothedead`, in capital or small letters.
pub open spec fn names_game(name: Seq<char>) -> bool {
    occurs_in(lowered(name), PROCESS_NAME_PART@)
}

/// Tells whether a process of this name is taken for the game.
pub fn is_game_process(name: &str) -> (r: bool)
    ensures
        r == names_game(name@),
{
    let lowered = lowered_chars(name);
    let part = chars_of(PROCESS_NAME_PART);
    contains_chars(&lowered, &part)
}

/// What the process monitor does after one look at the processes.
#[derive(Clone, Copy, Debug, PartialEq, Eq, Structural)]
pub struct MonitorStep {
    /// Whether the game counts as running from now on.
    pub game_was_running: bool,
    /// Whether the application exits now.
    pub exit: bool,
    /// How many seconds to wait before the next look.
    pub poll_seconds: u64,
}

/// The step of the process monitor. The game counts as running while a
/// process of it is seen. When it is no longer seen after having run, it has
/// exited, and with `auto_close` the application exits too. The monitor looks
/// every 5 seconds with `auto_close`, every 30 without.
pub open spec fn monitored(
    game_was_running: bool,
    game_running: bool,
    auto_close: bool,
) -> MonitorStep {
    MonitorStep {
        game_was_running: game_running,
        exit: !game_running && game_was_running && auto_close,
        poll_seconds: if auto_close {
            5
        } else {
            30
        },
    }
}

/// Decides the next step of the process monitor from what it remembers and
/// what it has just seen.
pub fn monitor_step(
    game_was_running: bool,
    game_running: bool,
    auto_close: bool,
) -> (r: MonitorStep)
    ensures
        r == monitored(game_was_running, game_running, auto_close),
{
    let poll_seconds: u64 = if auto_close {
        5
    } else {
        30
    };
    if game_running {
        MonitorStep { game_was_running: true, exit: false, poll_seconds }
    } else if game_was_running {
        MonitorStep { game_was_running: false, exit: auto_close, poll_seconds }
    } else {
        MonitorStep { game_was_running: false, exit: false, poll_seconds }
    }
}

} // verus!
