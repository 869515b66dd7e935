//! The hotkey table for user-configured helper programs: which shell
//! command, if any, a key press launches.  Spawning itself is the host's
//! business.

use vstd::prelude::*;

use crate::command::Keycode;

verus! {

/// Dispatches hotkeys to user-configured helper programs.
pub struct Spawner;

/// The shell command the given key launches, if any.
pub open spec fn spawn_command_spec(keycode: Keycode) -> Option<Seq<char>> {
    match keycode {
        Keycode::PrintScreen => Some(
            "maim --hidecursor | xclip -selection clipboard -t image/png"@,
        ),
        Keycode::S => Some(
            "maim --select --highlight --color=255,255,255,0.05 --hidecursor | xclip -selection clipboard -t image/png"@,
        ),
        Keycode::T => Some("xfce4-terminal &"@),
        Keycode::D => Some("thunar &"@),
        Keycode::G => Some("xfce4-taskmanager &"@),
        Keycode::B => Some("firefox &"@),
        Keycode::Q => Some("copyq show &"@),
        Keycode::R => Some("rofi -show drun &"@),
        _ => None,
    }
}

impl Spawner {
    pub fn new() -> (r: Spawner)
        ensures
            true,
    {
        Spawner
    }

    /// The shell command to launch for the given key, or nothing.
    pub fn command_for(&self, keycode: Keycode) -> (r: Option<&'static str>)
        ensures
            match r {
                Some(s) => spawn_command_spec(keycode) == Some(s@),
                None => spawn_command_spec(keycode) is None,
            },
    {
        match keycode {
            Keycode::PrintScreen => Some(
                "maim --hidecursor | xclip -selection clipboard -t image/png",
            ),
            Keycode::S => Some(
                "maim --select --highlight --color=255,255,255,0.05 --hidecursor | xclip -selection clipboard -t image/png",
            ),
            Keycode::T => Some("xfce4-terminal &"),
            Keycode::D => Some("thunar &"),
            Keycode::G => Some("xfce4-taskmanager &"),
            Keycode::B => Some("firefox &"),
            Keycode::Q => Some("copyq show &"),
            Keycode::R => Some("rofi -show drun &"),
            _ => None,
        }
    }
}

} // verus!
