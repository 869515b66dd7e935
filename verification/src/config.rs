//! Fixed layout policy: decoration metrics, panel bands, workspace count and
//! the screen description every geometry computation is relative to.

use vstd::prelude::*;

verus! {

/// Width of the decoration border around a non-maximized client.
pub const BORDER_WIDTH: u16 = 5;

/// Height of the titlebar drawn above a non-maximized client.
pub const TITLEBAR_HEIGHT: u16 = 25;

/// Height of the panel band at the top of the screen.
pub const TOP_PANEL_HEIGHT: u16 = 28;

/// Height of the panel band at the bottom of the screen.
pub const BOTTOM_PANEL_HEIGHT: u16 = 30;

/// Side length of the square icon shown in titlebars and the tasklist panel.
pub const ICON_SIZE: u16 = 16;

/// Number of fixed workspaces.
pub const WORKSPACE_COUNT: usize = 9;

/// Placeholder content width for a window that starts out maximized
/// (its true size is unknown at creation).
pub const DEFAULT_MAXIMIZED_WIDTH: u16 = 1000;

/// Placeholder content height for a window that starts out maximized.
pub const DEFAULT_MAXIMIZED_HEIGHT: u16 = 800;

/// Largest content width whose container width still fits in `u16`.
pub const MAX_CLIENT_WIDTH: u16 = 65535 - 2 * BORDER_WIDTH;

/// Largest content height whose container height still fits in `u16`.
pub const MAX_CLIENT_HEIGHT: u16 = 65535 - 2 * BORDER_WIDTH - TITLEBAR_HEIGHT;

/// Smallest content x whose container x still fits in `i16`.
pub const MIN_CLIENT_X: i16 = -32768 + BORDER_WIDTH as i16;

/// Smallest content y whose container y still fits in `i16`.
pub const MIN_CLIENT_Y: i16 = -32768 + BORDER_WIDTH as i16 + TITLEBAR_HEIGHT as i16;

/// The dimensions of the managed screen.
#[derive(Clone, Copy, PartialEq, Eq, Structural, Debug)]
pub struct ScreenInfo {
    pub width: u16,
    pub height: u16,
}

impl ScreenInfo {
    /// The screen fits the protocol's signed coordinate space and leaves at
    /// least one usable row between the two panel bands.
    pub open spec fn wf(self) -> bool {
        &&& 0 < self.width <= 32767
        &&& TOP_PANEL_HEIGHT + BOTTOM_PANEL_HEIGHT < self.height <= 32767
    }

    /// Height of the usable band between the two panels: what a maximized
    /// container fills.
    pub open spec fn usable_height_spec(self) -> int {
        self.height - TOP_PANEL_HEIGHT - BOTTOM_PANEL_HEIGHT
    }

    pub fn usable_height(self) -> (r: u16)
        requires
            self.wf(),
        ensures
            r == self.usable_height_spec(),
    {
        self.height - TOP_PANEL_HEIGHT - BOTTOM_PANEL_HEIGHT
    }
}

} // verus!
