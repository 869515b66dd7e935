//! The core's outward-facing vocabulary: the typed input events it consumes
//! and the imperative commands it asks the host to issue to the display
//! server and the panels.

use vstd::prelude::*;

verus! {

/// A logical key, resolved by the host from a physical keycode.
#[derive(Clone, Copy, PartialEq, Eq, Structural, Debug)]
pub enum Keycode {
    Escape,
    J,
    K,
    Number1,
    Number2,
    Number3,
    Number4,
    Number5,
    Number6,
    Number7,
    Number8,
    Number9,
    Left,
    Right,
    X,
    M,
    PrintScreen,
    S,
    T,
    D,
    G,
    B,
    Q,
    R,
}

/// A pointer button, resolved by the host from the protocol's button index.
#[derive(Clone, Copy, PartialEq, Eq, Structural, Debug)]
pub enum MouseButton {
    /// The primary (left) button.
    Primary,
    /// The secondary (right) button.
    Secondary,
    /// Any other button.
    Other,
}

/// One imperative command for the host to carry out.  Commands are returned
/// in the exact order the host must issue them.
#[derive(Clone, Copy, PartialEq, Eq, Structural, Debug)]
pub enum Command {
    /// Map (show) the given window.
    MapWindow(u32),
    /// Unmap (hide) the given window.
    UnmapWindow(u32),
    /// Set input focus to the given window, or to the root if `None`.
    SetFocus(Option<u32>),
    /// Raise the given window to the top of the server's stacking order.
    RaiseWindow(u32),
    /// Raise the top panel window.
    RaiseTopPanel,
    /// Raise the bottom panel window.
    RaiseBottomPanel,
    /// Mark the top panel dirty.
    NotifyTopPanel,
    /// Mark the bottom panel dirty.
    NotifyBottomPanel,
    /// Set a window's x coordinate.
    SetWindowX(u32, i16),
    /// Set a window's y coordinate.
    SetWindowY(u32, i16),
    /// Set a window's width.
    SetWindowWidth(u32, u16),
    /// Set a window's height.
    SetWindowHeight(u32, u16),
    /// Warp the pointer to the given root coordinates.
    MovePointer(u16, u16),
    /// Replay the pointer event that was withheld by a synchronous grab.
    ReplayPointer,
    /// Send the protocol-level close request to the given window.
    AskWindowToClose(u32),
    /// Grab the move/resize button combinations on a client's container.
    GrabContainerButtons(u32),
    /// Release the move/resize button grabs on a client's container.
    UngrabContainerButtons(u32),
    /// Create the decoration container window with the given geometry.
    CreateContainer { container_id: u32, x: i16, y: i16, width: u16, height: u16 },
    /// Grab the synchronous click-to-raise buttons on a client's content window.
    GrabContentButtons(u32),
    /// Subscribe to property changes on a client's content window.
    WatchProperties(u32),
    /// Set a window's border width.
    SetWindowBorderWidth(u32, u16),
    /// Publish the window-manager state property on a client's content window.
    PutWmState(u32),
    /// Add the given window to the server's save-set.
    AddToSaveSet(u32),
    /// Remove the given window from the server's save-set.
    RemoveFromSaveSet(u32),
    /// Reparent a content window into its container at the given offset.
    ReparentWindow { window: u32, container_id: u32, offset_x: i16, offset_y: i16 },
    /// Reparent a content window back to the root at the given position.
    ReparentToRoot { window: u32, x: i16, y: i16 },
    /// Destroy the given window (only ever a container the core owns).
    DestroyWindow(u32),
    /// Resize the decoration drawing surface of the given container.
    ResizeDecoration { container_id: u32, width: u16, height: u16 },
    /// Forward the pending configure request of an unmanaged window verbatim.
    ForwardConfigureRequest,
    /// Durably save the session snapshot, then replace the process image.
    SaveAndRestart,
}

} // verus!
