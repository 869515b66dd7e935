//! The window manager: nine workspaces, the active-workspace pointer and the
//! ephemeral drag state.  Every handler mutates this state and returns, in
//! order, the commands the host must issue to the display server and the
//! panels.

use vstd::prelude::*;

use crate::client::opt_icon_view;
use crate::client::opt_string_view;
use crate::client::Client;
use crate::client::ClientView;
use crate::command::Command;
use crate::command::Keycode;
use crate::command::MouseButton;
use crate::config::ScreenInfo;
use crate::config::BORDER_WIDTH;
use crate::config::MAX_CLIENT_HEIGHT;
use crate::config::MAX_CLIENT_WIDTH;
use crate::config::MIN_CLIENT_X;
use crate::config::MIN_CLIENT_Y;
use crate::config::TITLEBAR_HEIGHT;
use crate::config::DEFAULT_MAXIMIZED_HEIGHT;
use crate::config::DEFAULT_MAXIMIZED_WIDTH;
use crate::config::TOP_PANEL_HEIGHT;
use crate::config::WORKSPACE_COUNT;
use crate::icon::Icon;
use crate::icon::IconView;
use crate::session::SavedClient;
use crate::session::SavedState;
use crate::session::SavedWorkspace;
use crate::util::cycle_next;
use crate::util::cycle_next_spec;
use crate::util::cycle_previous;
use crate::util::cycle_previous_spec;
use crate::workspace::lemma_stack_same_ids;
use crate::workspace::marked_dirty;
use crate::workspace::stack_has_id;
use crate::workspace::stack_ids_distinct;
use crate::workspace::stack_index_of_id;
use crate::workspace::tasklist_index_of;
use crate::workspace::Workspace;
use crate::workspace::WorkspaceView;

verus! {

/// Which interaction an in-progress drag performs.
#[derive(Clone, Copy, PartialEq, Eq, Structural, Debug)]
pub enum DragKind {
    Move,
    Resize,
}

/// An in-progress drag: its kind and the last recorded pointer position.
/// Deltas accumulate incrementally from this anchor, which follows the
/// pointer.
#[derive(Clone, Copy, PartialEq, Eq, Structural, Debug)]
pub struct DragState {
    pub kind: DragKind,
    pub x: u16,
    pub y: u16,
}

/// The window manager state.
pub struct Wm {
    /// The nine fixed workspaces.
    pub workspaces: Vec<Workspace>,
    /// Which workspace is shown.
    pub active_workspace_index: usize,
    /// The in-progress drag, if any.
    pub drag_state: Option<DragState>,
    /// The managed screen.
    pub screen: ScreenInfo,
}

/// The mathematical value of a [`Wm`].
pub struct WmView {
    pub workspaces: Seq<WorkspaceView>,
    pub active_workspace_index: int,
    pub drag_state: Option<DragState>,
    pub screen: ScreenInfo,
}

impl View for Wm {
    type V = WmView;

    open spec fn view(&self) -> WmView {
        WmView {
            workspaces: Seq::new(self.workspaces@.len(), |i: int| self.workspaces@[i]@),
            active_workspace_index: self.active_workspace_index as int,
            drag_state: self.drag_state,
            screen: self.screen,
        }
    }
}

/// No client id is present in two different workspaces.
pub open spec fn workspaces_disjoint(ws: Seq<WorkspaceView>) -> bool {
    forall|a: int, b: int, id: u32|
        0 <= a < ws.len() && 0 <= b < ws.len() && a != b && #[trigger] stack_has_id(
            ws[a].stack,
            id,
        ) ==> !(#[trigger] stack_has_id(ws[b].stack, id))
}

impl WmView {
    /// Nine well-formed workspaces with globally unique client ids, a valid
    /// active index, a well-formed screen, and a drag anchor within the
    /// signed coordinate range.
    pub open spec fn wf(self) -> bool {
        &&& self.workspaces.len() == WORKSPACE_COUNT
        &&& 0 <= self.active_workspace_index < WORKSPACE_COUNT
        &&& self.screen.wf()
        &&& forall|w: int|
            0 <= w < self.workspaces.len() ==> (#[trigger] self.workspaces[w]).wf()
        &&& workspaces_disjoint(self.workspaces)
        &&& match self.drag_state {
            Some(ds) => ds.x <= 32767 && ds.y <= 32767,
            None => true,
        }
    }

    /// The active workspace.
    pub open spec fn active(self) -> WorkspaceView {
        self.workspaces[self.active_workspace_index]
    }

    /// The same state with the active workspace replaced.
    pub open spec fn with_active(self, w: WorkspaceView) -> WmView {
        WmView { workspaces: self.workspaces.update(self.active_workspace_index, w), ..self }
    }

    /// Some workspace holds a client with the given id.
    pub open spec fn managed_anywhere(self, id: u32) -> bool {
        exists|w: int|
            0 <= w < self.workspaces.len() && stack_has_id(
                (#[trigger] self.workspaces[w]).stack,
                id,
            )
    }
}

proof fn lemma_disjoint_after_update(
    ws: Seq<WorkspaceView>,
    k: int,
    nw: WorkspaceView,
    extra: u32,
)
    requires
        workspaces_disjoint(ws),
        0 <= k < ws.len(),
        forall|y: u32| #[trigger]
            stack_has_id(nw.stack, y) ==> stack_has_id(ws[k].stack, y) || y == extra,
        forall|b: int|
            0 <= b < ws.len() && b != k ==> !stack_has_id((#[trigger] ws[b]).stack, extra),
    ensures
        workspaces_disjoint(ws.update(k, nw)),
{
    let newws = ws.update(k, nw);
    assert forall|a: int, b: int, id: u32|
        0 <= a < newws.len() && 0 <= b < newws.len() && a != b && #[trigger] stack_has_id(
            newws[a].stack,
            id,
        ) implies !(#[trigger] stack_has_id(newws[b].stack, id)) by {
        if a == k {
            assert(stack_has_id(ws[k].stack, id) || id == extra);
            if stack_has_id(newws[b].stack, id) {
                assert(stack_has_id(ws[b].stack, id));
            }
        } else if b == k {
            assert(stack_has_id(ws[a].stack, id));
            if stack_has_id(newws[b].stack, id) {
                assert(stack_has_id(ws[k].stack, id) || id == extra);
            }
        } else {
            assert(stack_has_id(ws[a].stack, id));
            if stack_has_id(newws[b].stack, id) {
                assert(stack_has_id(ws[b].stack, id));
            }
        }
    }
}

proof fn lemma_disjoint_after_permute(ws: Seq<WorkspaceView>, k: int, nw: WorkspaceView)
    requires
        workspaces_disjoint(ws),
        0 <= k < ws.len(),
        forall|y: u32| #[trigger] stack_has_id(nw.stack, y) ==> stack_has_id(ws[k].stack, y),
    ensures
        workspaces_disjoint(ws.update(k, nw)),
{
    let newws = ws.update(k, nw);
    assert forall|a: int, b: int, id: u32|
        0 <= a < newws.len() && 0 <= b < newws.len() && a != b && #[trigger] stack_has_id(
            newws[a].stack,
            id,
        ) implies !(#[trigger] stack_has_id(newws[b].stack, id)) by {
        if a == k {
            assert(stack_has_id(ws[k].stack, id));
            if stack_has_id(newws[b].stack, id) {
                assert(stack_has_id(ws[b].stack, id));
            }
        } else if b == k {
            assert(stack_has_id(ws[a].stack, id));
            if stack_has_id(newws[b].stack, id) {
                assert(stack_has_id(ws[k].stack, id));
            }
        } else {
            assert(stack_has_id(ws[a].stack, id));
            if stack_has_id(newws[b].stack, id) {
                assert(stack_has_id(ws[b].stack, id));
            }
        }
    }
}

/// Every client of the stack, marked dirty.
pub open spec fn all_dirty(stack: Seq<ClientView>) -> Seq<ClientView> {
    Seq::new(stack.len(), |i: int| marked_dirty(stack[i]))
}

/// The state after switching to workspace `index`: every client of the
/// target workspace is marked dirty and the pointer moves; switching to the
/// already-active workspace changes nothing.
pub open spec fn change_workspace_state(v: WmView, index: int) -> WmView {
    if index == v.active_workspace_index {
        v
    } else {
        WmView {
            workspaces: v.workspaces.update(
                index,
                WorkspaceView {
                    stack: all_dirty(v.workspaces[index].stack),
                    tasklist: v.workspaces[index].tasklist,
                },
            ),
            active_workspace_index: index,
            ..v
        }
    }
}

/// The commands a workspace switch issues: map the target's containers in
/// reverse stack order so the top ends topmost, focus the target's topmost
/// client, unmap the previous workspace's containers, and repaint both
/// panels.
pub open spec fn change_workspace_cmds(v: WmView, index: int) -> Seq<Command> {
    if index == v.active_workspace_index {
        Seq::empty()
    } else {
        let target = v.workspaces[index].stack;
        let current = v.active().stack;
        Seq::new(
            target.len(),
            |i: int| Command::MapWindow(target[target.len() - 1 - i].container_id),
        ) + seq![Command::SetFocus(v.workspaces[index].focused())] + Seq::new(
            current.len(),
            |i: int| Command::UnmapWindow(current[i].container_id),
        ) + seq![Command::NotifyTopPanel, Command::NotifyBottomPanel]
    }
}

/// The source workspace after its focused client is popped: the uncovered
/// client (if any) is marked dirty and the mover leaves the tasklist.
pub open spec fn source_after_move(a: WorkspaceView) -> WorkspaceView {
    let c = a.stack.last();
    let popped = a.stack.drop_last();
    WorkspaceView {
        stack: if popped.len() > 0 {
            popped.update(popped.len() - 1, marked_dirty(popped.last()))
        } else {
            popped
        },
        tasklist: a.tasklist.remove(tasklist_index_of(a.tasklist, c.id)),
    }
}

/// The state after the focused client moves to workspace `to`: popped from
/// the active workspace, appended to both orders of the destination.  An
/// empty active workspace changes nothing.
pub open spec fn move_active_state(v: WmView, to: int) -> WmView {
    let a = v.active();
    if a.stack.len() == 0 {
        v
    } else {
        let c = a.stack.last();
        let mid = v.workspaces.update(v.active_workspace_index, source_after_move(a));
        let dest = mid[to];
        WmView {
            workspaces: mid.update(
                to,
                WorkspaceView { stack: dest.stack.push(c), tasklist: dest.tasklist.push(c.id) },
            ),
            ..v
        }
    }
}

/// The commands a cross-workspace move issues: hide the mover, keep it and
/// the panels stacked for its return, refocus the uncovered client, and
/// repaint both panels.
pub open spec fn move_active_cmds(v: WmView) -> Seq<Command> {
    let a = v.active();
    if a.stack.len() == 0 {
        Seq::empty()
    } else {
        let c = a.stack.last();
        seq![
            Command::UnmapWindow(c.container_id),
            Command::RaiseWindow(c.container_id),
            Command::RaiseTopPanel,
            Command::RaiseBottomPanel,
            Command::SetFocus(
                if a.stack.len() > 1 {
                    Some(a.stack[a.stack.len() - 2].id)
                } else {
                    None
                },
            ),
            Command::NotifyTopPanel,
            Command::NotifyBottomPanel,
        ]
    }
}

/// The state after the focused client swaps tasklist places with its cyclic
/// successor (`forward`) or predecessor: the stack does not change, and an
/// empty workspace changes nothing.
pub open spec fn move_in_tasklist_state(v: WmView, forward: bool) -> WmView {
    let a = v.active();
    if a.stack.len() == 0 {
        v
    } else {
        let i = tasklist_index_of(a.tasklist, a.stack.last().id);
        let j = if forward {
            cycle_next_spec(a.tasklist.len() as int, i)
        } else {
            cycle_previous_spec(a.tasklist.len() as int, i)
        };
        v.with_active(
            WorkspaceView {
                stack: a.stack,
                tasklist: a.tasklist.update(i, a.tasklist[j]).update(j, a.tasklist[i]),
            },
        )
    }
}

/// The commands a tasklist reorder issues: both panels repaint.
pub open spec fn move_in_tasklist_cmds(v: WmView) -> Seq<Command> {
    if v.active().stack.len() == 0 {
        Seq::empty()
    } else {
        seq![Command::NotifyTopPanel, Command::NotifyBottomPanel]
    }
}

/// The stack index of the focused client's cyclic neighbour in the
/// tasklist.
pub open spec fn adjacent_stack_index(v: WmView, forward: bool) -> int {
    let a = v.active();
    let i = tasklist_index_of(a.tasklist, a.stack.last().id);
    let j = if forward {
        cycle_next_spec(a.tasklist.len() as int, i)
    } else {
        cycle_previous_spec(a.tasklist.len() as int, i)
    };
    stack_index_of_id(a.stack, a.tasklist[j])
}

/// The state after raising the focused client's tasklist neighbour; an
/// empty workspace changes nothing.
pub open spec fn raise_adjacent_state(v: WmView, forward: bool) -> WmView {
    if v.active().stack.len() == 0 {
        v
    } else {
        raise_client_state(v, adjacent_stack_index(v, forward))
    }
}

/// The commands raising the focused client's tasklist neighbour issues.
pub open spec fn raise_adjacent_cmds(v: WmView, forward: bool) -> Seq<Command> {
    if v.active().stack.len() == 0 {
        Seq::empty()
    } else {
        raise_client_cmds(v, adjacent_stack_index(v, forward))
    }
}

/// The horizontal centring position: the screen width minus the content
/// width, halved, rounding toward zero.
pub open spec fn center_x(screen: ScreenInfo, w: u16) -> int {
    if screen.width >= w {
        (screen.width - w) / 2
    } else {
        -(((w - screen.width) / 2) as int)
    }
}

/// The vertical centring position within the band below the top panel.
pub open spec fn center_y(screen: ScreenInfo, h: u16) -> int {
    let sum = screen.height + TOP_PANEL_HEIGHT;
    if sum >= h {
        (sum - h) / 2
    } else {
        -(((h - sum) / 2) as int)
    }
}

/// The client a map request creates: a window whose queried width equals
/// the screen width is heuristically taken as wanting to be maximized and
/// gets a fixed placeholder content size; the window is centred on screen.
pub open spec fn map_request_client(
    v: WmView,
    id: u32,
    container_id: u32,
    geom_width: u16,
    geom_height: u16,
    class: Option<Seq<char>>,
    title: Option<Seq<char>>,
    icon: Option<IconView>,
) -> ClientView {
    let maximized = geom_width == v.screen.width;
    let w: u16 = if maximized {
        DEFAULT_MAXIMIZED_WIDTH
    } else {
        geom_width
    };
    let h: u16 = if maximized {
        DEFAULT_MAXIMIZED_HEIGHT
    } else {
        geom_height
    };
    ClientView {
        id,
        container_id,
        x: center_x(v.screen, w) as i16,
        y: center_y(v.screen, h) as i16,
        width: w,
        height: h,
        maximized,
        need_redraw: true,
        class,
        title,
        icon,
    }
}

/// The state after a map request: for an unmanaged window the new client is
/// pushed onto the active stack (focused, previous top marked dirty) and
/// enters the tasklist next to the previously focused client; a window that
/// is already managed anywhere changes nothing.
pub open spec fn map_request_state(
    v: WmView,
    id: u32,
    container_id: u32,
    geom_width: u16,
    geom_height: u16,
    class: Option<Seq<char>>,
    title: Option<Seq<char>>,
    icon: Option<IconView>,
) -> WmView {
    if v.managed_anywhere(id) {
        v
    } else {
        let c = map_request_client(
            v,
            id,
            container_id,
            geom_width,
            geom_height,
            class,
            title,
            icon,
        );
        let a = v.active();
        v.with_active(
            WorkspaceView {
                stack: (if a.stack.len() > 0 {
                    a.stack.update(a.stack.len() - 1, marked_dirty(a.stack.last()))
                } else {
                    a.stack
                }).push(c),
                tasklist: a.tasklist_after_insert(id),
            },
        )
    }
}

/// The commands a map request issues: none at all for an already-managed
/// window; otherwise fix a full-width window's height to the usable band if
/// it mismatches, set the client's windows up, show them, focus the new
/// client, and keep the panels above it.
pub open spec fn map_request_cmds(
    v: WmView,
    id: u32,
    container_id: u32,
    geom_width: u16,
    geom_height: u16,
    class: Option<Seq<char>>,
    title: Option<Seq<char>>,
    icon: Option<IconView>,
) -> Seq<Command> {
    if v.managed_anywhere(id) {
        Seq::empty()
    } else {
        let maximized = geom_width == v.screen.width;
        let c = map_request_client(
            v,
            id,
            container_id,
            geom_width,
            geom_height,
            class,
            title,
            icon,
        );
        (if maximized && geom_height != v.screen.usable_height_spec() {
            seq![Command::SetWindowHeight(id, v.screen.usable_height_spec() as u16)]
        } else {
            Seq::<Command>::empty()
        }) + crate::client::init_cmds(c, v.screen) + seq![
            Command::MapWindow(id),
            Command::MapWindow(container_id),
            Command::SetFocus(Some(id)),
            Command::RaiseTopPanel,
            Command::RaiseBottomPanel,
            Command::NotifyTopPanel,
            Command::NotifyBottomPanel,
        ]
    }
}

/// The workspace that owns the client with the given id.
pub open spec fn owner_of(v: WmView, id: u32) -> int {
    choose|w: int|
        0 <= w < v.workspaces.len() && stack_has_id((#[trigger] v.workspaces[w]).stack, id)
}

/// The state after a managed window disappeared: its client leaves both
/// orders of its workspace, and if that workspace is active the uncovered
/// client is marked dirty.  An unmanaged window changes nothing.
pub open spec fn unmap_state(v: WmView, id: u32) -> WmView {
    if !v.managed_anywhere(id) {
        v
    } else {
        let w = v.workspaces[owner_of(v, id)];
        let i = stack_index_of_id(w.stack, id);
        let removed = w.stack.remove(i);
        let after = WorkspaceView {
            stack: if owner_of(v, id) == v.active_workspace_index && removed.len() > 0 {
                removed.update(removed.len() - 1, marked_dirty(removed.last()))
            } else {
                removed
            },
            tasklist: w.tasklist.remove(tasklist_index_of(w.tasklist, id)),
        };
        WmView { workspaces: v.workspaces.update(owner_of(v, id), after), ..v }
    }
}

/// The commands an unmap issues: give the window back to the root, destroy
/// its container, repaint the top panel, and if the active workspace lost
/// it, refocus and repaint the bottom panel.
pub open spec fn unmap_cmds(v: WmView, id: u32) -> Seq<Command> {
    if !v.managed_anywhere(id) {
        Seq::empty()
    } else {
        let w = v.workspaces[owner_of(v, id)];
        let i = stack_index_of_id(w.stack, id);
        let removed = w.stack.remove(i);
        crate::client::release_cmds(w.stack[i]) + seq![Command::NotifyTopPanel] + (if owner_of(
            v,
            id,
        ) == v.active_workspace_index {
            seq![
                Command::SetFocus(
                    if removed.len() > 0 {
                        Some(removed.last().id)
                    } else {
                        None
                    },
                ),
                Command::NotifyBottomPanel,
            ]
        } else {
            Seq::<Command>::empty()
        })
    }
}

/// The state after the maximize toggle on the focused client; an empty
/// workspace changes nothing.
pub open spec fn toggle_maximize_state(v: WmView) -> WmView {
    let a = v.active();
    if a.stack.len() == 0 {
        v
    } else {
        let c = a.stack.last();
        v.with_active(
            WorkspaceView {
                stack: a.stack.update(a.stack.len() - 1, c.with_maximized(!c.maximized)),
                tasklist: a.tasklist,
            },
        )
    }
}

/// The commands the maximize toggle issues.
pub open spec fn toggle_maximize_cmds(v: WmView) -> Seq<Command> {
    let a = v.active();
    if a.stack.len() == 0 {
        Seq::empty()
    } else {
        let c = a.stack.last();
        crate::client::set_maximized_cmds(c.with_maximized(!c.maximized), v.screen)
    }
}

/// The commands the close key issues: the protocol-level close request to
/// the focused client, which is not force-destroyed.
pub open spec fn close_active_cmds(v: WmView) -> Seq<Command> {
    let a = v.active();
    if a.stack.len() == 0 {
        Seq::empty()
    } else {
        seq![Command::AskWindowToClose(a.stack.last().id)]
    }
}

/// Which workspace index an absolute workspace key selects.
pub open spec fn key_number(keycode: Keycode) -> Option<int> {
    match keycode {
        Keycode::Number1 => Some(0),
        Keycode::Number2 => Some(1),
        Keycode::Number3 => Some(2),
        Keycode::Number4 => Some(3),
        Keycode::Number5 => Some(4),
        Keycode::Number6 => Some(5),
        Keycode::Number7 => Some(6),
        Keycode::Number8 => Some(7),
        Keycode::Number9 => Some(8),
        _ => None,
    }
}

/// The state after one key press.
pub open spec fn key_press_state(v: WmView, keycode: Keycode, shift: bool) -> WmView {
    match key_number(keycode) {
        Some(n) => if shift {
            move_active_state(v, n)
        } else {
            change_workspace_state(v, n)
        },
        None => match keycode {
            Keycode::K => if shift {
                move_in_tasklist_state(v, true)
            } else {
                raise_adjacent_state(v, true)
            },
            Keycode::J => if shift {
                move_in_tasklist_state(v, false)
            } else {
                raise_adjacent_state(v, false)
            },
            Keycode::Right => change_workspace_state(
                v,
                cycle_next_spec(WORKSPACE_COUNT as int, v.active_workspace_index),
            ),
            Keycode::Left => change_workspace_state(
                v,
                cycle_previous_spec(WORKSPACE_COUNT as int, v.active_workspace_index),
            ),
            Keycode::M => toggle_maximize_state(v),
            _ => v,
        },
    }
}

/// The commands one key press issues.
pub open spec fn key_press_cmds(v: WmView, keycode: Keycode, shift: bool) -> Seq<Command> {
    match key_number(keycode) {
        Some(n) => if shift {
            move_active_cmds(v)
        } else {
            change_workspace_cmds(v, n)
        },
        None => match keycode {
            Keycode::Escape => seq![Command::SaveAndRestart],
            Keycode::K => if shift {
                move_in_tasklist_cmds(v)
            } else {
                raise_adjacent_cmds(v, true)
            },
            Keycode::J => if shift {
                move_in_tasklist_cmds(v)
            } else {
                raise_adjacent_cmds(v, false)
            },
            Keycode::Right => change_workspace_cmds(
                v,
                cycle_next_spec(WORKSPACE_COUNT as int, v.active_workspace_index),
            ),
            Keycode::Left => change_workspace_cmds(
                v,
                cycle_previous_spec(WORKSPACE_COUNT as int, v.active_workspace_index),
            ),
            Keycode::X => close_active_cmds(v),
            Keycode::M => toggle_maximize_cmds(v),
            _ => Seq::empty(),
        },
    }
}

/// The event window designates this client: it is its content window or
/// its decoration container.
pub open spec fn window_match(c: ClientView, window: u32) -> bool {
    c.id == window || c.container_id == window
}

/// Some client of the stack is designated by the event window.
pub open spec fn has_window_match(stack: Seq<ClientView>, window: u32) -> bool {
    exists|i: int| 0 <= i < stack.len() && window_match(#[trigger] stack[i], window)
}

/// The first stack index designated by the event window.
pub open spec fn first_window_match(stack: Seq<ClientView>, window: u32) -> int {
    choose|i: int|
        0 <= i < stack.len() && window_match(#[trigger] stack[i], window) && (forall|j: int|
            0 <= j < i ==> !window_match(#[trigger] stack[j], window))
}

/// The press falls in the titlebar band of the decoration, in
/// container-local coordinates.
pub open spec fn on_titlebar_spec(c: ClientView, event_x: i16, event_y: i16) -> bool {
    &&& BORDER_WIDTH <= event_x as int <= BORDER_WIDTH + c.width
    &&& BORDER_WIDTH <= event_y as int <= BORDER_WIDTH + TITLEBAR_HEIGHT
}

/// What a button press needs of the machine: if it would start a resize,
/// the client's bottom-right corner must fit the unsigned pointer range.
pub open spec fn button_press_req(
    v: WmView,
    window: u32,
    button: MouseButton,
    mod4: bool,
) -> bool {
    let stack = v.active().stack;
    if !has_window_match(stack, window) {
        true
    } else {
        let c = stack[first_window_match(stack, window)];
        (button is Secondary && mod4 && !c.maximized) ==> (0 <= c.x + c.width <= 32767 && 0 <= c.y
            + c.height <= 32767)
    }
}

/// The state after a button press: the designated client is raised, and a
/// qualifying press on a non-maximized client starts a move or resize
/// drag.  A press on no managed window, or a press on the container with a
/// non-qualifying button, changes nothing.
pub open spec fn button_press_state(
    v: WmView,
    window: u32,
    button: MouseButton,
    mod4: bool,
    event_x: i16,
    event_y: i16,
    root_x: i16,
    root_y: i16,
) -> WmView {
    let stack = v.active().stack;
    if !has_window_match(stack, window) {
        v
    } else {
        let i = first_window_match(stack, window);
        let c = stack[i];
        let on_container = c.container_id == window;
        if on_container && !(button is Primary || (button is Secondary && mod4)) {
            v
        } else {
            let raised = raise_client_state(v, i);
            if c.maximized {
                raised
            } else if button is Primary && (mod4 || (on_container && on_titlebar_spec(
                c,
                event_x,
                event_y,
            ))) {
                WmView {
                    drag_state: Some(
                        DragState { kind: DragKind::Move, x: root_x as u16, y: root_y as u16 },
                    ),
                    ..raised
                }
            } else if button is Secondary && mod4 {
                WmView {
                    drag_state: Some(
                        DragState {
                            kind: DragKind::Resize,
                            x: (c.x + c.width) as u16,
                            y: (c.y + c.height) as u16,
                        },
                    ),
                    ..raised
                }
            } else {
                raised
            }
        }
    }
}

/// The commands a button press issues: replay the withheld click when it
/// landed on the content window, raise the client, and for a starting
/// resize warp the pointer to the client's bottom-right corner.
pub open spec fn button_press_cmds(
    v: WmView,
    window: u32,
    button: MouseButton,
    mod4: bool,
    event_x: i16,
    event_y: i16,
) -> Seq<Command> {
    let stack = v.active().stack;
    if !has_window_match(stack, window) {
        Seq::empty()
    } else {
        let i = first_window_match(stack, window);
        let c = stack[i];
        let on_container = c.container_id == window;
        if on_container && !(button is Primary || (button is Secondary && mod4)) {
            Seq::empty()
        } else {
            (if on_container {
                Seq::<Command>::empty()
            } else {
                seq![Command::ReplayPointer]
            }) + raise_client_cmds(v, i) + (if !c.maximized && button is Secondary && mod4 {
                seq![Command::MovePointer((c.x + c.width) as u16, (c.y + c.height) as u16)]
            } else {
                Seq::<Command>::empty()
            })
        }
    }
}

/// What a motion event needs of the machine: the accumulated position or
/// size must stay within the signed coordinate range.
pub open spec fn motion_req(v: WmView, window: u32, root_x: i16, root_y: i16) -> bool {
    match v.drag_state {
        None => true,
        Some(ds) => {
            let stack = v.active().stack;
            if !has_window_match(stack, window) {
                true
            } else {
                let c = stack[first_window_match(stack, window)];
                let dx = root_x - ds.x;
                let dy = root_y - ds.y;
                match ds.kind {
                    DragKind::Move => MIN_CLIENT_X <= c.x + dx <= 32767 && MIN_CLIENT_Y <= c.y
                        + dy <= 32767,
                    DragKind::Resize => c.width <= 32767 && c.height <= 32767 && c.width + dx
                        <= 32767 && c.height + dy <= 32767,
                }
            }
        },
    }
}

/// The clamped size a resize drag yields: never below one pixel.
pub open spec fn clamped_dimension(current: u16, delta: int) -> u16 {
    if current + delta < 1 {
        1
    } else {
        (current + delta) as u16
    }
}

/// The state after a pointer motion: with a drag in progress and the event
/// window designating a client of the active workspace, the incremental
/// delta from the anchor is applied to its position (move) or its size
/// (resize, clamped at one pixel), and the anchor follows the pointer.
pub open spec fn motion_state(v: WmView, window: u32, root_x: i16, root_y: i16) -> WmView {
    match v.drag_state {
        None => v,
        Some(ds) => {
            let stack = v.active().stack;
            if !has_window_match(stack, window) {
                v
            } else {
                let i = first_window_match(stack, window);
                let c = stack[i];
                let dx = root_x - ds.x;
                let dy = root_y - ds.y;
                let c2 = match ds.kind {
                    DragKind::Move => ClientView {
                        x: (c.x + dx) as i16,
                        y: (c.y + dy) as i16,
                        ..c
                    },
                    DragKind::Resize => ClientView {
                        width: clamped_dimension(c.width, dx),
                        height: clamped_dimension(c.height, dy),
                        need_redraw: c.need_redraw || !c.maximized,
                        ..c
                    },
                };
                WmView {
                    workspaces: v.workspaces.update(
                        v.active_workspace_index,
                        (WorkspaceView {
                            stack: stack.update(i, c2),
                            tasklist: v.active().tasklist,
                        }),
                    ),
                    drag_state: Some(
                        DragState { kind: ds.kind, x: root_x as u16, y: root_y as u16 },
                    ),
                    ..v
                }
            }
        },
    }
}

/// The commands a pointer motion issues: the reposition or resize of the
/// dragged client's windows.
pub open spec fn motion_cmds(v: WmView, window: u32, root_x: i16, root_y: i16) -> Seq<Command> {
    match v.drag_state {
        None => Seq::empty(),
        Some(ds) => {
            let stack = v.active().stack;
            if !has_window_match(stack, window) {
                Seq::empty()
            } else {
                let i = first_window_match(stack, window);
                let c = stack[i];
                let dx = root_x - ds.x;
                let dy = root_y - ds.y;
                match ds.kind {
                    DragKind::Move => {
                        let c2 = ClientView { x: (c.x + dx) as i16, y: (c.y + dy) as i16, ..c };
                        crate::client::set_x_cmds(c2) + crate::client::set_y_cmds(c2)
                    },
                    DragKind::Resize => {
                        let c2 = ClientView {
                            width: clamped_dimension(c.width, dx),
                            height: clamped_dimension(c.height, dy),
                            need_redraw: c.need_redraw || !c.maximized,
                            ..c
                        };
                        crate::client::set_size_cmds(c2, v.screen)
                    },
                }
            }
        },
    }
}

/// The client view after a property change.
pub open spec fn property_changed_client(c: ClientView, change: PropertyChangeView) -> ClientView {
    match change {
        PropertyChangeView::Class(x) => ClientView { class: x, ..c },
        PropertyChangeView::Title(x) => ClientView { title: x, need_redraw: true, ..c },
        PropertyChangeView::Icon(x) => ClientView { icon: x, need_redraw: true, ..c },
    }
}

/// The state after a property notification: the owning client, wherever it
/// lives, records the re-queried value; a title or icon change marks it
/// dirty.  Unmanaged windows are ignored.
pub open spec fn property_state(v: WmView, window: u32, change: PropertyChangeView) -> WmView {
    if !v.managed_anywhere(window) {
        v
    } else {
        let w = owner_of(v, window);
        let ws = v.workspaces[w];
        let i = stack_index_of_id(ws.stack, window);
        WmView {
            workspaces: v.workspaces.update(
                w,
                (WorkspaceView {
                    stack: ws.stack.update(i, property_changed_client(ws.stack[i], change)),
                    tasklist: ws.tasklist,
                }),
            ),
            ..v
        }
    }
}

/// The commands a property notification issues: a class change repaints
/// the top panel; a title or icon change repaints the bottom panel only
/// when the owning workspace is active.
pub open spec fn property_cmds(v: WmView, window: u32, change: PropertyChangeView) -> Seq<
    Command,
> {
    if !v.managed_anywhere(window) {
        Seq::empty()
    } else {
        match change {
            PropertyChangeView::Class(_) => seq![Command::NotifyTopPanel],
            _ => {
                if owner_of(v, window) == v.active_workspace_index {
                    seq![Command::NotifyBottomPanel]
                } else {
                    Seq::<Command>::empty()
                }
            },
        }
    }
}

/// The state after a configure request: an unmanaged window's request is
/// forwarded untouched; a managed client's request is honoured only for
/// its size, through the client's own policy-aware resize; a managed
/// position-only request is dropped.
pub open spec fn configure_state(
    v: WmView,
    window: u32,
    has_width: bool,
    has_height: bool,
    width: u16,
    height: u16,
) -> WmView {
    if !v.managed_anywhere(window) {
        v
    } else if !has_width && !has_height {
        v
    } else {
        let w = owner_of(v, window);
        let ws = v.workspaces[w];
        let i = stack_index_of_id(ws.stack, window);
        let c = ws.stack[i];
        let c2 = ClientView {
            width,
            height,
            need_redraw: c.need_redraw || !c.maximized,
            ..c
        };
        WmView {
            workspaces: v.workspaces.update(
                w,
                (WorkspaceView { stack: ws.stack.update(i, c2), tasklist: ws.tasklist }),
            ),
            ..v
        }
    }
}

/// The commands a configure request issues.
pub open spec fn configure_cmds(
    v: WmView,
    window: u32,
    has_width: bool,
    has_height: bool,
    width: u16,
    height: u16,
) -> Seq<Command> {
    if !v.managed_anywhere(window) {
        seq![Command::ForwardConfigureRequest]
    } else if !has_width && !has_height {
        Seq::empty()
    } else {
        let w = owner_of(v, window);
        let ws = v.workspaces[w];
        let i = stack_index_of_id(ws.stack, window);
        let c = ws.stack[i];
        crate::client::set_size_cmds(
            (ClientView { width, height, need_redraw: c.need_redraw || !c.maximized, ..c }),
            v.screen,
        )
    }
}

/// The repaint requests the dirty, non-maximized clients of a stack yield,
/// scanning from index `i`; only the topmost client counts as active.
pub open spec fn redraw_list(stack: Seq<ClientView>, i: int) -> Seq<crate::client::RedrawRequest>
    decreases stack.len() - i,
{
    if i < 0 || i >= stack.len() {
        Seq::empty()
    } else {
        let rest = redraw_list(stack, i + 1);
        if stack[i].need_redraw && !stack[i].maximized {
            seq![
                crate::client::RedrawRequest {
                    container_id: stack[i].container_id,
                    is_active: i == stack.len() - 1,
                },
            ] + rest
        } else {
            rest
        }
    }
}

/// The active stack after a redraw pass: every dirty, non-maximized client
/// has its flag cleared.
pub open spec fn redrawn_stack(stack: Seq<ClientView>) -> Seq<ClientView> {
    Seq::new(
        stack.len(),
        |i: int|
            if stack[i].need_redraw && !stack[i].maximized {
                ClientView { need_redraw: false, ..stack[i] }
            } else {
                stack[i]
            },
    )
}

/// A re-queried property value, handed in by the host.
pub enum PropertyChange {
    /// The program identifier changed.
    Class(Option<String>),
    /// The display title changed.
    Title(Option<String>),
    /// The icon changed.
    Icon(Option<Icon>),
}

/// The mathematical value of a [`PropertyChange`].
pub enum PropertyChangeView {
    Class(Option<Seq<char>>),
    Title(Option<Seq<char>>),
    Icon(Option<IconView>),
}

impl View for PropertyChange {
    type V = PropertyChangeView;

    open spec fn view(&self) -> PropertyChangeView {
        match self {
            PropertyChange::Class(x) => PropertyChangeView::Class(opt_string_view(*x)),
            PropertyChange::Title(x) => PropertyChangeView::Title(opt_string_view(*x)),
            PropertyChange::Icon(x) => PropertyChangeView::Icon(opt_icon_view(*x)),
        }
    }
}

/// The snapshot a state serializes to.
pub open spec fn saved_of(v: WmView) -> crate::session::SavedStateView {
    crate::session::SavedStateView {
        workspaces: Seq::new(
            v.workspaces.len(),
            |w: int| crate::session::SavedWorkspaceView {
                stack: Seq::new(
                    v.workspaces[w].stack.len(),
                    |i: int| crate::session::SavedClient {
                        id: v.workspaces[w].stack[i].id,
                        x: v.workspaces[w].stack[i].x,
                        y: v.workspaces[w].stack[i].y,
                        width: v.workspaces[w].stack[i].width,
                        height: v.workspaces[w].stack[i].height,
                        maximized: v.workspaces[w].stack[i].maximized,
                    },
                ),
                tasklist: v.workspaces[w].tasklist,
            },
        ),
        active_workspace_index: v.active_workspace_index,
    }
}

/// The state after the active workspace's client at `idx` is raised to the
/// top; raising the already-topmost client changes nothing.
pub open spec fn raise_client_state(v: WmView, idx: int) -> WmView {
    if idx == v.active().stack.len() - 1 {
        v
    } else {
        v.with_active(
            WorkspaceView { stack: v.active().raised_stack(idx), tasklist: v.active().tasklist },
        )
    }
}

/// The commands a raise issues: none at all for the already-topmost client,
/// otherwise raise the container, keep the panels above it, focus the
/// raised client, and repaint the tasklist highlight.
pub open spec fn raise_client_cmds(v: WmView, idx: int) -> Seq<Command> {
    if idx == v.active().stack.len() - 1 {
        Seq::empty()
    } else {
        let c = v.active().stack[idx];
        seq![
            Command::RaiseWindow(c.container_id),
            Command::RaiseTopPanel,
            Command::RaiseBottomPanel,
            Command::SetFocus(Some(c.id)),
            Command::NotifyBottomPanel,
        ]
    }
}

impl Wm {
    /// Which workspace is shown.
    pub fn active_workspace_index(&self) -> (r: usize)
        ensures
            r == self@.active_workspace_index,
    {
        self.active_workspace_index
    }

    /// All nine workspaces.
    pub fn workspaces(&self) -> (r: &Vec<Workspace>)
        ensures
            r@.len() == self@.workspaces.len(),
            forall|i: int| 0 <= i < r@.len() ==> (#[trigger] r@[i])@ == self@.workspaces[i],
    {
        &self.workspaces
    }

    /// The workspace currently shown.
    pub fn active_workspace(&self) -> (r: &Workspace)
        requires
            self@.wf(),
        ensures
            r@ == self@.active(),
    {
        &self.workspaces[self.active_workspace_index]
    }

    /// The first workspace and stack position holding the client with the
    /// given id.
    pub fn find_client(&self, id: u32) -> (r: Option<(usize, usize)>)
        requires
            self@.wf(),
        ensures
            match r {
                Some(wi) => {
                    &&& wi.0 < self@.workspaces.len()
                    &&& wi.1 < self@.workspaces[wi.0 as int].stack.len()
                    &&& self@.workspaces[wi.0 as int].stack[wi.1 as int].id == id
                },
                None => !self@.managed_anywhere(id),
            },
    {
        let mut w: usize = 0;

        while w < self.workspaces.len()
            invariant
                w <= self@.workspaces.len(),
                self@.workspaces.len() == self.workspaces@.len(),
                forall|v: int|
                    0 <= v < w ==> !stack_has_id((#[trigger] self@.workspaces[v]).stack, id),
            decreases self@.workspaces.len() - w,
        {
            match self.workspaces[w].find_stack_index_by_id(id) {
                Some(i) => {
                    return Some((w, i));
                },
                None => {},
            }
            w = w + 1;
        }

        None
    }

    /// Whether any workspace manages the given window id.
    pub fn is_managed(&self, id: u32) -> (r: bool)
        requires
            self@.wf(),
        ensures
            r == self@.managed_anywhere(id),
    {
        match self.find_client(id) {
            Some(_) => true,
            None => false,
        }
    }

    /// Raise the client at the given stack index of the active workspace to
    /// the top, focusing it.  Raising the already-topmost client is a no-op
    /// and issues no commands.
    pub fn raise_client(&mut self, stack_index: usize) -> (cmds: Vec<Command>)
        requires
            old(self)@.wf(),
            old(self)@.active().stack.len() > 0,
            stack_index < old(self)@.active().stack.len(),
        ensures
            final(self)@.wf(),
            final(self)@ == raise_client_state(old(self)@, stack_index as int),
            cmds@ == raise_client_cmds(old(self)@, stack_index as int),
    {
        let ghost oldview = self@;
        let mut cmds: Vec<Command> = Vec::new();
        let a = self.active_workspace_index;
        let len = self.workspaces[a].stack.len();

        if stack_index == len - 1 {
            proof {
                assert(final(self)@ == raise_client_state(oldview, stack_index as int));
                assert(cmds@ =~= raise_client_cmds(oldview, stack_index as int));
            }
            return cmds;
        }

        let container_id = self.workspaces[a].stack[stack_index].container_id;
        let id = self.workspaces[a].stack[stack_index].id;

        let ws = &mut self.workspaces[a];
        ws.raise_to_top(stack_index);

        cmds.push(Command::RaiseWindow(container_id));
        cmds.push(Command::RaiseTopPanel);
        cmds.push(Command::RaiseBottomPanel);
        cmds.push(Command::SetFocus(Some(id)));
        cmds.push(Command::NotifyBottomPanel);

        proof {
            let nw = oldview.active().raised_stack(stack_index as int);
            assert(self@.workspaces =~= oldview.workspaces.update(
                oldview.active_workspace_index,
                (WorkspaceView { stack: nw, tasklist: oldview.active().tasklist }),
            ));
            assert(self@ == raise_client_state(oldview, stack_index as int));
            assert(cmds@ =~= raise_client_cmds(oldview, stack_index as int));
            assert forall|y: u32| #[trigger]
                stack_has_id(nw, y) implies stack_has_id(oldview.active().stack, y) || y == id by {
                let i = choose|i: int| 0 <= i < nw.len() && nw[i].id == y;
                let s = oldview.active().stack;
                let rest = s.remove(stack_index as int);
                s.remove_ensures(stack_index as int);
                if i == nw.len() - 1 {
                    assert(y == s[stack_index as int].id);
                } else if i < stack_index {
                    assert(nw[i].id == s[i].id);
                } else {
                    assert(nw[i].id == s[i + 1].id);
                }
            }
            assert(stack_has_id(oldview.active().stack, id)) by {
                assert(oldview.active().stack[stack_index as int].id == id);
            }
            assert forall|b: int|
                0 <= b < oldview.workspaces.len() && b
                    != oldview.active_workspace_index implies !stack_has_id(
                (#[trigger] oldview.workspaces[b]).stack,
                id,
            ) by {
                assert(stack_has_id(
                    oldview.workspaces[oldview.active_workspace_index].stack,
                    id,
                ));
            }
            lemma_disjoint_after_update(
                oldview.workspaces,
                oldview.active_workspace_index,
                (WorkspaceView { stack: nw, tasklist: oldview.active().tasklist }),
                id,
            );
        }

        cmds
    }

    /// Switch to workspace `index`: show its containers (topmost last
    /// mapped first), focus its topmost client, hide the previous
    /// workspace, and repaint both panels.  Switching to the active
    /// workspace is a no-op.
    pub fn change_active_workspace(&mut self, index: usize) -> (cmds: Vec<Command>)
        requires
            old(self)@.wf(),
            index < WORKSPACE_COUNT,
        ensures
            final(self)@.wf(),
            final(self)@ == change_workspace_state(old(self)@, index as int),
            cmds@ == change_workspace_cmds(old(self)@, index as int),
    {
        let ghost oldview = self@;
        let mut cmds: Vec<Command> = Vec::new();

        if index == self.active_workspace_index {
            proof {
                assert(cmds@ =~= change_workspace_cmds(oldview, index as int));
            }
            return cmds;
        }

        let ghost target0 = oldview.workspaces[index as int].stack;
        let ghost oldvec = self.workspaces@;
        let tlen = self.workspaces[index].stack.len();
        let mut i: usize = tlen;

        while i > 0
            invariant
                i <= tlen,
                index < WORKSPACE_COUNT,
                tlen == target0.len(),
                oldvec.len() == WORKSPACE_COUNT,
                tlen <= usize::MAX,
                forall|j: int| 0 <= j < tlen ==> target0[j] == (#[trigger] oldvec[
                    index as int
                ]@.stack[j]),
                target0.len() == oldvec[index as int]@.stack.len(),
                self.workspaces@.len() == WORKSPACE_COUNT,
                self.active_workspace_index as int == oldview.active_workspace_index,
                self.drag_state == oldview.drag_state,
                self.screen == oldview.screen,
                forall|w: int|
                    0 <= w < WORKSPACE_COUNT && w != index ==> #[trigger] self.workspaces@[w]
                        == oldvec[w],
                self.workspaces@[index as int]@.tasklist == oldvec[index as int]@.tasklist,
                self.workspaces@[index as int]@.stack.len() == tlen,
                forall|j: int|
                    0 <= j < i ==> #[trigger] self.workspaces@[index as int]@.stack[j]
                        == target0[j],
                forall|j: int|
                    i <= j < tlen ==> #[trigger] self.workspaces@[index as int]@.stack[j]
                        == marked_dirty(target0[j]),
                cmds@ == Seq::new(
                    (tlen - i) as nat,
                    |k: int| Command::MapWindow(target0[tlen - 1 - k].container_id),
                ),
            decreases i,
        {
            i = i - 1;
            let cid = self.workspaces[index].stack[i].container_id;
            cmds.push(Command::MapWindow(cid));
            let ws = &mut self.workspaces[index];
            ws.mark_dirty_at(i);
            proof {
                assert(cmds@ =~= Seq::new(
                    (tlen - i) as nat,
                    |k: int| Command::MapWindow(target0[tlen - 1 - k].container_id),
                ));
            }
        }

        proof {
            assert forall|w: int|
                0 <= w < WORKSPACE_COUNT && w != index implies #[trigger] self@.workspaces[w]
                == oldview.workspaces[w] by {
                assert(self@.workspaces[w] == self.workspaces@[w]@);
                assert(oldview.workspaces[w] == oldvec[w]@);
            }
            assert(self@.active_workspace_index == oldview.active_workspace_index);
            assert(self@.drag_state == oldview.drag_state);
            assert(self@.screen == oldview.screen);
            assert(self@.workspaces[index as int] == self.workspaces@[index as int]@);
            assert(oldview.workspaces[index as int] == oldvec[index as int]@);
            assert(self@.workspaces[index as int].tasklist == oldview.workspaces[
                index as int
            ].tasklist);
            assert forall|j: int|
                0 <= j < tlen implies #[trigger] self@.workspaces[index as int].stack[j]
                == marked_dirty(target0[j]) by {
                assert(self.workspaces@[index as int]@.stack[j] == marked_dirty(target0[j]));
            }
        }

        let focus = if self.workspaces[index].stack.len() > 0 {
            let l = self.workspaces[index].stack.len() - 1;
            Some(self.workspaces[index].stack[l].id)
        } else {
            None
        };

        proof {
            assert(focus == oldview.workspaces[index as int].focused()) by {
                if tlen > 0 {
                    assert(self@.workspaces[index as int].stack[tlen - 1] == marked_dirty(
                        target0[tlen - 1],
                    ));
                }
            }
        }

        cmds.push(Command::SetFocus(focus));

        let a = self.active_workspace_index;
        let ghost current0 = oldview.active().stack;
        let ghost base = cmds@;
        let clen = self.workspaces[a].stack.len();
        let mut k: usize = 0;

        while k < clen
            invariant
                k <= clen,
                a < WORKSPACE_COUNT,
                a != index,
                self.workspaces@.len() == WORKSPACE_COUNT,
                self@.workspaces[a as int].stack == current0,
                clen == current0.len(),
                cmds@ == base + Seq::new(
                    k as nat,
                    |i: int| Command::UnmapWindow(current0[i].container_id),
                ),
            decreases clen - k,
        {
            let cid = self.workspaces[a].stack[k].container_id;
            cmds.push(Command::UnmapWindow(cid));
            k = k + 1;
            proof {
                assert(cmds@ =~= base + Seq::new(
                    k as nat,
                    |i: int| Command::UnmapWindow(current0[i].container_id),
                ));
            }
        }

        self.active_workspace_index = index;
        cmds.push(Command::NotifyTopPanel);
        cmds.push(Command::NotifyBottomPanel);

        proof {
            let nw = WorkspaceView {
                stack: all_dirty(target0),
                tasklist: oldview.workspaces[index as int].tasklist,
            };
            assert(self@.workspaces[index as int].stack =~= all_dirty(target0));
            assert(self@.workspaces =~= oldview.workspaces.update(index as int, nw));
            assert(self@ == change_workspace_state(oldview, index as int));
            assert(cmds@ =~= change_workspace_cmds(oldview, index as int));

            lemma_stack_same_ids(target0, nw.stack);
            assert(oldview.workspaces[index as int].wf());
            assert(nw.wf());
            lemma_disjoint_after_permute(oldview.workspaces, index as int, nw);
        }

        cmds
    }

    /// Pop the focused client from the active workspace and append it to
    /// both orders of workspace `workspace_index`; its container stays
    /// hidden until that workspace becomes active.  An empty active
    /// workspace is a no-op.
    pub fn move_active_client_to_workspace(&mut self, workspace_index: usize) -> (cmds: Vec<
        Command,
    >)
        requires
            old(self)@.wf(),
            workspace_index < WORKSPACE_COUNT,
        ensures
            final(self)@.wf(),
            final(self)@ == move_active_state(old(self)@, workspace_index as int),
            cmds@ == move_active_cmds(old(self)@),
    {
        let ghost oldview = self@;
        let mut cmds: Vec<Command> = Vec::new();
        let a = self.active_workspace_index;
        let len = self.workspaces[a].stack.len();

        if len == 0 {
            proof {
                assert(cmds@ =~= move_active_cmds(oldview));
            }
            return cmds;
        }

        let ghost cv = oldview.active().stack.last();
        let ws = &mut self.workspaces[a];
        let client = ws.remove_client(len - 1);

        proof {
            assert(oldview.active().stack.remove(len - 1) =~= oldview.active().stack.drop_last());
        }

        cmds.push(Command::UnmapWindow(client.container_id));

        let focus = if self.workspaces[a].stack.len() > 0 {
            let l = self.workspaces[a].stack.len() - 1;
            Some(self.workspaces[a].stack[l].id)
        } else {
            None
        };

        proof {
            let s0 = oldview.active().stack;
            assert(focus == (if s0.len() > 1 {
                Some(s0[s0.len() - 2].id)
            } else {
                None::<u32>
            })) by {
                if s0.len() > 1 {
                    let l = s0.len() - 2;
                    assert(self.workspaces@[a as int]@.stack[l] == self.workspaces@[
                        a as int
                    ].stack@[l]@);
                    assert(self.workspaces@[a as int]@.stack[l] == s0.remove(s0.len() - 1)[l]);
                    assert(s0.remove(s0.len() - 1)[l] == s0[l]) by {
                        s0.remove_ensures(s0.len() - 1);
                    }
                }
            }
        }

        if self.workspaces[a].stack.len() > 0 {
            let l = self.workspaces[a].stack.len() - 1;
            let ws = &mut self.workspaces[a];
            ws.mark_dirty_at(l);
        }

        cmds.push(Command::RaiseWindow(client.container_id));
        cmds.push(Command::RaiseTopPanel);
        cmds.push(Command::RaiseBottomPanel);
        cmds.push(Command::SetFocus(focus));

        let ghost source = source_after_move(oldview.active());

        proof {
            assert(self@.workspaces[a as int].stack =~= source.stack);
            assert(self@.workspaces[a as int] == source);
            assert(self@.workspaces =~= oldview.workspaces.update(a as int, source));

            let popped = oldview.active().stack.drop_last();
            lemma_stack_same_ids(popped, source.stack);
            assert(source.wf()) by {
                assert(stack_ids_distinct(oldview.active().stack));
                assert(stack_ids_distinct(popped)) by {
                    assert(forall|i: int|
                        0 <= i < popped.len() ==> #[trigger] popped[i]
                            == oldview.active().stack[i]);
                }
                assert(oldview.active().tasklist.contains(cv.id)) by {
                    assert(stack_has_id(oldview.active().stack, cv.id)) by {
                        assert(oldview.active().stack[len - 1].id == cv.id);
                    }
                }
                assert(0 <= tasklist_index_of(oldview.active().tasklist, cv.id)
                    < oldview.active().tasklist.len()) by {
                    let w = tasklist_index_of(oldview.active().tasklist, cv.id);
                    assert(oldview.active().tasklist[w] == cv.id);
                }
                crate::workspace::lemma_remove_id(
                    oldview.active().tasklist,
                    tasklist_index_of(oldview.active().tasklist, cv.id),
                );
                assert(oldview.active().tasklist[tasklist_index_of(
                    oldview.active().tasklist,
                    cv.id,
                )] == cv.id);
                assert forall|y: u32| #[trigger]
                    source.tasklist.contains(y) <==> stack_has_id(source.stack, y) by {
                    if source.tasklist.contains(y) {
                        assert(oldview.active().tasklist.contains(y) && y != cv.id);
                        assert(stack_has_id(oldview.active().stack, y));
                        let i = choose|i: int|
                            0 <= i < oldview.active().stack.len() && oldview.active().stack[i].id
                                == y;
                        assert(i != len - 1);
                        assert(popped[i].id == y);
                        assert(stack_has_id(popped, y));
                    }
                    if stack_has_id(source.stack, y) {
                        assert(stack_has_id(popped, y));
                        let i = choose|i: int| 0 <= i < popped.len() && popped[i].id == y;
                        assert(oldview.active().stack[i].id == y);
                        assert(stack_has_id(oldview.active().stack, y));
                        assert(oldview.active().tasklist.contains(y));
                        assert(y != cv.id) by {
                            assert(oldview.active().stack[i].id
                                != oldview.active().stack[len - 1].id);
                        }
                    }
                }
            }
            assert(!stack_has_id(source.stack, cv.id)) by {
                assert(oldview.active().tasklist.contains(cv.id)) by {
                    assert(stack_has_id(oldview.active().stack, cv.id)) by {
                        assert(oldview.active().stack[len - 1].id == cv.id);
                    }
                }
                assert(0 <= tasklist_index_of(oldview.active().tasklist, cv.id)
                    < oldview.active().tasklist.len()) by {
                    let w = tasklist_index_of(oldview.active().tasklist, cv.id);
                    assert(oldview.active().tasklist[w] == cv.id);
                }
                crate::workspace::lemma_remove_id(
                    oldview.active().tasklist,
                    tasklist_index_of(oldview.active().tasklist, cv.id),
                );
                if stack_has_id(source.stack, cv.id) {
                    assert(source.tasklist.contains(cv.id));
                }
            }
            assert forall|y: u32| #[trigger]
                stack_has_id(source.stack, y) implies stack_has_id(
                oldview.active().stack,
                y,
            ) by {
                let popped = oldview.active().stack.drop_last();
                assert(stack_has_id(popped, y));
                let i = choose|i: int| 0 <= i < popped.len() && popped[i].id == y;
                assert(oldview.active().stack[i].id == y);
            }
            lemma_disjoint_after_permute(oldview.workspaces, a as int, source);
            assert forall|b: int|
                0 <= b < oldview.workspaces.len() && b != a implies !stack_has_id(
                (#[trigger] oldview.workspaces[b]).stack,
                cv.id,
            ) by {
                assert(stack_has_id(oldview.workspaces[a as int].stack, cv.id)) by {
                    assert(oldview.workspaces[a as int].stack[len - 1].id == cv.id);
                }
            }
        }

        let dest = &mut self.workspaces[workspace_index];
        dest.push_client(client);

        cmds.push(Command::NotifyTopPanel);
        cmds.push(Command::NotifyBottomPanel);

        proof {
            let mid = oldview.workspaces.update(a as int, source);
            let destv = mid[workspace_index as int];
            let newdest = WorkspaceView {
                stack: destv.stack.push(cv),
                tasklist: destv.tasklist.push(cv.id),
            };
            assert(self@.workspaces =~= mid.update(workspace_index as int, newdest));
            assert(self@ == move_active_state(oldview, workspace_index as int));
            assert(cmds@ =~= move_active_cmds(oldview));

            assert forall|y: u32| #[trigger]
                stack_has_id(newdest.stack, y) implies stack_has_id(destv.stack, y) || y
                == cv.id by {
                let i = choose|i: int| 0 <= i < newdest.stack.len() && newdest.stack[i].id == y;
                if i < newdest.stack.len() - 1 {
                    assert(destv.stack[i].id == y);
                }
            }
            lemma_disjoint_after_update(mid, workspace_index as int, newdest, cv.id);
        }

        cmds
    }

    /// Swap the focused client's tasklist entry with its cyclic successor.
    pub fn move_active_client_forward_in_tasklist(&mut self) -> (cmds: Vec<Command>)
        requires
            old(self)@.wf(),
        ensures
            final(self)@.wf(),
            final(self)@ == move_in_tasklist_state(old(self)@, true),
            cmds@ == move_in_tasklist_cmds(old(self)@),
    {
        self.move_in_tasklist(true)
    }

    /// Swap the focused client's tasklist entry with its cyclic
    /// predecessor.
    pub fn move_active_client_backward_in_tasklist(&mut self) -> (cmds: Vec<Command>)
        requires
            old(self)@.wf(),
        ensures
            final(self)@.wf(),
            final(self)@ == move_in_tasklist_state(old(self)@, false),
            cmds@ == move_in_tasklist_cmds(old(self)@),
    {
        self.move_in_tasklist(false)
    }

    fn move_in_tasklist(&mut self, forward: bool) -> (cmds: Vec<Command>)
        requires
            old(self)@.wf(),
        ensures
            final(self)@.wf(),
            final(self)@ == move_in_tasklist_state(old(self)@, forward),
            cmds@ == move_in_tasklist_cmds(old(self)@),
    {
        let ghost oldview = self@;
        let mut cmds: Vec<Command> = Vec::new();
        let a = self.active_workspace_index;
        let len = self.workspaces[a].stack.len();

        if len == 0 {
            proof {
                assert(cmds@ =~= move_in_tasklist_cmds(oldview));
            }
            return cmds;
        }

        let fid = self.workspaces[a].stack[len - 1].id;

        proof {
            assert(stack_has_id(oldview.active().stack, fid)) by {
                assert(oldview.active().stack[len - 1].id == fid);
            }
            assert(oldview.active().tasklist.contains(fid));
        }

        let ti = match self.workspaces[a].find_tasklist_index(fid) {
            Some(ti) => ti,
            None => {
                proof {
                    assert(false);
                }
                0
            },
        };

        proof {
            assert(ti == tasklist_index_of(oldview.active().tasklist, fid)) by {
                let w = tasklist_index_of(oldview.active().tasklist, fid);
                assert(oldview.active().tasklist[w] == fid);
            }
        }

        let j = if forward {
            cycle_next(self.workspaces[a].tasklist.as_slice(), ti)
        } else {
            cycle_previous(self.workspaces[a].tasklist.as_slice(), ti)
        };

        let ws = &mut self.workspaces[a];
        ws.swap_tasklist_entries(ti, j);

        cmds.push(Command::NotifyTopPanel);
        cmds.push(Command::NotifyBottomPanel);

        proof {
            let nw = move_in_tasklist_state(oldview, forward).active();
            assert(self@.workspaces[a as int] == nw);
            assert(self@.workspaces =~= oldview.workspaces.update(a as int, nw));
            assert(self@ == move_in_tasklist_state(oldview, forward));
            assert(cmds@ =~= move_in_tasklist_cmds(oldview));
            lemma_disjoint_after_permute(oldview.workspaces, a as int, nw);
        }

        cmds
    }

    /// Raise the focused client's cyclic successor in the tasklist.
    pub fn raise_next_tasklist_client(&mut self) -> (cmds: Vec<Command>)
        requires
            old(self)@.wf(),
        ensures
            final(self)@.wf(),
            final(self)@ == raise_adjacent_state(old(self)@, true),
            cmds@ == raise_adjacent_cmds(old(self)@, true),
    {
        self.raise_adjacent(true)
    }

    /// Raise the focused client's cyclic predecessor in the tasklist.
    pub fn raise_previous_tasklist_client(&mut self) -> (cmds: Vec<Command>)
        requires
            old(self)@.wf(),
        ensures
            final(self)@.wf(),
            final(self)@ == raise_adjacent_state(old(self)@, false),
            cmds@ == raise_adjacent_cmds(old(self)@, false),
    {
        self.raise_adjacent(false)
    }

    fn raise_adjacent(&mut self, forward: bool) -> (cmds: Vec<Command>)
        requires
            old(self)@.wf(),
        ensures
            final(self)@.wf(),
            final(self)@ == raise_adjacent_state(old(self)@, forward),
            cmds@ == raise_adjacent_cmds(old(self)@, forward),
    {
        let ghost oldview = self@;
        let a = self.active_workspace_index;
        let len = self.workspaces[a].stack.len();

        if len == 0 {
            let cmds: Vec<Command> = Vec::new();
            proof {
                assert(cmds@ =~= raise_adjacent_cmds(oldview, forward));
            }
            return cmds;
        }

        let fid = self.workspaces[a].stack[len - 1].id;

        proof {
            assert(stack_has_id(oldview.active().stack, fid)) by {
                assert(oldview.active().stack[len - 1].id == fid);
            }
            assert(oldview.active().tasklist.contains(fid));
        }

        let ti = match self.workspaces[a].find_tasklist_index(fid) {
            Some(ti) => ti,
            None => {
                proof {
                    assert(false);
                }
                0
            },
        };

        proof {
            assert(ti == tasklist_index_of(oldview.active().tasklist, fid)) by {
                let w = tasklist_index_of(oldview.active().tasklist, fid);
                assert(oldview.active().tasklist[w] == fid);
            }
        }

        let j = if forward {
            cycle_next(self.workspaces[a].tasklist.as_slice(), ti)
        } else {
            cycle_previous(self.workspaces[a].tasklist.as_slice(), ti)
        };

        let nid = self.workspaces[a].tasklist[j];

        proof {
            assert(oldview.active().tasklist.contains(nid)) by {
                assert(oldview.active().tasklist[j as int] == nid);
            }
            assert(stack_has_id(oldview.active().stack, nid));
        }

        let si = match self.workspaces[a].find_stack_index_by_id(nid) {
            Some(si) => si,
            None => {
                proof {
                    assert(false);
                }
                0
            },
        };

        proof {
            assert(si == adjacent_stack_index(oldview, forward)) by {
                let w = stack_index_of_id(oldview.active().stack, nid);
                assert(oldview.active().stack[w].id == nid);
                assert(oldview.active().stack[si as int].id == nid);
            }
        }

        let cmds = self.raise_client(si);
        cmds
    }

    /// Manage a window that asked to be shown: decide its geometry and
    /// maximize mode from the queried geometry, create its client and
    /// container, focus it, and insert it into the active workspace.  A
    /// window that is already managed anywhere is ignored: nothing changes
    /// and no command is issued.
    pub fn handle_map_request(
        &mut self,
        id: u32,
        container_id: u32,
        geom_width: u16,
        geom_height: u16,
        class: Option<String>,
        title: Option<String>,
        icon: Option<Icon>,
    ) -> (cmds: Vec<Command>)
        requires
            old(self)@.wf(),
            geom_width <= 32767,
            geom_height <= 32767,
        ensures
            final(self)@.wf(),
            final(self)@ == map_request_state(
                old(self)@,
                id,
                container_id,
                geom_width,
                geom_height,
                opt_string_view(class),
                opt_string_view(title),
                opt_icon_view(icon),
            ),
            cmds@ == map_request_cmds(
                old(self)@,
                id,
                container_id,
                geom_width,
                geom_height,
                opt_string_view(class),
                opt_string_view(title),
                opt_icon_view(icon),
            ),
    {
        let ghost oldview = self@;
        let mut cmds: Vec<Command> = Vec::new();

        if self.is_managed(id) {
            proof {
                assert(cmds@ =~= map_request_cmds(
                    oldview,
                    id,
                    container_id,
                    geom_width,
                    geom_height,
                    opt_string_view(class),
                    opt_string_view(title),
                    opt_icon_view(icon),
                ));
            }
            return cmds;
        }

        let maximized_height = self.screen.usable_height();
        let maximized = geom_width == self.screen.width;

        if maximized && geom_height != maximized_height {
            cmds.push(Command::SetWindowHeight(id, maximized_height));
        }

        let width = if maximized {
            DEFAULT_MAXIMIZED_WIDTH
        } else {
            geom_width
        };

        let height = if maximized {
            DEFAULT_MAXIMIZED_HEIGHT
        } else {
            geom_height
        };

        let x = if self.screen.width >= width {
            ((self.screen.width - width) / 2) as i16
        } else {
            -(((width - self.screen.width) / 2) as i16)
        };

        let sum = self.screen.height + TOP_PANEL_HEIGHT;
        let y = if sum >= height {
            ((sum - height) / 2) as i16
        } else {
            -(((height - sum) / 2) as i16)
        };

        let client = Client::new(
            id,
            container_id,
            x,
            y,
            width,
            height,
            maximized,
            class,
            title,
            icon,
            self.screen,
            &mut cmds,
        );

        let ghost cv = client@;

        cmds.push(Command::MapWindow(id));
        cmds.push(Command::MapWindow(container_id));
        cmds.push(Command::SetFocus(Some(id)));

        let a = self.active_workspace_index;

        proof {
            assert(!stack_has_id(oldview.active().stack, id)) by {
                if stack_has_id(oldview.active().stack, id) {
                    assert(oldview.managed_anywhere(id));
                }
            }
        }

        let ws = &mut self.workspaces[a];
        ws.insert_client(client);

        cmds.push(Command::RaiseTopPanel);
        cmds.push(Command::RaiseBottomPanel);
        cmds.push(Command::NotifyTopPanel);
        cmds.push(Command::NotifyBottomPanel);

        proof {
            assert(cv == map_request_client(
                oldview,
                id,
                container_id,
                geom_width,
                geom_height,
                opt_string_view(class),
                opt_string_view(title),
                opt_icon_view(icon),
            ));
            let a0 = oldview.active();
            let nw = WorkspaceView {
                stack: (if a0.stack.len() > 0 {
                    a0.stack.update(a0.stack.len() - 1, marked_dirty(a0.stack.last()))
                } else {
                    a0.stack
                }).push(cv),
                tasklist: a0.tasklist_after_insert(id),
            };
            assert(self@.workspaces =~= oldview.workspaces.update(a as int, nw));
            assert(self@ == map_request_state(
                oldview,
                id,
                container_id,
                geom_width,
                geom_height,
                opt_string_view(class),
                opt_string_view(title),
                opt_icon_view(icon),
            ));
            assert(cmds@ =~= map_request_cmds(
                oldview,
                id,
                container_id,
                geom_width,
                geom_height,
                opt_string_view(class),
                opt_string_view(title),
                opt_icon_view(icon),
            ));

            assert forall|y2: u32| #[trigger]
                stack_has_id(nw.stack, y2) implies stack_has_id(a0.stack, y2) || y2 == id by {
                let i = choose|i: int| 0 <= i < nw.stack.len() && nw.stack[i].id == y2;
                if i < nw.stack.len() - 1 {
                    assert(a0.stack[i].id == y2);
                }
            }
            assert forall|b: int|
                0 <= b < oldview.workspaces.len() && b != a implies !stack_has_id(
                (#[trigger] oldview.workspaces[b]).stack,
                id,
            ) by {
                if stack_has_id(oldview.workspaces[b].stack, id) {
                    assert(oldview.managed_anywhere(id));
                }
            }
            lemma_disjoint_after_update(oldview.workspaces, a as int, nw, id);
        }

        cmds
    }

    /// A managed window disappeared: remove its client from both orders of
    /// whichever workspace holds it, give the window back to the root, and
    /// refocus if the active workspace lost it.  Unmanaged windows are
    /// ignored.
    pub fn handle_unmap_notify(&mut self, window: u32) -> (cmds: Vec<Command>)
        requires
            old(self)@.wf(),
        ensures
            final(self)@.wf(),
            final(self)@ == unmap_state(old(self)@, window),
            cmds@ == unmap_cmds(old(self)@, window),
    {
        let ghost oldview = self@;
        let mut cmds: Vec<Command> = Vec::new();

        let found = self.find_client(window);

        let (w, i) = match found {
            Some(wi) => wi,
            None => {
                proof {
                    assert(!oldview.managed_anywhere(window));
                    assert(cmds@ =~= unmap_cmds(oldview, window));
                }
                return cmds;
            },
        };

        proof {
            assert(stack_has_id(oldview.workspaces[w as int].stack, window)) by {
                assert(oldview.workspaces[w as int].stack[i as int].id == window);
            }
            assert(oldview.managed_anywhere(window));
            assert(owner_of(oldview, window) == w) by {
                let o = owner_of(oldview, window);
                assert(stack_has_id(oldview.workspaces[o].stack, window));
                if o != w {
                    assert(!stack_has_id(oldview.workspaces[w as int].stack, window));
                }
            }
            assert(i == stack_index_of_id(oldview.workspaces[w as int].stack, window)) by {
                let k = stack_index_of_id(oldview.workspaces[w as int].stack, window);
                assert(oldview.workspaces[w as int].stack[k].id == window);
            }
        }

        let ws = &mut self.workspaces[w];
        let client = ws.remove_client(i);

        client.release_commands(&mut cmds);
        cmds.push(Command::NotifyTopPanel);

        let ghost removedws = self@.workspaces[w as int];

        if w == self.active_workspace_index {
            let focus = if self.workspaces[w].stack.len() > 0 {
                let l = self.workspaces[w].stack.len() - 1;
                Some(self.workspaces[w].stack[l].id)
            } else {
                None
            };

            proof {
                let removed = oldview.workspaces[w as int].stack.remove(i as int);
                assert(focus == (if removed.len() > 0 {
                    Some(removed.last().id)
                } else {
                    None::<u32>
                })) by {
                    if removed.len() > 0 {
                        assert(self.workspaces@[w as int]@.stack[removed.len() - 1]
                            == self.workspaces@[w as int].stack@[removed.len() - 1]@);
                    }
                }
            }

            if self.workspaces[w].stack.len() > 0 {
                let l = self.workspaces[w].stack.len() - 1;
                let ws2 = &mut self.workspaces[w];
                ws2.mark_dirty_at(l);
            }

            cmds.push(Command::SetFocus(focus));
            cmds.push(Command::NotifyBottomPanel);
        }

        proof {
            let after = unmap_state(oldview, window).workspaces[w as int];
            assert(self@.workspaces[w as int].stack =~= after.stack);
            assert(self@.workspaces[w as int] == after);
            assert(self@.workspaces =~= oldview.workspaces.update(w as int, after));
            assert(self@ == unmap_state(oldview, window));
            assert(cmds@ =~= unmap_cmds(oldview, window));

            let oldstack = oldview.workspaces[w as int].stack;
            oldstack.remove_ensures(i as int);
            assert forall|y2: u32| #[trigger]
                stack_has_id(after.stack, y2) implies stack_has_id(oldstack, y2) by {
                let k = choose|k: int| 0 <= k < after.stack.len() && after.stack[k].id == y2;
                if k < i {
                    assert(oldstack[k].id == y2);
                } else {
                    assert(oldstack[k + 1].id == y2);
                }
            }
            lemma_disjoint_after_permute(oldview.workspaces, w as int, after);

            assert(after.wf()) by {
                let removed = oldstack.remove(i as int);
                lemma_stack_same_ids(removed, after.stack);
                assert(forall|k: int|
                    0 <= k < after.stack.len() ==> (#[trigger] after.stack[k]).wf());
            }
        }

        cmds
    }

    /// Resolve one key press to its logical command and carry it out.
    pub fn handle_key_press(&mut self, keycode: Keycode, shift: bool) -> (cmds: Vec<Command>)
        requires
            old(self)@.wf(),
        ensures
            final(self)@.wf(),
            final(self)@ == key_press_state(old(self)@, keycode, shift),
            cmds@ == key_press_cmds(old(self)@, keycode, shift),
    {
        let ghost oldview = self@;

        let number: Option<usize> = match keycode {
            Keycode::Number1 => Some(0),
            Keycode::Number2 => Some(1),
            Keycode::Number3 => Some(2),
            Keycode::Number4 => Some(3),
            Keycode::Number5 => Some(4),
            Keycode::Number6 => Some(5),
            Keycode::Number7 => Some(6),
            Keycode::Number8 => Some(7),
            Keycode::Number9 => Some(8),
            _ => None,
        };

        if let Some(n) = number {
            if shift {
                return self.move_active_client_to_workspace(n);
            } else {
                return self.change_active_workspace(n);
            }
        }

        match keycode {
            Keycode::Escape => {
                let mut cmds: Vec<Command> = Vec::new();
                cmds.push(Command::SaveAndRestart);
                proof {
                    assert(cmds@ =~= key_press_cmds(oldview, keycode, shift));
                }
                cmds
            },
            Keycode::K => {
                if shift {
                    self.move_active_client_forward_in_tasklist()
                } else {
                    self.raise_next_tasklist_client()
                }
            },
            Keycode::J => {
                if shift {
                    self.move_active_client_backward_in_tasklist()
                } else {
                    self.raise_previous_tasklist_client()
                }
            },
            Keycode::Right => {
                let n = cycle_next(self.workspaces.as_slice(), self.active_workspace_index);
                self.change_active_workspace(n)
            },
            Keycode::Left => {
                let n = cycle_previous(self.workspaces.as_slice(), self.active_workspace_index);
                self.change_active_workspace(n)
            },
            Keycode::X => {
                let mut cmds: Vec<Command> = Vec::new();
                let a = self.active_workspace_index;
                let len = self.workspaces[a].stack.len();
                if len > 0 {
                    let fid = self.workspaces[a].stack[len - 1].id;
                    cmds.push(Command::AskWindowToClose(fid));
                }
                proof {
                    assert(cmds@ =~= key_press_cmds(oldview, keycode, shift));
                }
                cmds
            },
            Keycode::M => {
                let mut cmds: Vec<Command> = Vec::new();
                let a = self.active_workspace_index;
                let len = self.workspaces[a].stack.len();
                if len > 0 {
                    let screen = self.screen;
                    let ws = &mut self.workspaces[a];
                    ws.toggle_maximized_at(len - 1, screen, &mut cmds);
                    proof {
                        let nw = toggle_maximize_state(oldview).active();
                        assert(self@.workspaces[a as int].stack =~= nw.stack);
                        assert(self@.workspaces[a as int] == nw);
                        assert(self@.workspaces =~= oldview.workspaces.update(a as int, nw));
                        assert(self@ == toggle_maximize_state(oldview));
                        lemma_stack_same_ids(oldview.active().stack, nw.stack);
                        lemma_disjoint_after_permute(oldview.workspaces, a as int, nw);
                        assert(cmds@ =~= key_press_cmds(oldview, keycode, shift));
                    }
                } else {
                    proof {
                        assert(self@ == toggle_maximize_state(oldview));
                        assert(cmds@ =~= key_press_cmds(oldview, keycode, shift));
                    }
                }
                cmds
            },
            _ => {
                let cmds: Vec<Command> = Vec::new();
                proof {
                    assert(cmds@ =~= key_press_cmds(oldview, keycode, shift));
                }
                cmds
            },
        }
    }

    /// A pointer button was pressed on a window of the active workspace:
    /// raise the designated client (replaying the click first when it
    /// landed on the content window) and, for a qualifying press on a
    /// non-maximized client, start the move or resize drag.
    #[verifier::rlimit(60)]
    pub fn handle_button_press(
        &mut self,
        event_window: u32,
        button: MouseButton,
        mod4: bool,
        event_x: i16,
        event_y: i16,
        root_x: i16,
        root_y: i16,
    ) -> (cmds: Vec<Command>)
        requires
            old(self)@.wf(),
            0 <= root_x,
            0 <= root_y,
            0 <= event_x,
            0 <= event_y,
            button_press_req(old(self)@, event_window, button, mod4),
        ensures
            final(self)@.wf(),
            final(self)@ == button_press_state(
                old(self)@,
                event_window,
                button,
                mod4,
                event_x,
                event_y,
                root_x,
                root_y,
            ),
            cmds@ == button_press_cmds(
                old(self)@,
                event_window,
                button,
                mod4,
                event_x,
                event_y,
            ),
    {
        let ghost oldview = self@;
        let mut cmds: Vec<Command> = Vec::new();
        let a = self.active_workspace_index;

        let i = match self.workspaces[a].find_stack_index_by_window(event_window) {
            Some(i) => i,
            None => {
                proof {
                    assert(!has_window_match(oldview.active().stack, event_window));
                    assert(cmds@ =~= button_press_cmds(
                        oldview,
                        event_window,
                        button,
                        mod4,
                        event_x,
                        event_y,
                    ));
                }
                return cmds;
            },
        };

        proof {
            let stack = oldview.active().stack;
            assert(has_window_match(stack, event_window)) by {
                assert(window_match(stack[i as int], event_window));
            }
            assert(i == first_window_match(stack, event_window)) by {
                let f = first_window_match(stack, event_window);
                assert(0 <= f < stack.len() && window_match(stack[f], event_window) && (forall|
                    j: int,
                |
                    0 <= j < f ==> !window_match(#[trigger] stack[j], event_window))) by {
                    assert(0 <= i < stack.len() && window_match(stack[i as int], event_window)
                        && (forall|j: int|
                        0 <= j < i ==> !window_match(#[trigger] stack[j], event_window)));
                }
                if f < i {
                    assert(!window_match(stack[f], event_window));
                } else if f > i {
                    assert(!window_match(stack[i as int], event_window));
                }
            }
        }

        let on_container = self.workspaces[a].stack[i].container_id == event_window;
        let is_primary = match button {
            MouseButton::Primary => true,
            _ => false,
        };
        let is_secondary = match button {
            MouseButton::Secondary => true,
            _ => false,
        };

        if on_container && !(is_primary || (is_secondary && mod4)) {
            proof {
                assert(cmds@ =~= button_press_cmds(
                    oldview,
                    event_window,
                    button,
                    mod4,
                    event_x,
                    event_y,
                ));
            }
            return cmds;
        }

        if !on_container {
            cmds.push(Command::ReplayPointer);
        }

        let ghost c = oldview.active().stack[i as int];
        let cx = self.workspaces[a].stack[i].x;
        let cy = self.workspaces[a].stack[i].y;
        let cw = self.workspaces[a].stack[i].width;
        let ch = self.workspaces[a].stack[i].height;
        let cmax = self.workspaces[a].stack[i].maximized;

        let mut rcmds = self.raise_client(i);
        cmds.append(&mut rcmds);

        if cmax {
            proof {
                assert(cmds@ =~= button_press_cmds(
                    oldview,
                    event_window,
                    button,
                    mod4,
                    event_x,
                    event_y,
                ));
            }
            return cmds;
        }

        let on_titlebar = (BORDER_WIDTH as i32 <= event_x as i32 && event_x as i32
            <= BORDER_WIDTH as i32 + cw as i32) && (BORDER_WIDTH as i32 <= event_y as i32
            && event_y as i32 <= (BORDER_WIDTH + TITLEBAR_HEIGHT) as i32);

        proof {
            assert(on_titlebar == on_titlebar_spec(c, event_x, event_y));
        }

        if is_primary && (mod4 || (on_container && on_titlebar)) {
            self.drag_state = Some(
                DragState { kind: DragKind::Move, x: root_x as u16, y: root_y as u16 },
            );
        } else if is_secondary && mod4 {
            let corner_x = (cx as i32 + cw as i32) as u16;
            let corner_y = (cy as i32 + ch as i32) as u16;
            cmds.push(Command::MovePointer(corner_x, corner_y));
            self.drag_state = Some(
                DragState { kind: DragKind::Resize, x: corner_x, y: corner_y },
            );
        }

        proof {
            assert(self@ == button_press_state(
                oldview,
                event_window,
                button,
                mod4,
                event_x,
                event_y,
                root_x,
                root_y,
            ));
            assert(cmds@ =~= button_press_cmds(
                oldview,
                event_window,
                button,
                mod4,
                event_x,
                event_y,
            ));
        }

        cmds
    }

    /// The pointer moved during a drag: apply the incremental delta from
    /// the last recorded position to the dragged client, and record the new
    /// position.  Without a drag in progress, or with the pointer over no
    /// managed window of the active workspace, nothing happens.
    pub fn handle_motion_notify(&mut self, event_window: u32, root_x: i16, root_y: i16) -> (cmds:
        Vec<Command>)
        requires
            old(self)@.wf(),
            0 <= root_x,
            0 <= root_y,
            motion_req(old(self)@, event_window, root_x, root_y),
        ensures
            final(self)@.wf(),
            final(self)@ == motion_state(old(self)@, event_window, root_x, root_y),
            cmds@ == motion_cmds(old(self)@, event_window, root_x, root_y),
    {
        let ghost oldview = self@;
        let mut cmds: Vec<Command> = Vec::new();

        let ds = match self.drag_state {
            Some(ds) => ds,
            None => {
                proof {
                    assert(cmds@ =~= motion_cmds(oldview, event_window, root_x, root_y));
                }
                return cmds;
            },
        };

        let a = self.active_workspace_index;

        let i = match self.workspaces[a].find_stack_index_by_window(event_window) {
            Some(i) => i,
            None => {
                proof {
                    assert(!has_window_match(oldview.active().stack, event_window));
                    assert(cmds@ =~= motion_cmds(oldview, event_window, root_x, root_y));
                }
                return cmds;
            },
        };

        proof {
            let stack = oldview.active().stack;
            assert(has_window_match(stack, event_window)) by {
                assert(window_match(stack[i as int], event_window));
            }
            assert(i == first_window_match(stack, event_window)) by {
                let f = first_window_match(stack, event_window);
                assert(0 <= f < stack.len() && window_match(stack[f], event_window) && (forall|
                    j: int,
                |
                    0 <= j < f ==> !window_match(#[trigger] stack[j], event_window))) by {
                    assert(0 <= i < stack.len() && window_match(stack[i as int], event_window)
                        && (forall|j: int|
                        0 <= j < i ==> !window_match(#[trigger] stack[j], event_window)));
                }
                if f < i {
                    assert(!window_match(stack[f], event_window));
                } else if f > i {
                    assert(!window_match(stack[i as int], event_window));
                }
            }
        }

        let dx = root_x - (ds.x as i16);
        let dy = root_y - (ds.y as i16);

        match ds.kind {
            DragKind::Move => {
                let cx = self.workspaces[a].stack[i].x;
                let cy = self.workspaces[a].stack[i].y;
                let ws = &mut self.workspaces[a];
                ws.set_position_at(i, cx + dx, cy + dy, &mut cmds);
            },
            DragKind::Resize => {
                let cw = self.workspaces[a].stack[i].width;
                let ch = self.workspaces[a].stack[i].height;
                let tw = cw as i16 + dx;
                let th = ch as i16 + dy;
                let nw = if tw < 1 {
                    1u16
                } else {
                    tw as u16
                };
                let nh = if th < 1 {
                    1u16
                } else {
                    th as u16
                };
                let screen = self.screen;
                let ws = &mut self.workspaces[a];
                ws.set_size_at(i, nw, nh, screen, &mut cmds);
            },
        }

        self.drag_state = Some(DragState { kind: ds.kind, x: root_x as u16, y: root_y as u16 });

        proof {
            let nv = motion_state(oldview, event_window, root_x, root_y);
            assert(self@.workspaces[a as int].stack =~= nv.workspaces[a as int].stack);
            assert(self@.workspaces[a as int] == nv.workspaces[a as int]);
            assert(self@.workspaces =~= nv.workspaces);
            assert(self@ == nv);
            assert(cmds@ =~= motion_cmds(oldview, event_window, root_x, root_y));

            let nw2 = nv.workspaces[a as int];
            lemma_stack_same_ids(oldview.active().stack, nw2.stack);
            lemma_disjoint_after_permute(oldview.workspaces, a as int, nw2);
        }

        cmds
    }

    /// Any button release ends the drag, unconditionally.
    pub fn handle_button_release(&mut self)
        requires
            old(self)@.wf(),
        ensures
            final(self)@.wf(),
            final(self)@ == (WmView { drag_state: None, ..old(self)@ }),
    {
        self.drag_state = None;
    }

    /// A window property changed: record the re-queried value on the
    /// owning client, wherever it lives, and repaint the panel it shows
    /// on.  Unmanaged windows are ignored.
    pub fn handle_property_notify(&mut self, window: u32, change: PropertyChange) -> (cmds: Vec<
        Command,
    >)
        requires
            old(self)@.wf(),
        ensures
            final(self)@.wf(),
            final(self)@ == property_state(old(self)@, window, change@),
            cmds@ == property_cmds(old(self)@, window, change@),
    {
        let ghost oldview = self@;
        let ghost changeview = change@;
        let mut cmds: Vec<Command> = Vec::new();

        let (w, i) = match self.find_client(window) {
            Some(wi) => wi,
            None => {
                proof {
                    assert(cmds@ =~= property_cmds(oldview, window, changeview));
                }
                return cmds;
            },
        };

        proof {
            assert(stack_has_id(oldview.workspaces[w as int].stack, window)) by {
                assert(oldview.workspaces[w as int].stack[i as int].id == window);
            }
            assert(oldview.managed_anywhere(window));
            assert(owner_of(oldview, window) == w) by {
                let o = owner_of(oldview, window);
                assert(stack_has_id(oldview.workspaces[o].stack, window));
                if o != w {
                    assert(!stack_has_id(oldview.workspaces[w as int].stack, window));
                }
            }
            assert(i == stack_index_of_id(oldview.workspaces[w as int].stack, window)) by {
                let k = stack_index_of_id(oldview.workspaces[w as int].stack, window);
                assert(oldview.workspaces[w as int].stack[k].id == window);
            }
        }

        let is_class = match &change {
            PropertyChange::Class(_) => true,
            _ => false,
        };

        {
            let ws = &mut self.workspaces[w];
            match change {
                PropertyChange::Class(x) => ws.set_class_at(i, x),
                PropertyChange::Title(x) => ws.set_title_at(i, x),
                PropertyChange::Icon(x) => ws.set_icon_at(i, x),
            }
        }

        if is_class {
            cmds.push(Command::NotifyTopPanel);
        } else if w == self.active_workspace_index {
            cmds.push(Command::NotifyBottomPanel);
        }

        proof {
            let nv = property_state(oldview, window, changeview);
            assert(self@.workspaces[w as int].stack =~= nv.workspaces[w as int].stack);
            assert(self@.workspaces[w as int] == nv.workspaces[w as int]);
            assert(self@.workspaces =~= nv.workspaces);
            assert(self@ == nv);
            assert(cmds@ =~= property_cmds(oldview, window, changeview));

            let nw2 = nv.workspaces[w as int];
            lemma_stack_same_ids(oldview.workspaces[w as int].stack, nw2.stack);
            lemma_disjoint_after_permute(oldview.workspaces, w as int, nw2);
        }

        cmds
    }

    /// A window asked for new geometry: forward an unmanaged window's
    /// request verbatim, honour a managed client's width and height through
    /// its policy-aware resize, and drop a managed position-only request.
    pub fn handle_configure_request(
        &mut self,
        window: u32,
        has_width: bool,
        has_height: bool,
        width: u16,
        height: u16,
    ) -> (cmds: Vec<Command>)
        requires
            old(self)@.wf(),
            width <= MAX_CLIENT_WIDTH,
            height <= MAX_CLIENT_HEIGHT,
        ensures
            final(self)@.wf(),
            final(self)@ == configure_state(old(self)@, window, has_width, has_height, width, height),
            cmds@ == configure_cmds(old(self)@, window, has_width, has_height, width, height),
    {
        let ghost oldview = self@;
        let mut cmds: Vec<Command> = Vec::new();

        let (w, i) = match self.find_client(window) {
            Some(wi) => wi,
            None => {
                cmds.push(Command::ForwardConfigureRequest);
                proof {
                    assert(cmds@ =~= configure_cmds(
                        oldview,
                        window,
                        has_width,
                        has_height,
                        width,
                        height,
                    ));
                }
                return cmds;
            },
        };

        proof {
            assert(stack_has_id(oldview.workspaces[w as int].stack, window)) by {
                assert(oldview.workspaces[w as int].stack[i as int].id == window);
            }
            assert(oldview.managed_anywhere(window));
            assert(owner_of(oldview, window) == w) by {
                let o = owner_of(oldview, window);
                assert(stack_has_id(oldview.workspaces[o].stack, window));
                if o != w {
                    assert(!stack_has_id(oldview.workspaces[w as int].stack, window));
                }
            }
            assert(i == stack_index_of_id(oldview.workspaces[w as int].stack, window)) by {
                let k = stack_index_of_id(oldview.workspaces[w as int].stack, window);
                assert(oldview.workspaces[w as int].stack[k].id == window);
            }
        }

        if !has_width && !has_height {
            proof {
                assert(cmds@ =~= configure_cmds(
                    oldview,
                    window,
                    has_width,
                    has_height,
                    width,
                    height,
                ));
            }
            return cmds;
        }

        let screen = self.screen;
        let ws = &mut self.workspaces[w];
        ws.set_size_at(i, width, height, screen, &mut cmds);

        proof {
            let nv = configure_state(oldview, window, has_width, has_height, width, height);
            assert(self@.workspaces[w as int].stack =~= nv.workspaces[w as int].stack);
            assert(self@.workspaces[w as int] == nv.workspaces[w as int]);
            assert(self@.workspaces =~= nv.workspaces);
            assert(self@ == nv);
            assert(cmds@ =~= configure_cmds(oldview, window, has_width, has_height, width, height));

            let nw2 = nv.workspaces[w as int];
            lemma_stack_same_ids(oldview.workspaces[w as int].stack, nw2.stack);
            lemma_disjoint_after_permute(oldview.workspaces, w as int, nw2);
        }

        cmds
    }

    /// Collect the repaint requests of the active workspace's dirty,
    /// non-maximized clients, clearing their flags; only the topmost client
    /// is painted as active.
    pub fn request_redraw(&mut self) -> (reqs: Vec<crate::client::RedrawRequest>)
        requires
            old(self)@.wf(),
        ensures
            final(self)@.wf(),
            final(self)@ == (WmView {
                workspaces: old(self)@.workspaces.update(
                    old(self)@.active_workspace_index,
                    (WorkspaceView {
                        stack: redrawn_stack(old(self)@.active().stack),
                        tasklist: old(self)@.active().tasklist,
                    }),
                ),
                ..old(self)@
            }),
            reqs@ == redraw_list(old(self)@.active().stack, 0),
    {
        let ghost oldview = self@;
        let ghost stack0 = oldview.active().stack;
        let mut reqs: Vec<crate::client::RedrawRequest> = Vec::new();
        let a = self.active_workspace_index;
        let len = self.workspaces[a].stack.len();
        let mut i: usize = 0;

        while i < len
            invariant
                i <= len,
                a < WORKSPACE_COUNT,
                a as int == oldview.active_workspace_index,
                oldview.wf(),
                len == stack0.len(),
                stack0 == oldview.active().stack,
                self.workspaces@.len() == WORKSPACE_COUNT,
                self.active_workspace_index == a,
                self.drag_state == oldview.drag_state,
                self.screen == oldview.screen,
                forall|w: int|
                    0 <= w < WORKSPACE_COUNT && w != a ==> #[trigger] self.workspaces@[w]@
                        == oldview.workspaces[w],
                self.workspaces@[a as int]@.tasklist == oldview.active().tasklist,
                self.workspaces@[a as int]@.stack.len() == len,
                self.workspaces@[a as int]@.wf(),
                forall|j: int|
                    0 <= j < i ==> #[trigger] self.workspaces@[a as int]@.stack[j]
                        == redrawn_stack(stack0)[j],
                forall|j: int|
                    i <= j < len ==> #[trigger] self.workspaces@[a as int]@.stack[j]
                        == stack0[j],
                reqs@ + redraw_list(stack0, i as int) == redraw_list(stack0, 0),
            decreases len - i,
        {
            let is_active = i == len - 1;
            let ws = &mut self.workspaces[a];
            let r = ws.request_redraw_at(i, is_active);

            match r {
                Some(req) => {
                    reqs.push(req);
                },
                None => {},
            }

            proof {
                assert(reqs@ + redraw_list(stack0, i + 1) =~= redraw_list(stack0, 0));
            }

            i = i + 1;
        }

        proof {
            assert(reqs@ =~= redraw_list(stack0, 0));
            let nw = WorkspaceView {
                stack: redrawn_stack(stack0),
                tasklist: oldview.active().tasklist,
            };
            assert(self.workspaces@[a as int]@.stack =~= redrawn_stack(stack0));
            assert(self@.workspaces =~= oldview.workspaces.update(a as int, nw));
            assert(self@ == (WmView {
                workspaces: oldview.workspaces.update(a as int, nw),
                ..oldview
            }));
            lemma_stack_same_ids(stack0, nw.stack);
            lemma_disjoint_after_permute(oldview.workspaces, a as int, nw);
        }

        reqs
    }

    /// Serialize the whole state into a session snapshot, which always
    /// passes the consistency screen.
    pub fn serialize(&self) -> (r: SavedState)
        requires
            self@.wf(),
        ensures
            r@ == saved_of(self@),
    {
        let mut workspaces: Vec<SavedWorkspace> = Vec::new();
        let mut w: usize = 0;

        while w < self.workspaces.len()
            invariant
                w <= self@.workspaces.len(),
                self@.workspaces.len() == self.workspaces@.len(),
                workspaces@.len() == w,
                forall|v: int|
                    0 <= v < w ==> (#[trigger] workspaces@[v])@ == saved_of(self@).workspaces[v],
            decreases self@.workspaces.len() - w,
        {
            let mut stack: Vec<SavedClient> = Vec::new();
            let mut i: usize = 0;

            while i < self.workspaces[w].stack.len()
                invariant
                    w < self@.workspaces.len(),
                    self@.workspaces.len() == self.workspaces@.len(),
                    i <= self@.workspaces[w as int].stack.len(),
                    stack@.len() == i,
                    forall|k: int|
                        0 <= k < i ==> #[trigger] stack@[k] == saved_of(self@).workspaces[
                            w as int
                        ].stack[k],
                decreases self@.workspaces[w as int].stack.len() - i,
            {
                let c = &self.workspaces[w].stack[i];
                stack.push(SavedClient {
                    id: c.id,
                    x: c.x,
                    y: c.y,
                    width: c.width,
                    height: c.height,
                    maximized: c.maximized,
                });
                proof {
                    assert(self.workspaces@[w as int].stack@[i as int]@ == self@.workspaces[
                        w as int
                    ].stack[i as int]);
                }
                i = i + 1;
            }

            let mut tasklist: Vec<u32> = Vec::new();
            let mut t: usize = 0;

            while t < self.workspaces[w].tasklist.len()
                invariant
                    w < self@.workspaces.len(),
                    self@.workspaces.len() == self.workspaces@.len(),
                    t <= self@.workspaces[w as int].tasklist.len(),
                    tasklist@ == self@.workspaces[w as int].tasklist.take(t as int),
                decreases self@.workspaces[w as int].tasklist.len() - t,
            {
                tasklist.push(self.workspaces[w].tasklist[t]);
                proof {
                    assert(tasklist@ =~= self@.workspaces[w as int].tasklist.take(t + 1));
                }
                t = t + 1;
            }

            proof {
                assert(tasklist@ =~= self@.workspaces[w as int].tasklist);
            }

            workspaces.push(SavedWorkspace { stack, tasklist });

            proof {
                assert(workspaces@[w as int]@.stack =~= saved_of(self@).workspaces[
                    w as int
                ].stack);
                assert(workspaces@[w as int]@ == saved_of(self@).workspaces[w as int]);
            }

            w = w + 1;
        }

        let r = SavedState { workspaces, active_workspace_index: self.active_workspace_index };

        proof {
            assert(r@.workspaces =~= saved_of(self@).workspaces);
            assert(r@ == saved_of(self@));
        }

        r
    }
}


/// The two-order invariant, for every workspace of every well-formed
/// state: stack and tasklist hold exactly the same client identities, each
/// exactly once, and are therefore equally long.  Every handler of this
/// crate both requires and re-establishes well-formedness, so this holds
/// at all times.
pub proof fn lemma_two_order_invariant(v: WmView, w: int)
    requires
        v.wf(),
        0 <= w < v.workspaces.len(),
    ensures
        forall|id: u32|
            #![trigger v.workspaces[w].tasklist.contains(id)]
            #![trigger stack_has_id(v.workspaces[w].stack, id)]
            v.workspaces[w].tasklist.contains(id) <==> stack_has_id(v.workspaces[w].stack, id),
        v.workspaces[w].stack.len() == v.workspaces[w].tasklist.len(),
        stack_ids_distinct(v.workspaces[w].stack),
        v.workspaces[w].tasklist.no_duplicates(),
{
}

/// The focused client of a workspace, whenever there is one, is exactly
/// the last element of its stack.
pub proof fn lemma_focused_is_topmost(w: WorkspaceView)
    requires
        w.stack.len() > 0,
    ensures
        w.focused() == Some(w.stack.last().id),
{
}

/// Every snapshot a well-formed state serializes to passes the consistency
/// screen, so a session written before a restart is always accepted when
/// read back.
pub proof fn lemma_serialized_snapshot_consistent(v: WmView)
    requires
        v.wf(),
    ensures
        saved_of(v).consistent(),
{
    let s = saved_of(v);
    assert forall|w: int|
        0 <= w < s.workspaces.len() implies (#[trigger] s.workspaces[w]).consistent() by {
        let sw = s.workspaces[w];
        let ws = v.workspaces[w];
        assert(forall|i: int| 0 <= i < sw.stack.len() ==> (#[trigger] sw.stack[i]).id
            == ws.stack[i].id);
        assert(crate::session::saved_ids_distinct(sw.stack)) by {
            assert forall|i: int, j: int| 0 <= i < j < sw.stack.len() implies (#[trigger] sw.stack[
                i
            ]).id != (#[trigger] sw.stack[j]).id by {
                assert(ws.stack[i].id != ws.stack[j].id);
            }
        }
        assert forall|id: u32|
            #![trigger sw.tasklist.contains(id)]
            #![trigger crate::session::saved_has_id(sw.stack, id)]
            sw.tasklist.contains(id) <==> crate::session::saved_has_id(sw.stack, id) by {
            assert(sw.tasklist == ws.tasklist);
            if sw.tasklist.contains(id) {
                assert(stack_has_id(ws.stack, id));
                let i = choose|i: int| 0 <= i < ws.stack.len() && ws.stack[i].id == id;
                assert(sw.stack[i].id == id);
            }
            if crate::session::saved_has_id(sw.stack, id) {
                let i = choose|i: int|
                    0 <= i < sw.stack.len() && (#[trigger] sw.stack[i]).id == id;
                assert(ws.stack[i].id == id);
                assert(stack_has_id(ws.stack, id));
            }
        }
        assert forall|i: int| 0 <= i < sw.stack.len() implies (#[trigger] sw.stack[i]).wf() by {
            assert(ws.stack[i].wf());
        }
    }
    assert forall|a: int, b: int, id: u32|
        0 <= a < s.workspaces.len() && 0 <= b < s.workspaces.len() && a != b && #[trigger]
        crate::session::saved_has_id(s.workspaces[a].stack, id) implies !(#[trigger]
    crate::session::saved_has_id(s.workspaces[b].stack, id)) by {
        assert(stack_has_id(v.workspaces[a].stack, id)) by {
            let i = choose|i: int|
                0 <= i < s.workspaces[a].stack.len() && (#[trigger] s.workspaces[a].stack[i]).id
                    == id;
            assert(v.workspaces[a].stack[i].id == id);
        }
        if crate::session::saved_has_id(s.workspaces[b].stack, id) {
            assert(stack_has_id(v.workspaces[b].stack, id)) by {
                let i = choose|i: int|
                    0 <= i < s.workspaces[b].stack.len() && (#[trigger] s.workspaces[
                        b
                    ].stack[i]).id == id;
                assert(v.workspaces[b].stack[i].id == id);
            }
        }
    }
}

/// Raising the already-topmost client is a no-op: the state is unchanged
/// and no command at all is issued.
pub proof fn lemma_raise_topmost_noop(v: WmView)
    requires
        v.wf(),
        v.active().stack.len() > 0,
    ensures
        raise_client_state(v, v.active().stack.len() - 1) == v,
        raise_client_cmds(v, v.active().stack.len() - 1) == Seq::<Command>::empty(),
{
}

/// After raising any other client it is exactly the focused, topmost one,
/// and the focus command issued names it: the focused client is always the
/// last stack element.
/// A map request for an unmanaged window focuses the new client, which
/// ends as the topmost element of the active stack, and the focus command
/// issued names it.
pub proof fn lemma_map_request_focuses_new_client(
    v: WmView,
    id: u32,
    container_id: u32,
    geom_width: u16,
    geom_height: u16,
    class: Option<Seq<char>>,
    title: Option<Seq<char>>,
    icon: Option<IconView>,
)
    requires
        v.wf(),
        !v.managed_anywhere(id),
    ensures
        map_request_state(
            v,
            id,
            container_id,
            geom_width,
            geom_height,
            class,
            title,
            icon,
        ).active().focused() == Some(id),
        map_request_cmds(v, id, container_id, geom_width, geom_height, class, title, icon)
            .contains(Command::SetFocus(Some(id))),
{
    let cmds = map_request_cmds(v, id, container_id, geom_width, geom_height, class, title, icon);
    let c = map_request_client(v, id, container_id, geom_width, geom_height, class, title, icon);
    let pre = if geom_width == v.screen.width && geom_height != v.screen.usable_height_spec() {
        1int
    } else {
        0int
    };
    let setup = crate::client::init_cmds(c, v.screen).len();
    assert(cmds[pre + setup + 2] == Command::SetFocus(Some(id)));
}

/// A switch to another workspace focuses that workspace's topmost client
/// (or the root when it is empty), and the focus command issued names it.
pub proof fn lemma_workspace_switch_focuses_target_topmost(v: WmView, index: int)
    requires
        v.wf(),
        0 <= index < WORKSPACE_COUNT,
        index != v.active_workspace_index,
    ensures
        change_workspace_state(v, index).active().focused() == v.workspaces[index].focused(),
        change_workspace_cmds(v, index)[v.workspaces[index].stack.len() as int]
            == Command::SetFocus(v.workspaces[index].focused()),
{
    let nv = change_workspace_state(v, index);
    if v.workspaces[index].stack.len() > 0 {
        let l = v.workspaces[index].stack.len() - 1;
        assert(nv.active().stack[l] == marked_dirty(v.workspaces[index].stack[l]));
    }
}

/// When the active workspace loses a managed window, the focus command
/// issued names the uncovered topmost client of the state left behind (or
/// the root when the workspace emptied).
pub proof fn lemma_unmap_refocuses_uncovered_topmost(v: WmView, id: u32)
    requires
        v.wf(),
        v.managed_anywhere(id),
        owner_of(v, id) == v.active_workspace_index,
    ensures
        unmap_cmds(v, id)[4] == Command::SetFocus(unmap_state(v, id).active().focused()),
{
    let w = v.workspaces[owner_of(v, id)];
    let i = stack_index_of_id(w.stack, id);
    let removed = w.stack.remove(i);
    let nv = unmap_state(v, id);
    assert(stack_has_id(w.stack, id)) by {
        let o = choose|o: int|
            0 <= o < v.workspaces.len() && stack_has_id((#[trigger] v.workspaces[o]).stack, id);
        if o != owner_of(v, id) {
            assert(stack_has_id(v.workspaces[owner_of(v, id)].stack, id));
        }
    }
    assert(0 <= i < w.stack.len()) by {
        assert(w.stack[i].id == id);
    }
    if removed.len() > 0 {
        assert(nv.active().stack[removed.len() - 1] == marked_dirty(removed.last()));
    }
    assert(unmap_cmds(v, id)[4] == Command::SetFocus(nv.active().focused()));
}

/// When the focused client moves to another workspace, the focus command
/// issued names the uncovered topmost client the active workspace is left
/// with (or the root when it emptied).
pub proof fn lemma_move_refocuses_uncovered_topmost(v: WmView, to: int)
    requires
        v.wf(),
        v.active().stack.len() > 0,
        0 <= to < WORKSPACE_COUNT,
        to != v.active_workspace_index,
    ensures
        move_active_cmds(v)[4] == Command::SetFocus(move_active_state(v, to).active().focused()),
{
    let a = v.active();
    let popped = a.stack.drop_last();
    let nv = move_active_state(v, to);
    assert(nv.active() == source_after_move(a));
    if popped.len() > 0 {
        assert(nv.active().stack[popped.len() - 1] == marked_dirty(popped.last()));
        assert(popped.last() == a.stack[a.stack.len() - 2]);
    }
}

pub proof fn lemma_raise_focuses_topmost(v: WmView, idx: int)
    requires
        v.wf(),
        0 <= idx < v.active().stack.len() - 1,
    ensures
        raise_client_state(v, idx).active().stack.len() == v.active().stack.len(),
        raise_client_state(v, idx).active().focused() == Some(v.active().stack[idx].id),
        raise_client_cmds(v, idx)[3] == Command::SetFocus(Some(v.active().stack[idx].id)),
{
    let raised = raise_client_state(v, idx);
    let stack = v.active().stack;
    let rest = stack.remove(idx);
    stack.remove_ensures(idx);
    assert(raised.active() == v.workspaces.update(
        v.active_workspace_index,
        raised.workspaces[v.active_workspace_index],
    )[v.active_workspace_index]);
    assert(raised.active().stack == v.active().raised_stack(idx));
    assert(v.active().raised_stack(idx).last() == crate::workspace::marked_dirty(stack[idx]));
}

} // verus!
