use vaporwm::client::Client;
use vaporwm::command::Command;
use vaporwm::command::Keycode;
use vaporwm::command::MouseButton;
use vaporwm::config::ScreenInfo;
use vaporwm::session::SavedClient;
use vaporwm::session::SavedState;
use vaporwm::session::SavedWorkspace;
use vaporwm::startup::ExistingWindow;
use vaporwm::wm::DragKind;
use vaporwm::wm::PropertyChange;
use vaporwm::wm::Wm;
use vaporwm::workspace::Workspace;

fn screen() -> ScreenInfo {
    ScreenInfo { width: 1920, height: 1080 }
}

fn plain_client(id: u32, container_id: u32, x: i16, y: i16, width: u16, height: u16) -> Client {
    Client {
        id,
        container_id,
        x,
        y,
        width,
        height,
        maximized: false,
        need_redraw: false,
        class: None,
        title: None,
        icon: None,
    }
}

fn empty_wm() -> Wm {
    let workspaces = (0..9).map(|_| Workspace { stack: Vec::new(), tasklist: Vec::new() }).collect();
    Wm { workspaces, active_workspace_index: 0, drag_state: None, screen: screen() }
}

/// A window manager whose active workspace holds clients with the given
/// ids (stack order, last focused); container ids are id + 100.
fn wm_with_stack(ids: &[u32]) -> Wm {
    let mut wm = empty_wm();
    for (i, &id) in ids.iter().enumerate() {
        wm.workspaces[0].stack.push(plain_client(
            id,
            id + 100,
            10 * (i as i16 + 1),
            20 * (i as i16 + 1),
            400,
            300,
        ));
        wm.workspaces[0].tasklist.push(id);
    }
    wm
}

fn stack_ids(wm: &Wm, w: usize) -> Vec<u32> {
    wm.workspaces[w].stack.iter().map(|c| c.id).collect()
}

fn check_two_order_invariant(wm: &Wm) {
    for w in 0..9 {
        let stack: Vec<u32> = stack_ids(wm, w);
        let tasklist = &wm.workspaces[w].tasklist;
        assert_eq!(stack.len(), tasklist.len());
        for id in &stack {
            assert_eq!(stack.iter().filter(|x| *x == id).count(), 1);
            assert!(tasklist.contains(id));
        }
        for id in tasklist {
            assert_eq!(tasklist.iter().filter(|x| *x == id).count(), 1);
            assert!(stack.contains(id));
        }
    }
}

#[test]
fn map_request_centres_a_new_window_on_the_empty_workspace() {
    let mut wm = empty_wm();
    let cmds = wm.handle_map_request(7, 107, 800, 600, None, None, None);

    assert_eq!(stack_ids(&wm, 0), vec![7]);
    assert_eq!(wm.workspaces[0].tasklist, vec![7]);
    // Focused is always the last stack element.
    assert_eq!(wm.workspaces[0].stack.last().unwrap().id, 7);
    // Centred: content x = (screen_width - 800) / 2.
    assert_eq!(wm.workspaces[0].stack[0].x, (1920 - 800) / 2);
    assert_eq!(wm.workspaces[0].stack[0].y, (1080 + 28 - 600) / 2);
    assert!(!wm.workspaces[0].stack[0].maximized);
    assert!(cmds.contains(&Command::MapWindow(7)));
    assert!(cmds.contains(&Command::MapWindow(107)));
    assert!(cmds.contains(&Command::SetFocus(Some(7))));
    assert!(cmds.contains(&Command::RaiseTopPanel));
    assert!(cmds.contains(&Command::RaiseBottomPanel));
    check_two_order_invariant(&wm);
}

#[test]
fn map_request_for_a_managed_window_is_a_no_op() {
    let mut wm = wm_with_stack(&[1, 2]);
    // Window 1 is already managed: the request is ignored completely, even
    // though it is not the focused client.
    let cmds = wm.handle_map_request(1, 201, 800, 600, None, None, None);
    assert!(cmds.is_empty());
    assert_eq!(stack_ids(&wm, 0), vec![1, 2]);
    assert_eq!(wm.workspaces[0].tasklist, vec![1, 2]);
    check_two_order_invariant(&wm);
}

#[test]
fn map_request_full_width_window_is_taken_as_maximized() {
    let mut wm = empty_wm();
    let cmds = wm.handle_map_request(7, 107, 1920, 500, None, None, None);

    let c = &wm.workspaces[0].stack[0];
    assert!(c.maximized);
    // Placeholder content size, since the true size is unknown.
    assert_eq!((c.width, c.height), (1000, 800));
    // The mismatched height is forced to the usable band first.
    assert_eq!(cmds[0], Command::SetWindowHeight(7, 1080 - 28 - 30));
}

#[test]
fn map_request_inserts_next_to_the_previously_focused_client() {
    let mut wm = wm_with_stack(&[1, 2, 3]);
    // Focused is 3, sitting at tasklist position 2.
    wm.handle_map_request(9, 109, 640, 480, None, None, None);
    assert_eq!(stack_ids(&wm, 0), vec![1, 2, 3, 9]);
    assert_eq!(wm.workspaces[0].tasklist, vec![1, 2, 3, 9]);

    // With the focused client in the middle of the tasklist the new one
    // lands right after it.
    let mut wm = wm_with_stack(&[1, 2, 3]);
    wm.workspaces[0].tasklist = vec![3, 1, 2];
    wm.handle_map_request(9, 109, 640, 480, None, None, None);
    assert_eq!(wm.workspaces[0].tasklist, vec![3, 9, 1, 2]);
    check_two_order_invariant(&wm);
}

#[test]
fn raising_the_topmost_client_is_a_no_op() {
    let mut wm = wm_with_stack(&[1, 2, 3]);
    let cmds = wm.raise_client(2);
    assert!(cmds.is_empty());
    assert_eq!(stack_ids(&wm, 0), vec![1, 2, 3]);
    assert_eq!(wm.workspaces[0].tasklist, vec![1, 2, 3]);
    assert!(!wm.workspaces[0].stack[2].need_redraw);
}

#[test]
fn raising_a_buried_client_focuses_it() {
    let mut wm = wm_with_stack(&[1, 2, 3]);
    let cmds = wm.raise_client(0);
    assert_eq!(stack_ids(&wm, 0), vec![2, 3, 1]);
    assert_eq!(wm.workspaces[0].tasklist, vec![1, 2, 3]);
    assert_eq!(
        cmds,
        vec![
            Command::RaiseWindow(101),
            Command::RaiseTopPanel,
            Command::RaiseBottomPanel,
            Command::SetFocus(Some(1)),
            Command::NotifyBottomPanel,
        ]
    );
    check_two_order_invariant(&wm);
}

#[test]
fn titlebar_press_raises_and_starts_a_move_drag() {
    let mut wm = wm_with_stack(&[1, 2, 3]);
    // Plain primary press on client 1's container, inside the titlebar
    // band (client width 400: x in 5..=405, y in 5..=30).
    let cmds = wm.handle_button_press(101, MouseButton::Primary, false, 10, 10, 300, 400);

    assert_eq!(stack_ids(&wm, 0), vec![2, 3, 1]);
    assert_eq!(wm.workspaces[0].stack.last().unwrap().id, 1);
    assert_eq!(wm.workspaces[0].tasklist, vec![1, 2, 3]);
    let drag = wm.drag_state.expect("drag started");
    assert_eq!(drag.kind, DragKind::Move);
    assert_eq!((drag.x, drag.y), (300, 400));
    assert!(cmds.contains(&Command::SetFocus(Some(1))));
    check_two_order_invariant(&wm);
}

#[test]
fn press_outside_the_titlebar_raises_without_a_drag() {
    let mut wm = wm_with_stack(&[1, 2, 3]);
    let cmds = wm.handle_button_press(101, MouseButton::Primary, false, 200, 200, 300, 400);
    assert_eq!(stack_ids(&wm, 0), vec![2, 3, 1]);
    assert!(wm.drag_state.is_none());
    assert!(cmds.contains(&Command::RaiseWindow(101)));
}

#[test]
fn content_press_replays_the_click() {
    let mut wm = wm_with_stack(&[1, 2]);
    // The press matched the content window, so the withheld click is
    // replayed before anything else.
    let cmds = wm.handle_button_press(1, MouseButton::Primary, false, 200, 200, 300, 400);
    assert_eq!(cmds[0], Command::ReplayPointer);
}

#[test]
fn resize_drag_accumulates_increments_and_clamps_at_one() {
    let mut wm = wm_with_stack(&[1]);
    wm.workspaces[0].stack[0].x = 10;
    wm.workspaces[0].stack[0].y = 200;
    wm.workspaces[0].stack[0].width = 100;
    wm.workspaces[0].stack[0].height = 100;

    // Modifier + secondary button starts a resize after warping the
    // pointer to the bottom-right corner (110, 300).
    let cmds = wm.handle_button_press(101, MouseButton::Secondary, true, 50, 50, 60, 250);
    let drag = wm.drag_state.expect("drag started");
    assert_eq!(drag.kind, DragKind::Resize);
    assert_eq!((drag.x, drag.y), (110, 300));
    assert!(cmds.contains(&Command::MovePointer(110, 300)));

    // First motion: +50 in x, +0 in y.
    wm.handle_motion_notify(1, 160, 300);
    let c = &wm.workspaces[0].stack[0];
    assert_eq!((c.width, c.height), (150, 100));

    // Second motion: +0, -80, from the *new* anchor.
    wm.handle_motion_notify(1, 160, 220);
    let c = &wm.workspaces[0].stack[0];
    assert_eq!((c.width, c.height), (150, 20));

    // A -200 delta clamps at 1, never below.
    wm.handle_motion_notify(1, 160, 20);
    let c = &wm.workspaces[0].stack[0];
    assert_eq!((c.width, c.height), (150, 1));

    // Any release ends the drag.
    wm.handle_button_release();
    assert!(wm.drag_state.is_none());
}

#[test]
fn move_drag_applies_incremental_deltas_to_the_position() {
    let mut wm = wm_with_stack(&[1]);
    wm.handle_button_press(101, MouseButton::Primary, true, 0, 0, 500, 500);
    let (x0, y0) = (wm.workspaces[0].stack[0].x, wm.workspaces[0].stack[0].y);
    wm.handle_motion_notify(1, 530, 480);
    let c = &wm.workspaces[0].stack[0];
    assert_eq!((c.x, c.y), (x0 + 30, y0 - 20));
    // Motion without a drag in progress does nothing.
    wm.handle_button_release();
    let cmds = wm.handle_motion_notify(1, 900, 900);
    assert!(cmds.is_empty());
}

#[test]
fn tasklist_reorder_swaps_with_the_cyclic_successor() {
    // tasklist [A, B, C] with B focused: stack puts 2 last.
    let mut wm = wm_with_stack(&[1, 3, 2]);
    wm.workspaces[0].tasklist = vec![1, 2, 3];
    let cmds = wm.move_active_client_forward_in_tasklist();
    assert_eq!(wm.workspaces[0].tasklist, vec![1, 3, 2]);
    // The stack order is untouched.
    assert_eq!(stack_ids(&wm, 0), vec![1, 3, 2]);
    assert_eq!(cmds, vec![Command::NotifyTopPanel, Command::NotifyBottomPanel]);
    check_two_order_invariant(&wm);
}

#[test]
fn tasklist_reorder_wraps_around() {
    // Focused client 3 sits at the end of the tasklist: forward wraps to
    // the front.
    let mut wm = wm_with_stack(&[1, 2, 3]);
    wm.move_active_client_forward_in_tasklist();
    assert_eq!(wm.workspaces[0].tasklist, vec![3, 2, 1]);

    let mut wm = wm_with_stack(&[1, 2, 3]);
    wm.workspaces[0].tasklist = vec![3, 1, 2];
    wm.move_active_client_backward_in_tasklist();
    assert_eq!(wm.workspaces[0].tasklist, vec![2, 1, 3]);
}

#[test]
fn raise_next_follows_the_tasklist_order() {
    let mut wm = wm_with_stack(&[1, 2, 3]);
    // Focused is 3 at tasklist position 2; its successor wraps to 1.
    wm.raise_next_tasklist_client();
    assert_eq!(stack_ids(&wm, 0), vec![2, 3, 1]);
    assert_eq!(wm.workspaces[0].tasklist, vec![1, 2, 3]);

    // And the predecessor of the now-focused 1 is 3.
    wm.raise_previous_tasklist_client();
    assert_eq!(stack_ids(&wm, 0), vec![2, 1, 3]);
    check_two_order_invariant(&wm);
}

#[test]
fn workspace_switch_maps_the_target_in_reverse_order() {
    let mut wm = wm_with_stack(&[1, 2]);
    wm.workspaces[3].stack.push(plain_client(5, 105, 0, 0, 100, 100));
    wm.workspaces[3].stack.push(plain_client(6, 106, 0, 0, 100, 100));
    wm.workspaces[3].tasklist = vec![5, 6];

    let cmds = wm.change_active_workspace(3);
    assert_eq!(wm.active_workspace_index, 3);
    assert_eq!(
        cmds,
        vec![
            // Topmost mapped first so it ends up topmost.
            Command::MapWindow(106),
            Command::MapWindow(105),
            Command::SetFocus(Some(6)),
            Command::UnmapWindow(101),
            Command::UnmapWindow(102),
            Command::NotifyTopPanel,
            Command::NotifyBottomPanel,
        ]
    );
    // Every target client was marked dirty.
    assert!(wm.workspaces[3].stack.iter().all(|c| c.need_redraw));

    // Switching to the active workspace is a no-op.
    let cmds = wm.change_active_workspace(3);
    assert!(cmds.is_empty());
}

#[test]
fn moving_the_focused_client_to_another_workspace() {
    let mut wm = wm_with_stack(&[1, 2]);
    let cmds = wm.move_active_client_to_workspace(4);
    assert_eq!(stack_ids(&wm, 0), vec![1]);
    assert_eq!(wm.workspaces[0].tasklist, vec![1]);
    assert_eq!(stack_ids(&wm, 4), vec![2]);
    assert_eq!(wm.workspaces[4].tasklist, vec![2]);
    assert!(cmds.contains(&Command::UnmapWindow(102)));
    assert!(cmds.contains(&Command::SetFocus(Some(1))));
    check_two_order_invariant(&wm);

    // From an empty workspace it is a no-op.
    let mut wm = empty_wm();
    let cmds = wm.move_active_client_to_workspace(4);
    assert!(cmds.is_empty());
}

#[test]
fn unmap_removes_the_client_wherever_it_lives() {
    let mut wm = wm_with_stack(&[1, 2, 3]);
    wm.workspaces[5].stack.push(plain_client(9, 109, 0, 0, 50, 50));
    wm.workspaces[5].tasklist.push(9);

    // A client on an inactive workspace: no focus change, top panel only.
    let cmds = wm.handle_unmap_notify(9);
    assert!(stack_ids(&wm, 5).is_empty());
    assert_eq!(
        cmds,
        vec![
            Command::ReparentToRoot { window: 9, x: 0, y: 0 },
            Command::RemoveFromSaveSet(9),
            Command::DestroyWindow(109),
            Command::NotifyTopPanel,
        ]
    );

    // The focused client of the active workspace: focus moves to the
    // uncovered client.
    let cmds = wm.handle_unmap_notify(3);
    assert_eq!(stack_ids(&wm, 0), vec![1, 2]);
    assert!(cmds.contains(&Command::SetFocus(Some(2))));
    assert!(cmds.contains(&Command::NotifyBottomPanel));

    // An unmanaged window is ignored.
    let cmds = wm.handle_unmap_notify(77);
    assert!(cmds.is_empty());
    check_two_order_invariant(&wm);
}

#[test]
fn key_presses_drive_the_state_machine() {
    let mut wm = wm_with_stack(&[1, 2]);

    // Absolute workspace switch.
    wm.handle_key_press(Keycode::Number2, false);
    assert_eq!(wm.active_workspace_index, 1);

    // Relative switches wrap.
    wm.handle_key_press(Keycode::Left, false);
    assert_eq!(wm.active_workspace_index, 0);
    wm.handle_key_press(Keycode::Left, false);
    assert_eq!(wm.active_workspace_index, 8);
    wm.handle_key_press(Keycode::Right, false);
    assert_eq!(wm.active_workspace_index, 0);

    // Close asks the focused client, never force-destroys.
    let cmds = wm.handle_key_press(Keycode::X, false);
    assert_eq!(cmds, vec![Command::AskWindowToClose(2)]);

    // Maximize toggle on the focused client.
    wm.handle_key_press(Keycode::M, false);
    assert!(wm.workspaces[0].stack[1].maximized);
    wm.handle_key_press(Keycode::M, false);
    assert!(!wm.workspaces[0].stack[1].maximized);

    // Shift + number moves the focused client.
    wm.handle_key_press(Keycode::Number3, true);
    assert_eq!(stack_ids(&wm, 0), vec![1]);
    assert_eq!(stack_ids(&wm, 2), vec![2]);

    // The restart key only requests the save-and-restart sequence.
    let before = wm.serialize();
    let cmds = wm.handle_key_press(Keycode::Escape, false);
    assert_eq!(cmds, vec![Command::SaveAndRestart]);
    let after = wm.serialize();
    assert_eq!(before.active_workspace_index, after.active_workspace_index);
    check_two_order_invariant(&wm);
}

#[test]
fn maximized_clients_are_not_draggable() {
    let mut wm = wm_with_stack(&[1, 2]);
    // Maximize the focused client 2, then press on its content window with
    // the drag modifier held.
    wm.handle_key_press(Keycode::M, false);
    let cmds = wm.handle_button_press(2, MouseButton::Primary, true, 10, 10, 100, 100);
    assert!(wm.drag_state.is_none());
    // The withheld click is still replayed; raising the topmost client
    // issues nothing further.
    assert_eq!(cmds, vec![Command::ReplayPointer]);
}

#[test]
fn keys_the_state_machine_does_not_own_are_ignored() {
    let mut wm = wm_with_stack(&[1]);
    // A hotkey that only launches a helper program changes nothing here.
    let cmds = wm.handle_key_press(Keycode::T, false);
    assert!(cmds.is_empty());
    assert_eq!(stack_ids(&wm, 0), vec![1]);
    assert_eq!(wm.active_workspace_index, 0);
}

#[test]
fn property_changes_update_the_owning_client() {
    let mut wm = wm_with_stack(&[1]);
    wm.workspaces[0].stack[0].need_redraw = false;

    let cmds = wm.handle_property_notify(1, PropertyChange::Class(Some("term".to_string())));
    assert_eq!(wm.workspaces[0].stack[0].class, Some("term".to_string()));
    // A class change repaints the top panel and does not mark dirty.
    assert_eq!(cmds, vec![Command::NotifyTopPanel]);
    assert!(!wm.workspaces[0].stack[0].need_redraw);

    let cmds = wm.handle_property_notify(1, PropertyChange::Title(Some("hello".to_string())));
    assert_eq!(wm.workspaces[0].stack[0].title, Some("hello".to_string()));
    assert!(wm.workspaces[0].stack[0].need_redraw);
    assert_eq!(cmds, vec![Command::NotifyBottomPanel]);

    // On an inactive workspace a title change repaints nothing.
    wm.workspaces[2].stack.push(plain_client(9, 109, 0, 0, 50, 50));
    wm.workspaces[2].tasklist.push(9);
    let cmds = wm.handle_property_notify(9, PropertyChange::Title(Some("bye".to_string())));
    assert!(cmds.is_empty());

    // Unmanaged windows are ignored.
    let cmds = wm.handle_property_notify(77, PropertyChange::Class(None));
    assert!(cmds.is_empty());
}

#[test]
fn configure_requests_honour_size_but_drop_position() {
    let mut wm = wm_with_stack(&[1]);

    // Unmanaged: forwarded verbatim.
    let cmds = wm.handle_configure_request(77, true, true, 300, 200);
    assert_eq!(cmds, vec![Command::ForwardConfigureRequest]);

    // Managed, size change: applied through the client's own resize.
    let cmds = wm.handle_configure_request(1, true, true, 300, 200);
    let c = &wm.workspaces[0].stack[0];
    assert_eq!((c.width, c.height), (300, 200));
    assert!(cmds.contains(&Command::SetWindowWidth(1, 300)));

    // Managed, position-only: dropped.
    let cmds = wm.handle_configure_request(1, false, false, 0, 0);
    assert!(cmds.is_empty());
    let c = &wm.workspaces[0].stack[0];
    assert_eq!((c.width, c.height), (300, 200));
}

#[test]
fn redraw_pass_clears_flags_and_reports_the_active_client() {
    let mut wm = wm_with_stack(&[1, 2]);
    wm.workspaces[0].stack[0].need_redraw = true;
    wm.workspaces[0].stack[1].need_redraw = true;

    let reqs = wm.request_redraw();
    assert_eq!(reqs.len(), 2);
    assert_eq!(reqs[0].container_id, 101);
    assert!(!reqs[0].is_active);
    assert_eq!(reqs[1].container_id, 102);
    assert!(reqs[1].is_active);
    assert!(wm.workspaces[0].stack.iter().all(|c| !c.need_redraw));

    // A second pass has nothing to do.
    assert!(wm.request_redraw().is_empty());
}

fn existing(id: u32, x: i16, y: i16, width: u16, height: u16) -> ExistingWindow {
    ExistingWindow {
        id,
        container_id: id + 100,
        viewable: true,
        override_redirect: false,
        x,
        y,
        width,
        height,
        class: None,
        title: None,
        icon: None,
    }
}

fn saved_with_one_client(id: u32) -> SavedState {
    let mut workspaces: Vec<SavedWorkspace> = (0..9)
        .map(|_| SavedWorkspace { stack: Vec::new(), tasklist: Vec::new() })
        .collect();
    workspaces[0] = SavedWorkspace {
        stack: vec![SavedClient { id, x: 11, y: 22, width: 333, height: 444, maximized: false }],
        tasklist: vec![id],
    };
    SavedState { workspaces, active_workspace_index: 0 }
}

#[test]
fn reconciliation_skips_vanished_windows() {
    // The snapshot records window 7, but it no longer exists: workspace 0
    // ends empty and nothing crashes.
    let (wm, cmds) = Wm::new(screen(), Some(saved_with_one_client(7)), Vec::new());
    assert!(stack_ids(&wm, 0).is_empty());
    assert!(wm.workspaces[0].tasklist.is_empty());
    assert_eq!(cmds, vec![Command::SetFocus(None)]);
    check_two_order_invariant(&wm);
}

#[test]
fn reconciliation_readopts_with_recorded_geometry() {
    let (wm, cmds) = Wm::new(screen(), Some(saved_with_one_client(7)), vec![existing(
        7, 1, 2, 640, 480,
    )]);
    let c = &wm.workspaces[0].stack[0];
    // Recorded geometry wins over the live one.
    assert_eq!((c.x, c.y, c.width, c.height), (11, 22, 333, 444));
    assert_eq!(c.container_id, 107);
    assert_eq!(wm.workspaces[0].tasklist, vec![7]);
    // The container is shown, since workspace 0 is active.
    assert!(cmds.contains(&Command::MapWindow(107)));
    assert_eq!(*cmds.last().unwrap(), Command::SetFocus(Some(7)));
    check_two_order_invariant(&wm);
}

#[test]
fn reconciliation_adopts_leftovers_into_the_active_workspace() {
    let (wm, cmds) = Wm::new(screen(), None, vec![
        existing(5, 1, 2, 640, 480),
        existing(6, 3, 4, 1920, 1080 - 28 - 30),
    ]);
    assert_eq!(stack_ids(&wm, 0), vec![5, 6]);
    assert_eq!(wm.workspaces[0].tasklist, vec![5, 6]);
    // Live geometry, and the full-width window is taken as maximized.
    assert!(!wm.workspaces[0].stack[0].maximized);
    assert!(wm.workspaces[0].stack[1].maximized);
    assert_eq!(*cmds.last().unwrap(), Command::SetFocus(Some(6)));
    check_two_order_invariant(&wm);
}

#[test]
fn reconciliation_uses_the_map_request_maximize_heuristic() {
    // Width alone decides, exactly as on a map request: a full-width window
    // of any height adopts as maximized, a narrower one never does.
    let (wm, _) = Wm::new(screen(), None, vec![
        existing(5, 0, 0, 1920, 500),
        existing(6, 0, 0, 1919, 1080 - 28 - 30),
    ]);
    assert!(wm.workspaces[0].stack[0].maximized);
    assert!(!wm.workspaces[0].stack[1].maximized);
}

#[test]
fn reconciliation_never_manages_unviewable_or_override_redirect() {
    let mut hidden = existing(5, 0, 0, 100, 100);
    hidden.viewable = false;
    let mut redirect = existing(6, 0, 0, 100, 100);
    redirect.override_redirect = true;
    let (wm, _) = Wm::new(screen(), None, vec![hidden, redirect]);
    for w in 0..9 {
        assert!(stack_ids(&wm, w).is_empty());
    }
}

#[test]
fn serialize_round_trips_through_reconciliation() {
    let mut wm = wm_with_stack(&[1, 2]);
    wm.workspaces[0].tasklist = vec![2, 1];
    wm.handle_key_press(Keycode::Number4, false);
    let snapshot = wm.serialize();
    assert!(snapshot.is_consistent());
    assert_eq!(snapshot.active_workspace_index, 3);
    assert_eq!(snapshot.workspaces[0].tasklist, vec![2, 1]);
    assert_eq!(snapshot.workspaces[0].stack[0].id, 1);
    assert_eq!(snapshot.workspaces[0].stack[0].width, 400);

    // Both windows still exist after the restart: everything is re-adopted
    // where it was.
    let (wm2, _) = Wm::new(screen(), Some(snapshot), vec![
        existing(1, 0, 0, 9, 9),
        existing(2, 0, 0, 9, 9),
    ]);
    assert_eq!(wm2.active_workspace_index, 3);
    assert_eq!(stack_ids(&wm2, 0), vec![1, 2]);
    assert_eq!(wm2.workspaces[0].tasklist, vec![2, 1]);
    // Geometry came from the snapshot, not the live query.
    assert_eq!(wm2.workspaces[0].stack[0].width, 400);
    check_two_order_invariant(&wm2);
}
